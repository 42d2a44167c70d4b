//! Canonical spelling of BCP 47 locale tags.
use vstd::prelude::*;

use crate::chars::{
    ascii_lower, ascii_upper, ascii_without, is_ascii_char, lemma_ascii_byte_len, lemma_ascii_case,
    lemma_join_ascii_without, lemma_join_head, lemma_join_split, lemma_lower_join,
    lower_case_language, lemma_replace_char_absent, lemma_split_ascii_without, lemma_split_join,
    lemma_split_on_nonempty, lemma_split_on_pieces,
    ascii_lower_chars, ascii_lower_str, ascii_upper_chars, ascii_upper_str, byte_len,
    char_to_uppercase, char_upper, chars_of, has_four_bytes, join_chars, join_with, replace_char,
    replace_char_in, split_chars, split_on, string_from_chars,
};

verus! {

/// The locale that every lookup falls back to: `en-US`.
pub open spec fn default_locale() -> Seq<char> {
    seq!['e', 'n', '-', 'U', 'S']
}

/// The characters of `en-US`.
pub fn default_locale_chars() -> (res: Vec<char>)
    ensures
        res@ == default_locale(),
{
    let mut res: Vec<char> = Vec::new();
    res.push('e');
    res.push('n');
    res.push('-');
    res.push('U');
    res.push('S');
    res
}

/// The canonical spelling of the language subtag: lower case, and the
/// lower-cased default locale when the subtag is empty.
pub open spec fn canonical_language(part: Seq<char>) -> Seq<char> {
    if part.len() == 0 {
        ascii_lower_str(default_locale())
    } else {
        ascii_lower_str(part)
    }
}

/// The canonical spelling of a later subtag: a subtag of four bytes is a
/// script (first character upper case, the rest lower case); any other is a
/// region or variant (upper case).
pub open spec fn canonical_subtag(part: Seq<char>) -> Seq<char> {
    if byte_len(part) == 4 {
        char_upper(part[0]) + ascii_lower_str(part.drop_first())
    } else {
        ascii_upper_str(part)
    }
}

/// The subtags of a tag, `_` and `-` both taken as separators.
pub open spec fn subtags(locale: Seq<char>) -> Seq<Seq<char>> {
    split_on(replace_char(locale, '_', '-'), '-')
}

/// The canonical spelling of a locale tag: `zh_hans_cn` is `zh-Hans-CN` and
/// `EN-us` is `en-US`.
pub open spec fn spec_canonical_locale(locale: Seq<char>) -> Seq<char> {
    let parts = subtags(locale);
    join_with(
        seq![canonical_language(parts[0])] + parts.drop_first().map_values(
            |p: Seq<char>| canonical_subtag(p),
        ),
        '-',
    )
}

/// A subtag of four bytes is not empty.
pub proof fn lemma_four_bytes_nonempty(s: Seq<char>)
    requires
        byte_len(s) == 4,
    ensures
        s.len() > 0,
{
}

/// The canonical spelling of one subtag after the first.
fn canonical_subtag_chars(part: &Vec<char>) -> (res: Vec<char>)
    ensures
        res@ == canonical_subtag(part@),
{
    if has_four_bytes(part) {
        proof {
            lemma_four_bytes_nonempty(part@);
        }
        let first = char_to_uppercase(part[0]);
        let mut res = chars_of(first.as_str());
        let mut rest: Vec<char> = Vec::new();
        for i in 1..part.len()
            invariant
                1 <= part.len(),
                rest@ == part@.subrange(1, i as int),
        {
            rest.push(part[i]);
            assert(part@.subrange(1, i + 1) == part@.subrange(1, i as int).push(part@[i as int]));
        }
        assert(rest@ == part@.drop_first());
        let mut lowered = ascii_lower_chars(&rest);
        res.append(&mut lowered);
        res
    } else {
        ascii_upper_chars(part)
    }
}

/// The canonical spelling of a locale tag, as characters.
pub fn canonical_locale_chars(locale: &Vec<char>) -> (res: Vec<char>)
    ensures
        res@ == spec_canonical_locale(locale@),
{
    let normalized = replace_char_in(locale, '_', '-');
    let parts = split_chars(&normalized, '-');
    let ghost views = parts@.map_values(|p: Vec<char>| p@);
    let language = if parts[0].len() == 0 {
        let default = default_locale_chars();
        ascii_lower_chars(&default)
    } else {
        ascii_lower_chars(&parts[0])
    };
    let mut canonical: Vec<Vec<char>> = Vec::new();
    canonical.push(language);
    for i in 1..parts.len()
        invariant
            1 <= parts.len(),
            views == parts@.map_values(|p: Vec<char>| p@),
            views == subtags(locale@),
            canonical@.map_values(|p: Vec<char>| p@) == seq![canonical_language(views[0])]
                + views.subrange(1, i as int).map_values(|p: Seq<char>| canonical_subtag(p)),
    {
        let next = canonical_subtag_chars(&parts[i]);
        let ghost before = canonical@;
        canonical.push(next);
        assert(canonical@.map_values(|p: Vec<char>| p@) =~= before.map_values(|p: Vec<char>| p@).push(
            canonical_subtag(views[i as int]),
        ));
        assert(views.subrange(1, i + 1) == views.subrange(1, i as int).push(views[i as int]));
        assert(views.subrange(1, i + 1).map_values(|p: Seq<char>| canonical_subtag(p))
            =~= views.subrange(1, i as int).map_values(|p: Seq<char>| canonical_subtag(p)).push(
            canonical_subtag(views[i as int]),
        ));
        assert(canonical@.map_values(|p: Vec<char>| p@) =~= seq![canonical_language(views[0])]
            + views.subrange(1, i + 1).map_values(|p: Seq<char>| canonical_subtag(p)));
    }
    assert(views.subrange(1, parts.len() as int) == views.drop_first());
    join_chars(&canonical, '-')
}

/// The canonical spelling of a locale tag (`canonical_locale`): `_` is read
/// as `-`, the language subtag is lower-cased (an empty one becomes `en-us`),
/// four-byte subtags get an upper-case first character and lower-case rest,
/// and the other subtags are upper-cased.
pub fn canonical_locale(locale: &str) -> (res: String)
    ensures
        res@ == spec_canonical_locale(locale@),
{
    let chars = chars_of(locale);
    let canonical = canonical_locale_chars(&chars);
    string_from_chars(&canonical)
}

/// A subtag after canonical spelling is ASCII without `_` or `-`, where the
/// subtag was, and spelling it again changes nothing.
proof fn lemma_canonical_subtag_stable(part: Seq<char>)
    requires
        ascii_without(part, '_'),
        forall|j: int| 0 <= j < part.len() ==> part[j] != '-',
    ensures
        ascii_without(canonical_subtag(part), '_'),
        forall|j: int| 0 <= j < canonical_subtag(part).len() ==> canonical_subtag(part)[j] != '-',
        canonical_subtag(canonical_subtag(part)) == canonical_subtag(part),
{
    lemma_ascii_byte_len(part);
    let c = canonical_subtag(part);
    assert forall|j: int| 0 <= j < part.len() implies #[trigger] is_ascii_char(part[j]) by {}
    if part.len() == 4 {
        lemma_ascii_case(part[0]);
        let rest = part.drop_first();
        assert forall|j: int| 0 <= j < rest.len() implies is_ascii_char(#[trigger] ascii_lower_str(rest)[j])
            && ascii_lower_str(rest)[j] != '_' && ascii_lower_str(rest)[j] != '-' by {
            assert(rest[j] == part[j + 1]);
            lemma_ascii_case(rest[j]);
        }
        assert(c =~= seq![ascii_upper(part[0])] + ascii_lower_str(rest));
        assert forall|j: int| 0 <= j < c.len() implies is_ascii_char(#[trigger] c[j]) by {
            if j > 0 {
                assert(c[j] == ascii_lower_str(rest)[j - 1]);
            }
        }
        lemma_ascii_byte_len(c);
        lemma_ascii_case(c[0]);
        assert forall|j: int| 0 <= j < ascii_lower_str(rest).len() implies ascii_lower(
            #[trigger] ascii_lower_str(rest)[j],
        ) == ascii_lower_str(rest)[j] by {
            assert(rest[j] == part[j + 1]);
            lemma_ascii_case(rest[j]);
        }
        assert(c.drop_first() =~= ascii_lower_str(rest));
        assert(ascii_lower_str(c.drop_first()) =~= c.drop_first());
        assert(canonical_subtag(c) =~= c);
    } else {
        assert forall|j: int| 0 <= j < c.len() implies is_ascii_char(#[trigger] c[j]) && c[j]
            != '_' && c[j] != '-' && ascii_upper(c[j]) == c[j] by {
            lemma_ascii_case(part[j]);
        }
        lemma_ascii_byte_len(c);
        assert(canonical_subtag(c) =~= c);
    }
}

/// Canonical spelling is stable: spelling a canonical tag again changes
/// nothing, for every ASCII tag whose language subtag is not empty.
pub proof fn lemma_canonical_locale_idempotent(locale: Seq<char>)
    requires
        forall|i: int| 0 <= i < locale.len() ==> is_ascii_char(#[trigger] locale[i]),
        subtags(locale)[0].len() > 0,
    ensures
        spec_canonical_locale(spec_canonical_locale(locale)) == spec_canonical_locale(locale),
{
    let normalized = replace_char(locale, '_', '-');
    assert forall|i: int| 0 <= i < normalized.len() implies is_ascii_char(#[trigger] normalized[i])
        && normalized[i] != '_' by {}
    let parts = subtags(locale);
    lemma_split_on_nonempty(normalized, '-');
    lemma_split_on_pieces(normalized, '-');
    lemma_split_ascii_without(normalized, '-', '_');
    let cparts = seq![canonical_language(parts[0])] + parts.drop_first().map_values(
        |p: Seq<char>| canonical_subtag(p),
    );
    let canonical = spec_canonical_locale(locale);
    assert(canonical == join_with(cparts, '-'));
    // The canonical pieces are ASCII without `_` or `-`, and stable.
    assert forall|i: int| 0 <= i < cparts.len() implies ascii_without(#[trigger] cparts[i], '_')
        && (forall|j: int| 0 <= j < cparts[i].len() ==> cparts[i][j] != '-') by {
        if i == 0 {
            assert(ascii_without(parts[0], '_'));
            assert forall|j: int| 0 <= j < cparts[0].len() implies is_ascii_char(
                #[trigger] cparts[0][j],
            ) && cparts[0][j] != '_' && cparts[0][j] != '-' by {
                assert(parts[0][j] != '-');
                lemma_ascii_case(parts[0][j]);
            }
        } else {
            assert(parts[i] == parts.drop_first()[i - 1]);
            assert(ascii_without(parts[i], '_'));
            assert(forall|j: int| 0 <= j < parts[i].len() ==> parts[i][j] != '-');
            lemma_canonical_subtag_stable(parts[i]);
        }
    }
    lemma_join_ascii_without(cparts, '-', '_');
    lemma_replace_char_absent(canonical, '_', '-');
    lemma_split_join(cparts, '-');
    assert(subtags(canonical) == cparts);
    // Spelling the pieces again gives the same pieces.
    let again = seq![canonical_language(cparts[0])] + cparts.drop_first().map_values(
        |p: Seq<char>| canonical_subtag(p),
    );
    assert forall|j: int| 0 <= j < cparts[0].len() implies ascii_lower(#[trigger] cparts[0][j])
        == cparts[0][j] by {
        lemma_ascii_case(parts[0][j]);
    }
    assert(ascii_lower_str(cparts[0]) =~= cparts[0]);
    assert forall|i: int| 0 <= i < again.len() implies #[trigger] again[i] == cparts[i] by {
        if i > 0 {
            assert(parts[i] == parts.drop_first()[i - 1]);
            assert(ascii_without(parts[i], '_'));
            assert(forall|j: int| 0 <= j < parts[i].len() ==> parts[i][j] != '-');
            lemma_canonical_subtag_stable(parts[i]);
        }
    }
    assert(again =~= cparts);
}

/// ASCII lower-casing never yields an upper-case ASCII letter.
proof fn lemma_lower_not_upper(c: char)
    ensures
        !('A' <= ascii_lower(c) <= 'Z'),
{
}

/// The canonical spelling of any tag is not empty, and no ASCII upper-case
/// letter comes before its first `-`.
pub proof fn lemma_canonical_locale_shape(locale: Seq<char>)
    ensures
        spec_canonical_locale(locale).len() > 0,
        lower_case_language(spec_canonical_locale(locale)),
{
    let parts = subtags(locale);
    lemma_split_on_nonempty(replace_char(locale, '_', '-'), '-');
    let cparts = seq![canonical_language(parts[0])] + parts.drop_first().map_values(
        |p: Seq<char>| canonical_subtag(p),
    );
    let first = cparts[0];
    let r = spec_canonical_locale(locale);
    assert(r == join_with(cparts, '-'));
    assert(first.len() > 0);
    assert forall|i: int| 0 <= i < first.len() implies !('A' <= #[trigger] first[i] <= 'Z') by {
        if parts[0].len() == 0 {
            lemma_lower_not_upper(default_locale()[i]);
        } else {
            lemma_lower_not_upper(parts[0][i]);
        }
    }
    if cparts.len() >= 2 {
        lemma_join_head(cparts, '-');
        assert(r[first.len() as int] == '-');
        assert forall|i: int|
            0 <= i < r.len() && (forall|j: int| 0 <= j < i ==> r[j] != '-') implies !('A'
            <= #[trigger] r[i] <= 'Z') by {
            if i < first.len() {
                assert(r[i] == first[i]);
            } else if i > first.len() {
                assert(r[first.len() as int] == '-');
            }
        }
    } else {
        assert(r == first);
    }
}

/// Lower-casing a canonical subtag of an ASCII subtag gives the subtag
/// lower-cased.
proof fn lemma_subtag_lower(part: Seq<char>)
    requires
        forall|j: int| 0 <= j < part.len() ==> is_ascii_char(#[trigger] part[j]),
    ensures
        ascii_lower_str(canonical_subtag(part)) == ascii_lower_str(part),
{
    lemma_ascii_byte_len(part);
    if part.len() == 4 {
        lemma_ascii_case(part[0]);
        let rest = part.drop_first();
        assert forall|j: int| 0 <= j < rest.len() implies ascii_lower(
            #[trigger] ascii_lower_str(rest)[j],
        ) == ascii_lower(rest[j]) by {
            assert(rest[j] == part[j + 1]);
            lemma_ascii_case(rest[j]);
        }
        assert(ascii_lower_str(canonical_subtag(part)) =~= ascii_lower_str(part));
    } else {
        assert forall|j: int| 0 <= j < part.len() implies ascii_lower(
            #[trigger] ascii_upper_str(part)[j],
        ) == ascii_lower(part[j]) by {
            lemma_ascii_case(part[j]);
        }
        assert(ascii_lower_str(canonical_subtag(part)) =~= ascii_lower_str(part));
    }
}

/// For an ASCII tag with a language subtag, canonical spelling keeps the
/// length, leaves no `_`, and changes only the case: lower-cased, it is the
/// tag with `_` read as `-`, lower-cased.
pub proof fn lemma_canonical_locale_ascii(locale: Seq<char>)
    requires
        forall|i: int| 0 <= i < locale.len() ==> is_ascii_char(#[trigger] locale[i]),
        subtags(locale)[0].len() > 0,
    ensures
        ascii_without(spec_canonical_locale(locale), '_'),
        spec_canonical_locale(locale).len() == locale.len(),
        ascii_lower_str(spec_canonical_locale(locale)) == ascii_lower_str(
            replace_char(locale, '_', '-'),
        ),
{
    let normalized = replace_char(locale, '_', '-');
    assert forall|i: int| 0 <= i < normalized.len() implies is_ascii_char(#[trigger] normalized[i])
        && normalized[i] != '_' by {}
    let parts = subtags(locale);
    lemma_split_on_nonempty(normalized, '-');
    lemma_split_on_pieces(normalized, '-');
    lemma_split_ascii_without(normalized, '-', '_');
    let cparts = seq![canonical_language(parts[0])] + parts.drop_first().map_values(
        |p: Seq<char>| canonical_subtag(p),
    );
    let canonical = spec_canonical_locale(locale);
    assert(canonical == join_with(cparts, '-'));
    assert forall|i: int| 0 <= i < cparts.len() implies ascii_without(#[trigger] cparts[i], '_')
        && ascii_lower_str(cparts[i]) == ascii_lower_str(parts[i]) by {
        assert(ascii_without(parts[i], '_'));
        assert(forall|j: int| 0 <= j < parts[i].len() ==> #[trigger] is_ascii_char(parts[i][j]));
        if i == 0 {
            assert forall|j: int| 0 <= j < cparts[0].len() implies is_ascii_char(
                #[trigger] cparts[0][j],
            ) && cparts[0][j] != '_' && ascii_lower(cparts[0][j]) == ascii_lower(parts[0][j]) by {
                lemma_ascii_case(parts[0][j]);
            }
            assert(ascii_lower_str(cparts[0]) =~= ascii_lower_str(parts[0]));
        } else {
            assert(parts[i] == parts.drop_first()[i - 1]);
            assert(forall|j: int| 0 <= j < parts[i].len() ==> parts[i][j] != '-');
            lemma_canonical_subtag_stable(parts[i]);
            lemma_subtag_lower(parts[i]);
        }
    }
    lemma_join_ascii_without(cparts, '-', '_');
    lemma_lower_join(cparts, '-');
    lemma_lower_join(parts, '-');
    lemma_join_split(normalized, '-');
    assert(cparts.map_values(|p: Seq<char>| ascii_lower_str(p)) =~= parts.map_values(
        |p: Seq<char>| ascii_lower_str(p),
    ));
    assert(ascii_lower_str(canonical).len() == canonical.len());
    assert(ascii_lower_str(normalized).len() == normalized.len());
}

} // verus!
