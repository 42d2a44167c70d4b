//! Strings as character sequences: conversions, ASCII case mapping, UTF-8
//! byte lengths and the splitting and joining used on locale tags.
use vstd::prelude::*;

verus! {

/// `c` lies in the ASCII range.
pub open spec fn is_ascii_char(c: char) -> bool {
    (c as u32) < 0x80
}

/// ASCII lower-case mapping of one character (`char::to_ascii_lowercase`).
pub open spec fn ascii_lower(c: char) -> char {
    if 'A' <= c && c <= 'Z' {
        ((c as u32) + 32) as char
    } else {
        c
    }
}

/// ASCII upper-case mapping of one character (`char::to_ascii_uppercase`).
pub open spec fn ascii_upper(c: char) -> char {
    if 'a' <= c && c <= 'z' {
        ((c as u32) - 32) as char
    } else {
        c
    }
}

/// ASCII lower-case mapping of a whole string (`str::to_ascii_lowercase`).
pub open spec fn ascii_lower_str(s: Seq<char>) -> Seq<char> {
    s.map_values(|c: char| ascii_lower(c))
}

/// ASCII upper-case mapping of a whole string (`str::to_ascii_uppercase`).
pub open spec fn ascii_upper_str(s: Seq<char>) -> Seq<char> {
    s.map_values(|c: char| ascii_upper(c))
}

/// Number of bytes that `c` takes in UTF-8.
pub open spec fn utf8_len(c: char) -> nat {
    if (c as u32) < 0x80 {
        1
    } else if (c as u32) < 0x800 {
        2
    } else if (c as u32) < 0x10000 {
        3
    } else {
        4
    }
}

/// Number of bytes of the UTF-8 encoding of `s` (`str::len`).
pub open spec fn byte_len(s: Seq<char>) -> nat
    decreases s.len(),
{
    if s.len() == 0 {
        0
    } else {
        byte_len(s.drop_last()) + utf8_len(s.last())
    }
}

/// Every occurrence of `from` in `s` replaced by `to` (`str::replace` with a
/// one-character pattern and a one-character replacement).
pub open spec fn replace_char(s: Seq<char>, from: char, to: char) -> Seq<char> {
    s.map_values(|c: char| if c == from { to } else { c })
}

/// The pieces of `s` between occurrences of `sep` (`str::split` with a
/// character pattern): `n` separators give `n + 1` pieces, some maybe empty.
pub open spec fn split_on(s: Seq<char>, sep: char) -> Seq<Seq<char>>
    decreases s.len(),
{
    if s.len() == 0 {
        seq![Seq::<char>::empty()]
    } else {
        let init = split_on(s.drop_last(), sep);
        if s.last() == sep {
            init.push(Seq::<char>::empty())
        } else {
            init.update(init.len() - 1, init.last().push(s.last()))
        }
    }
}

/// The pieces joined with `sep` between consecutive pieces (`[T]::join`).
pub open spec fn join_with(parts: Seq<Seq<char>>, sep: char) -> Seq<char>
    decreases parts.len(),
{
    if parts.len() == 0 {
        Seq::<char>::empty()
    } else if parts.len() == 1 {
        parts[0]
    } else {
        join_with(parts.drop_last(), sep) + seq![sep] + parts.last()
    }
}

/// The result of `char::to_uppercase`: the full Unicode upper-case mapping of
/// one character, which may be several characters long.
pub uninterp spec fn unicode_upper(c: char) -> Seq<char>;

/// The upper-case mapping of one character as `char::to_uppercase` gives it:
/// for an ASCII character the ASCII mapping, else the Unicode one.
pub open spec fn char_upper(c: char) -> Seq<char> {
    if is_ascii_char(c) {
        seq![ascii_upper(c)]
    } else {
        unicode_upper(c)
    }
}

/// `split_on` always yields at least one piece.
pub proof fn lemma_split_on_nonempty(s: Seq<char>, sep: char)
    ensures
        split_on(s, sep).len() >= 1,
    decreases s.len(),
{
    if s.len() > 0 {
        lemma_split_on_nonempty(s.drop_last(), sep);
    }
}

/// No piece of `split_on` holds the separator.
pub proof fn lemma_split_on_pieces(s: Seq<char>, sep: char)
    ensures
        forall|i: int, j: int|
            0 <= i < split_on(s, sep).len() && 0 <= j < split_on(s, sep)[i].len()
                ==> split_on(s, sep)[i][j] != sep,
    decreases s.len(),
{
    if s.len() > 0 {
        lemma_split_on_pieces(s.drop_last(), sep);
        lemma_split_on_nonempty(s.drop_last(), sep);
        let init = split_on(s.drop_last(), sep);
        if s.last() != sep {
            let parts = split_on(s, sep);
            assert forall|i: int, j: int|
                0 <= i < parts.len() && 0 <= j < parts[i].len() implies parts[i][j] != sep by {
                if i == init.len() - 1 {
                    if j < init.last().len() {
                        assert(parts[i][j] == init[i][j]);
                    }
                } else {
                    assert(parts[i] == init[i]);
                }
            }
        }
    }
}

/// Every character of `s` is ASCII and differs from `c`.
pub open spec fn ascii_without(s: Seq<char>, c: char) -> bool {
    forall|i: int| 0 <= i < s.len() ==> is_ascii_char(#[trigger] s[i]) && s[i] != c
}

/// Splitting a text without the separator gives the text itself.
pub proof fn lemma_split_without_separator(s: Seq<char>, sep: char)
    requires
        forall|i: int| 0 <= i < s.len() ==> s[i] != sep,
    ensures
        split_on(s, sep) == seq![s],
    decreases s.len(),
{
    if s.len() > 0 {
        lemma_split_without_separator(s.drop_last(), sep);
        assert(s[s.len() - 1] != sep);
        assert(s.drop_last().push(s.last()) =~= s);
        let init = split_on(s.drop_last(), sep);
        assert(init == seq![s.drop_last()]);
        assert(split_on(s, sep) =~= seq![s]);
    } else {
        assert(s =~= Seq::<char>::empty());
        assert(split_on(s, sep) =~= seq![s]);
    }
}

/// Splitting `x`, the separator and a separator-free `b` gives the pieces of
/// `x` followed by `b`.
pub proof fn lemma_split_after_separator(x: Seq<char>, sep: char, b: Seq<char>)
    requires
        forall|i: int| 0 <= i < b.len() ==> b[i] != sep,
    ensures
        split_on(x + seq![sep] + b, sep) == split_on(x, sep).push(b),
    decreases b.len(),
{
    let s = x + seq![sep] + b;
    if b.len() == 0 {
        assert(s.drop_last() =~= x);
        assert(s.last() == sep);
        assert(b =~= Seq::<char>::empty());
    } else {
        lemma_split_after_separator(x, sep, b.drop_last());
        assert(s.drop_last() =~= x + seq![sep] + b.drop_last());
        assert(s.last() == b.last());
        assert(b[b.len() - 1] != sep);
        assert(b.drop_last().push(b.last()) =~= b);
        assert(split_on(s, sep) =~= split_on(x, sep).push(b));
    }
}

/// Splitting pieces joined with a separator that none of them holds gives
/// the pieces back.
pub proof fn lemma_split_join(parts: Seq<Seq<char>>, sep: char)
    requires
        parts.len() >= 1,
        forall|i: int, j: int| 0 <= i < parts.len() && 0 <= j < parts[i].len() ==> parts[i][j] != sep,
    ensures
        split_on(join_with(parts, sep), sep) == parts,
    decreases parts.len(),
{
    if parts.len() == 1 {
        assert(forall|j: int| 0 <= j < parts[0].len() ==> parts[0][j] != sep);
        lemma_split_without_separator(parts[0], sep);
        assert(seq![parts[0]] =~= parts);
    } else {
        lemma_split_join(parts.drop_last(), sep);
        let last = parts.last();
        assert(forall|j: int| 0 <= j < last.len() ==> last[j] != sep);
        lemma_split_after_separator(join_with(parts.drop_last(), sep), sep, last);
        assert(parts.drop_last().push(last) =~= parts);
    }
}

/// Joining pieces that are ASCII without `c` with an ASCII separator other
/// than `c` gives ASCII without `c`.
pub proof fn lemma_join_ascii_without(parts: Seq<Seq<char>>, sep: char, c: char)
    requires
        is_ascii_char(sep),
        sep != c,
        forall|i: int| 0 <= i < parts.len() ==> ascii_without(#[trigger] parts[i], c),
    ensures
        ascii_without(join_with(parts, sep), c),
    decreases parts.len(),
{
    if parts.len() > 1 {
        lemma_join_ascii_without(parts.drop_last(), sep, c);
        let j = join_with(parts.drop_last(), sep) + seq![sep] + parts.last();
        assert(ascii_without(parts.last(), c));
        assert forall|i: int| 0 <= i < j.len() implies is_ascii_char(#[trigger] j[i]) && j[i]
            != c by {
            let n = join_with(parts.drop_last(), sep).len();
            if i < n {
            } else if i == n {
            } else {
                assert(j[i] == parts.last()[i - n - 1]);
            }
        }
    } else if parts.len() == 1 {
        assert(ascii_without(parts[0], c));
    }
}

/// The pieces of a text that is ASCII without `c` are too.
pub proof fn lemma_split_ascii_without(s: Seq<char>, sep: char, c: char)
    requires
        ascii_without(s, c),
    ensures
        forall|i: int| 0 <= i < split_on(s, sep).len() ==> ascii_without(#[trigger] split_on(s, sep)[i], c),
    decreases s.len(),
{
    if s.len() > 0 {
        assert(ascii_without(s.drop_last(), c));
        lemma_split_ascii_without(s.drop_last(), sep, c);
        lemma_split_on_nonempty(s.drop_last(), sep);
        let init = split_on(s.drop_last(), sep);
        let parts = split_on(s, sep);
        assert(is_ascii_char(s[s.len() - 1]) && s[s.len() - 1] != c);
        assert forall|i: int| 0 <= i < parts.len() implies ascii_without(#[trigger] parts[i], c) by {
            if s.last() != sep && i == init.len() - 1 {
                assert(ascii_without(init[i], c));
                assert forall|j: int| 0 <= j < parts[i].len() implies is_ascii_char(#[trigger] parts[i][j]) && parts[i][j] != c by {
                    if j < init[i].len() {
                        assert(parts[i][j] == init[i][j]);
                    }
                }
            } else if i < init.len() {
                assert(parts[i] == init[i]);
            }
        }
    }
}

/// A text without `from` is left as it is by `replace_char`.
pub proof fn lemma_replace_char_absent(s: Seq<char>, from: char, to: char)
    requires
        forall|i: int| 0 <= i < s.len() ==> s[i] != from,
    ensures
        replace_char(s, from, to) == s,
{
    assert(replace_char(s, from, to) =~= s);
}

/// An ASCII text takes one byte per character.
pub proof fn lemma_ascii_byte_len(s: Seq<char>)
    requires
        forall|i: int| 0 <= i < s.len() ==> is_ascii_char(#[trigger] s[i]),
    ensures
        byte_len(s) == s.len(),
    decreases s.len(),
{
    if s.len() > 0 {
        assert(is_ascii_char(s[s.len() - 1]));
        lemma_ascii_byte_len(s.drop_last());
    }
}

/// The ASCII case mappings keep a character ASCII and keep `_` and `-` out,
/// and mapping twice is mapping once.
pub proof fn lemma_ascii_case(c: char)
    requires
        is_ascii_char(c),
    ensures
        is_ascii_char(ascii_lower(c)),
        is_ascii_char(ascii_upper(c)),
        (ascii_lower(c) == '_') == (c == '_'),
        (ascii_upper(c) == '_') == (c == '_'),
        (ascii_lower(c) == '-') == (c == '-'),
        (ascii_upper(c) == '-') == (c == '-'),
        ascii_lower(ascii_lower(c)) == ascii_lower(c),
        ascii_upper(ascii_upper(c)) == ascii_upper(c),
        ascii_lower(ascii_upper(c)) == ascii_lower(c),
{
}

/// Joining the pieces of a split gives the text back.
pub proof fn lemma_join_split(s: Seq<char>, sep: char)
    ensures
        join_with(split_on(s, sep), sep) == s,
    decreases s.len(),
{
    if s.len() == 0 {
        assert(join_with(split_on(s, sep), sep) =~= s);
    } else {
        lemma_join_split(s.drop_last(), sep);
        lemma_split_on_nonempty(s.drop_last(), sep);
        let init = split_on(s.drop_last(), sep);
        if s.last() == sep {
            let parts = init.push(Seq::<char>::empty());
            assert(parts.drop_last() =~= init);
            assert(join_with(parts, sep) =~= s);
        } else {
            let parts = init.update(init.len() - 1, init.last().push(s.last()));
            if init.len() == 1 {
                assert(join_with(init, sep) == init[0]);
                assert(parts.len() == 1);
                assert(join_with(parts, sep) == parts[0]);
                assert(parts[0] =~= s);
            } else {
                assert(parts.drop_last() =~= init.drop_last());
                assert(join_with(init, sep) == join_with(init.drop_last(), sep) + seq![sep]
                    + init.last());
                assert(parts.last() == init.last().push(s.last()));
                assert(join_with(parts, sep) == join_with(init.drop_last(), sep) + seq![sep]
                    + init.last().push(s.last()));
                assert(s =~= s.drop_last().push(s.last()));
                assert(join_with(parts, sep) =~= join_with(init, sep).push(s.last()));
            }
        }
    }
}

/// The join of two or more pieces is the first piece, the separator, and
/// the join of the rest.
pub proof fn lemma_join_head(parts: Seq<Seq<char>>, sep: char)
    requires
        parts.len() >= 2,
    ensures
        join_with(parts, sep) == parts[0] + seq![sep] + join_with(parts.drop_first(), sep),
    decreases parts.len(),
{
    if parts.len() == 2 {
        assert(parts.drop_last() =~= seq![parts[0]]);
        assert(parts.drop_first() =~= seq![parts[1]]);
        assert(join_with(parts.drop_last(), sep) == parts[0]);
        assert(join_with(parts.drop_first(), sep) == parts[1]);
        assert(parts.last() == parts[1]);
    } else {
        lemma_join_head(parts.drop_last(), sep);
        assert(parts.drop_last().drop_first() =~= parts.drop_first().drop_last());
        assert(parts.drop_first().last() == parts.last());
        assert(parts.drop_last()[0] == parts[0]);
        assert(join_with(parts, sep) =~= parts[0] + seq![sep] + join_with(parts.drop_first(), sep));
    }
}

/// Lower-casing a join lower-cases each piece, where the separator is not a
/// letter.
pub proof fn lemma_lower_join(parts: Seq<Seq<char>>, sep: char)
    requires
        ascii_lower(sep) == sep,
    ensures
        ascii_lower_str(join_with(parts, sep)) == join_with(
            parts.map_values(|p: Seq<char>| ascii_lower_str(p)),
            sep,
        ),
    decreases parts.len(),
{
    let lowered = parts.map_values(|p: Seq<char>| ascii_lower_str(p));
    if parts.len() == 0 {
        assert(ascii_lower_str(join_with(parts, sep)) =~= join_with(lowered, sep));
    } else if parts.len() == 1 {
        assert(ascii_lower_str(join_with(parts, sep)) =~= join_with(lowered, sep));
    } else {
        lemma_lower_join(parts.drop_last(), sep);
        assert(lowered.drop_last() =~= parts.drop_last().map_values(
            |p: Seq<char>| ascii_lower_str(p),
        ));
        assert(ascii_lower_str(join_with(parts, sep)) =~= join_with(lowered, sep));
    }
}

/// No ASCII upper-case letter comes before the first `-`.
pub open spec fn lower_case_language(s: Seq<char>) -> bool {
    forall|i: int|
        0 <= i < s.len() && (forall|j: int| 0 <= j < i ==> s[j] != '-') ==> !('A' <= #[trigger] s[i]
            <= 'Z')
}

/// The characters of `s`, in order.
pub fn chars_of(s: &str) -> (res: Vec<char>)
    ensures
        res@ == s@,
{
    let mut res: Vec<char> = Vec::new();
    for c in it: s.chars()
        invariant
            res@ == it.seq().take(it.index() as int),
    {
        res.push(c);
    }
    res
}

/// Builds a `String` from its characters, through std's
/// `FromIterator<char> for String`, which appends each character in order.
#[verifier::external_body]
pub fn string_from_chars(chars: &Vec<char>) -> (res: String)
    ensures
        res@ == chars@,
{
    chars.iter().collect()
}

/// `char::to_uppercase`, collected into a `String`. The Unicode case tables
/// are not restated here: the result is named `unicode_upper(c)`; what this
/// contract adds is that an ASCII character maps as `ascii_upper` does, as the
/// documentation of `to_uppercase` and of `to_ascii_uppercase` both show.
#[verifier::external_body]
pub fn char_to_uppercase(c: char) -> (res: String)
    ensures
        res@ == unicode_upper(c),
        is_ascii_char(c) ==> res@ == seq![ascii_upper(c)],
{
    c.to_uppercase().collect()
}

/// `char::to_ascii_lowercase`.
pub fn char_ascii_lower(c: char) -> (res: char)
    ensures
        res == ascii_lower(c),
{
    if 'A' <= c && c <= 'Z' {
        (((c as u32) + 32) as u8) as char
    } else {
        c
    }
}

/// `char::to_ascii_uppercase`.
pub fn char_ascii_upper(c: char) -> (res: char)
    ensures
        res == ascii_upper(c),
{
    if 'a' <= c && c <= 'z' {
        (((c as u32) - 32) as u8) as char
    } else {
        c
    }
}

/// `str::to_ascii_lowercase` on a character sequence.
pub fn ascii_lower_chars(s: &Vec<char>) -> (res: Vec<char>)
    ensures
        res@ == ascii_lower_str(s@),
{
    let mut res: Vec<char> = Vec::new();
    for i in 0..s.len()
        invariant
            res@ == ascii_lower_str(s@.take(i as int)),
    {
        res.push(char_ascii_lower(s[i]));
        assert(s@.take(i + 1) == s@.take(i as int).push(s@[i as int]));
    }
    assert(s@.take(s.len() as int) == s@);
    res
}

/// `str::to_ascii_uppercase` on a character sequence.
pub fn ascii_upper_chars(s: &Vec<char>) -> (res: Vec<char>)
    ensures
        res@ == ascii_upper_str(s@),
{
    let mut res: Vec<char> = Vec::new();
    for i in 0..s.len()
        invariant
            res@ == ascii_upper_str(s@.take(i as int)),
    {
        res.push(char_ascii_upper(s[i]));
        assert(s@.take(i + 1) == s@.take(i as int).push(s@[i as int]));
    }
    assert(s@.take(s.len() as int) == s@);
    res
}

/// Whether `s` takes exactly four bytes in UTF-8.
pub fn has_four_bytes(s: &Vec<char>) -> (res: bool)
    ensures
        res == (byte_len(s@) == 4),
{
    let mut total: usize = 0;
    let mut i: usize = 0;
    while i < s.len()
        invariant
            i <= s.len(),
            total == byte_len(s@.take(i as int)),
            total <= 4 * i,
            total >= i,
        decreases s.len() - i,
    {
        if total > 4 {
            proof {
                lemma_byte_len_grows(s@, i as int);
            }
            return false;
        }
        let c = s[i];
        let w: usize = if (c as u32) < 0x80 {
            1
        } else if (c as u32) < 0x800 {
            2
        } else if (c as u32) < 0x10000 {
            3
        } else {
            4
        };
        assert(s@.take(i + 1).drop_last() == s@.take(i as int));
        total = total + w;
        i = i + 1;
    }
    assert(s@.take(s.len() as int) == s@);
    total == 4
}

/// The byte length of a prefix never exceeds that of the whole.
pub proof fn lemma_byte_len_grows(s: Seq<char>, i: int)
    requires
        0 <= i <= s.len(),
    ensures
        byte_len(s.take(i)) <= byte_len(s),
    decreases s.len() - i,
{
    if i < s.len() {
        lemma_byte_len_grows(s, i + 1);
        assert(s.take(i + 1).drop_last() == s.take(i));
    } else {
        assert(s.take(i) == s);
    }
}

/// Every character replaced by `to` where it equals `from`.
pub fn replace_char_in(s: &Vec<char>, from: char, to: char) -> (res: Vec<char>)
    ensures
        res@ == replace_char(s@, from, to),
{
    let mut res: Vec<char> = Vec::new();
    for i in 0..s.len()
        invariant
            res@ == replace_char(s@.take(i as int), from, to),
    {
        let c = s[i];
        res.push(if c == from { to } else { c });
        assert(s@.take(i + 1) == s@.take(i as int).push(s@[i as int]));
    }
    assert(s@.take(s.len() as int) == s@);
    res
}

/// `str::split` with a character separator, collected.
pub fn split_chars(s: &Vec<char>, sep: char) -> (res: Vec<Vec<char>>)
    ensures
        res@.map_values(|p: Vec<char>| p@) == split_on(s@, sep),
        res@.len() >= 1,
{
    let mut done: Vec<Vec<char>> = Vec::new();
    let mut cur: Vec<char> = Vec::new();
    for i in 0..s.len()
        invariant
            done@.map_values(|p: Vec<char>| p@).push(cur@) == split_on(s@.take(i as int), sep),
    {
        let c = s[i];
        let ghost before = split_on(s@.take(i as int), sep);
        assert(s@.take(i + 1).drop_last() == s@.take(i as int));
        if c == sep {
            let finished = cur;
            done.push(finished);
            cur = Vec::new();
            assert(done@.map_values(|p: Vec<char>| p@) == before);
        } else {
            cur.push(c);
            assert(done@.map_values(|p: Vec<char>| p@).push(cur@) =~= before.update(
                before.len() - 1,
                before.last().push(c),
            ));
        }
    }
    assert(s@.take(s.len() as int) == s@);
    done.push(cur);
    proof {
        lemma_split_on_nonempty(s@, sep);
    }
    done
}

/// `[T]::join` with a one-character separator.
pub fn join_chars(parts: &Vec<Vec<char>>, sep: char) -> (res: Vec<char>)
    ensures
        res@ == join_with(parts@.map_values(|p: Vec<char>| p@), sep),
{
    let ghost views = parts@.map_values(|p: Vec<char>| p@);
    let mut res: Vec<char> = Vec::new();
    for i in 0..parts.len()
        invariant
            views == parts@.map_values(|p: Vec<char>| p@),
            res@ == join_with(views.take(i as int), sep),
    {
        assert(views.take(i + 1).drop_last() == views.take(i as int));
        if i > 0 {
            res.push(sep);
        }
        let ghost before = res@;
        let part = &parts[i];
        for j in 0..part.len()
            invariant
                res@ == before + part@.take(j as int),
        {
            res.push(part[j]);
            assert(part@.take(j + 1) == part@.take(j as int).push(part@[j as int]));
        }
        assert(part@.take(part.len() as int) == part@);
        assert(views.take(i + 1).last() == part@);
        if i == 0 {
            assert(res@ == join_with(views.take(1), sep));
        }
    }
    assert(views.take(parts.len() as int) == views);
    res
}

/// Whether two character sequences are equal.
pub fn chars_equal(a: &Vec<char>, b: &Vec<char>) -> (res: bool)
    ensures
        res == (a@ == b@),
{
    if a.len() != b.len() {
        return false;
    }
    for i in 0..a.len()
        invariant
            a.len() == b.len(),
            forall|j: int| 0 <= j < i ==> a@[j] == b@[j],
    {
        if a[i] != b[i] {
            return false;
        }
    }
    assert(a@ =~= b@);
    true
}

} // verus!
