//! Locale selection, message lookup with fallback, and placeholder
//! interpolation.
use vstd::prelude::*;

use crate::catalog::{catalog_lookup, opt_view, Catalogs};
use crate::chars::{
    lower_case_language,
    byte_len, chars_equal, chars_of, has_four_bytes, split_chars, split_on, string_from_chars,
};
use crate::locale_tag::{
    lemma_canonical_locale_shape,
    canonical_locale, canonical_locale_chars, default_locale, default_locale_chars,
    spec_canonical_locale,
};

verus! {

/// The tags of the locales that have message resources, in order.
pub open spec fn spec_available_locales() -> Seq<Seq<char>> {
    seq![
        seq!['e', 'n', '-', 'U', 'S'],
        seq!['z', 'h', '-', 'H', 'a', 'n', 's'],
        seq!['z', 'h', '-', 'H', 'a', 'n', 't', '-', 'H', 'K'],
        seq!['z', 'h', '-', 'H', 'a', 'n', 't', '-', 'T', 'W'],
        seq!['j', 'a', '-', 'J', 'P'],
    ]
}

/// The tags of the available locales, as a set.
pub open spec fn available_locale_set() -> Set<Seq<char>> {
    spec_available_locales().to_set()
}

/// The tags of the locales that have message resources.
pub fn available_locales() -> (res: &'static [&'static str])
    ensures
        res@.map_values(|t: &str| t@) == spec_available_locales(),
{
    let res: &'static [&'static str] = &["en-US", "zh-Hans", "zh-Hant-HK", "zh-Hant-TW", "ja-JP"];
    proof {
        reveal_strlit("en-US");
        reveal_strlit("zh-Hans");
        reveal_strlit("zh-Hant-HK");
        reveal_strlit("zh-Hant-TW");
        reveal_strlit("ja-JP");
        assert(res@.len() == 5);
        assert(res@[0]@ == spec_available_locales()[0]);
        assert(res@[1]@ == spec_available_locales()[1]);
        assert(res@[2]@ == spec_available_locales()[2]);
        assert(res@[3]@ == spec_available_locales()[3]);
        assert(res@[4]@ == spec_available_locales()[4]);
        assert(res@.map_values(|t: &str| t@) =~= spec_available_locales());
    }
    res
}

/// The first tag whose language subtag (the piece before the first `-`) is
/// `language`.
pub open spec fn first_with_language(tags: Seq<Seq<char>>, language: Seq<char>) -> Option<
    Seq<char>,
>
    decreases tags.len(),
{
    if tags.len() == 0 {
        None
    } else if split_on(tags[0], '-')[0] == language {
        Some(tags[0])
    } else {
        first_with_language(tags.drop_first(), language)
    }
}

/// The first available locale whose language subtag is `language`.
pub open spec fn spec_first_locale_for_language(language: Seq<char>) -> Option<Seq<char>> {
    first_with_language(spec_available_locales(), language)
}

/// The view of an optional tag.
pub open spec fn opt_str_view(o: Option<&str>) -> Option<Seq<char>> {
    match o {
        Some(t) => Some(t@),
        None => None,
    }
}

/// The first available locale whose language subtag is `language`: `zh`
/// gives `zh-Hans`.
pub fn first_locale_for_language(language: &str) -> (res: Option<&'static str>)
    ensures
        opt_str_view(res) == spec_first_locale_for_language(language@),
{
    let tags = available_locales();
    let ghost views = tags@.map_values(|t: &str| t@);
    let wanted = chars_of(language);
    assert(views.skip(0) == views);
    for i in 0..tags.len()
        invariant
            views == tags@.map_values(|t: &str| t@),
            views == spec_available_locales(),
            wanted@ == language@,
            first_with_language(views.skip(i as int), language@) == first_with_language(
                views,
                language@,
            ),
    {
        assert(views.skip(i as int).drop_first() == views.skip(i + 1));
        assert(views.skip(i as int)[0] == views[i as int]);
        let tag = chars_of(tags[i]);
        let pieces = split_chars(&tag, '-');
        assert(pieces@[0]@ == split_on(views[i as int], '-')[0]);
        if chars_equal(&pieces[0], &wanted) {
            return Some(tags[i]);
        }
    }
    None
}

/// The list with each run of equal consecutive elements kept once
/// (`Vec::dedup`).
pub open spec fn dedup(s: Seq<Seq<char>>) -> Seq<Seq<char>>
    decreases s.len(),
{
    if s.len() <= 1 {
        s
    } else if s.last() == s[s.len() - 2] {
        dedup(s.drop_last())
    } else {
        dedup(s.drop_last()).push(s.last())
    }
}

/// `language-Script` from the first two subtags.
pub open spec fn language_and_script(parts: Seq<Seq<char>>) -> Seq<char> {
    parts[0] + seq!['-'] + parts[1]
}

/// The candidates before duplicates are removed: the canonical tag; its
/// language and script, where the second subtag is a four-byte script; the
/// first available locale of the same language; and `en-US`.
pub open spec fn raw_candidates(locale: Seq<char>) -> Seq<Seq<char>> {
    let canonical = spec_canonical_locale(locale);
    let parts = split_on(canonical, '-');
    let with_script = if parts.len() >= 2 && byte_len(parts[1]) == 4 {
        seq![canonical, language_and_script(parts)]
    } else {
        seq![canonical]
    };
    let with_language = match spec_first_locale_for_language(parts[0]) {
        Some(tag) => with_script.push(tag),
        None => with_script,
    };
    with_language.push(default_locale())
}

/// The locales that a lookup tries, in order.
pub open spec fn spec_locale_candidates(locale: Seq<char>) -> Seq<Seq<char>> {
    dedup(raw_candidates(locale))
}

/// The view of a list of strings.
pub open spec fn strings_view(v: Seq<String>) -> Seq<Seq<char>> {
    v.map_values(|s: String| s@)
}

/// The locales that a lookup of `locale` tries, in order: `zh-Hans-CN`
/// gives `zh-Hans-CN`, `zh-Hans`, `en-US`.
pub fn locale_candidates(locale: &str) -> (res: Vec<String>)
    ensures
        strings_view(res@) == spec_locale_candidates(locale@),
{
    let locale_chars = chars_of(locale);
    let canonical = canonical_locale_chars(&locale_chars);
    let parts = split_chars(&canonical, '-');
    let ghost pv = parts@.map_values(|p: Vec<char>| p@);
    assert(pv == split_on(spec_canonical_locale(locale@), '-'));
    let mut raw: Vec<String> = Vec::new();
    raw.push(string_from_chars(&canonical));
    if parts.len() >= 2 && has_four_bytes(&parts[1]) {
        let mut language_script: Vec<char> = Vec::new();
        let first = &parts[0];
        let second = &parts[1];
        for i in 0..first.len()
            invariant
                language_script@ == first@.take(i as int),
        {
            language_script.push(first[i]);
            assert(first@.take(i + 1) == first@.take(i as int).push(first@[i as int]));
        }
        language_script.push('-');
        for i in 0..second.len()
            invariant
                language_script@ == first@ + seq!['-'] + second@.take(i as int),
        {
            language_script.push(second[i]);
            assert(second@.take(i + 1) == second@.take(i as int).push(second@[i as int]));
        }
        assert(first@.take(first@.len() as int) == first@);
        assert(second@.take(second@.len() as int) == second@);
        raw.push(string_from_chars(&language_script));
    }
    let language = string_from_chars(&parts[0]);
    match first_locale_for_language(language.as_str()) {
        Some(tag) => raw.push(string_from_chars(&chars_of(tag))),
        None => {},
    }
    raw.push(string_from_chars(&default_locale_chars()));
    assert(strings_view(raw@) =~= raw_candidates(locale@));
    dedup_strings(&raw)
}

/// `Vec::dedup` on a list of strings.
fn dedup_strings(v: &Vec<String>) -> (res: Vec<String>)
    ensures
        strings_view(res@) == dedup(strings_view(v@)),
{
    let ghost sv = strings_view(v@);
    let mut res: Vec<String> = Vec::new();
    if v.len() == 0 {
        assert(strings_view(res@) =~= dedup(sv));
        return res;
    }
    res.push(v[0].clone());
    assert(sv.take(1) =~= seq![sv[0]]);
    for i in 1..v.len()
        invariant
            sv == strings_view(v@),
            1 <= v@.len(),
            strings_view(res@) == dedup(sv.take(i as int)),
    {
        assert(sv.take(i + 1).drop_last() == sv.take(i as int));
        assert(sv.take(i + 1).last() == sv[i as int]);
        assert(sv.take(i + 1)[i - 1] == sv[i - 1]);
        if v[i] != v[i - 1] {
            let next = v[i].clone();
            res.push(next);
            assert(strings_view(res@) =~= dedup(sv.take(i as int)).push(sv[i as int]));
        }
    }
    assert(sv.take(v.len() as int) == sv);
    res
}

/// Every non-overlapping occurrence of the non-empty `pattern` in `s`,
/// taken from left to right, replaced by `with` (`str::replace`).
pub open spec fn replace_all(s: Seq<char>, pattern: Seq<char>, with: Seq<char>) -> Seq<char>
    decreases s.len(),
{
    if s.len() == 0 {
        s
    } else if 0 < pattern.len() <= s.len() && s.take(pattern.len() as int) == pattern {
        with + replace_all(s.skip(pattern.len() as int), pattern, with)
    } else {
        seq![s[0]] + replace_all(s.skip(1), pattern, with)
    }
}

/// Whether `pattern` occurs in `s` at position `at`.
fn occurs_at(s: &Vec<char>, pattern: &Vec<char>, at: usize) -> (res: bool)
    requires
        at <= s.len(),
    ensures
        res == (pattern.len() <= s.len() - at && s@.skip(at as int).take(pattern.len() as int)
            == pattern@),
{
    if pattern.len() > s.len() - at {
        return false;
    }
    for j in 0..pattern.len()
        invariant
            at <= s.len(),
            pattern.len() <= s.len() - at,
            forall|k: int| 0 <= k < j ==> s@[at + k] == pattern@[k],
    {
        if s[at + j] != pattern[j] {
            assert(s@.skip(at as int).take(pattern.len() as int)[j as int] != pattern@[j as int]);
            return false;
        }
    }
    assert(s@.skip(at as int).take(pattern.len() as int) =~= pattern@);
    true
}

/// `str::replace` with a non-empty pattern, on characters.
pub fn replace_all_chars(s: &Vec<char>, pattern: &Vec<char>, with: &Vec<char>) -> (res: Vec<char>)
    requires
        pattern.len() > 0,
    ensures
        res@ == replace_all(s@, pattern@, with@),
{
    let mut out: Vec<char> = Vec::new();
    let mut i: usize = 0;
    assert(s@.skip(0) == s@);
    while i < s.len()
        invariant
            i <= s.len(),
            pattern.len() > 0,
            out@ + replace_all(s@.skip(i as int), pattern@, with@) == replace_all(
                s@,
                pattern@,
                with@,
            ),
        decreases s.len() - i,
    {
        let ghost rest = s@.skip(i as int);
        if occurs_at(s, pattern, i) {
            let ghost before = out@;
            for j in 0..with.len()
                invariant
                    out@ == before + with@.take(j as int),
            {
                out.push(with[j]);
                assert(with@.take(j + 1) == with@.take(j as int).push(with@[j as int]));
            }
            assert(with@.take(with@.len() as int) == with@);
            assert(rest.skip(pattern@.len() as int) == s@.skip(i + pattern.len()));
            assert(out@ + replace_all(s@.skip(i + pattern.len()), pattern@, with@) =~= before
                + replace_all(rest, pattern@, with@));
            i = i + pattern.len();
        } else {
            let ghost before = out@;
            out.push(s[i]);
            assert(rest.skip(1) == s@.skip(i + 1));
            assert(rest[0] == s@[i as int]);
            assert(out@ + replace_all(s@.skip(i + 1), pattern@, with@) =~= before + replace_all(
                rest,
                pattern@,
                with@,
            ));
            i = i + 1;
        }
    }
    assert(s@.skip(i as int).len() == 0);
    assert(out@ + replace_all(s@.skip(i as int), pattern@, with@) == out@);
    out
}

/// The placeholder `{name}`.
pub open spec fn placeholder(name: Seq<char>) -> Seq<char> {
    seq!['{'] + name + seq!['}']
}

/// Each `{name}` of the arguments, in order, replaced by its replacement.
pub open spec fn interpolate(value: Seq<char>, args: Seq<(Seq<char>, Seq<char>)>) -> Seq<char>
    decreases args.len(),
{
    if args.len() == 0 {
        value
    } else {
        interpolate(replace_all(value, placeholder(args[0].0), args[0].1), args.drop_first())
    }
}

/// The view of the interpolation arguments.
pub open spec fn args_view(args: Seq<(&str, &str)>) -> Seq<(Seq<char>, Seq<char>)> {
    args.map_values(|a: (&str, &str)| (a.0@, a.1@))
}

/// The value with the placeholders of `args` filled in, one argument after
/// the other.
pub fn interpolate_args(value: String, args: &[(&str, &str)]) -> (res: String)
    ensures
        res@ == interpolate(value@, args_view(args@)),
{
    let ghost av = args_view(args@);
    let mut current = chars_of(value.as_str());
    assert(av.skip(0) == av);
    for i in 0..args.len()
        invariant
            av == args_view(args@),
            interpolate(current@, av.skip(i as int)) == interpolate(value@, av),
    {
        let (name, replacement) = args[i];
        let mut pattern: Vec<char> = Vec::new();
        pattern.push('{');
        let mut name_chars = chars_of(name);
        pattern.append(&mut name_chars);
        pattern.push('}');
        assert(pattern@ == placeholder(av[i as int].0));
        let with = chars_of(replacement);
        current = replace_all_chars(&current, &pattern, &with);
        assert(av.skip(i as int).drop_first() == av.skip(i + 1));
        assert(av.skip(i as int)[0] == av[i as int]);
    }
    assert(av.skip(args.len() as int).len() == 0);
    string_from_chars(&current)
}

/// The text of `key` in the first candidate catalog that has it.
pub open spec fn first_found(
    cats: Map<Seq<char>, Map<Seq<char>, Seq<char>>>,
    candidates: Seq<Seq<char>>,
    key: Seq<char>,
) -> Option<Seq<char>>
    decreases candidates.len(),
{
    if candidates.len() == 0 {
        None
    } else {
        match catalog_lookup(cats, candidates[0], key) {
            Some(text) => Some(text),
            None => first_found(cats, candidates.drop_first(), key),
        }
    }
}

/// The text of `key` for `locale`: from the first of its candidate locales
/// whose catalog has the key.
pub open spec fn spec_text_for_locale(
    cats: Map<Seq<char>, Map<Seq<char>, Seq<char>>>,
    locale: Seq<char>,
    key: Seq<char>,
) -> Option<Seq<char>> {
    first_found(cats, spec_locale_candidates(locale), key)
}

/// The text of `key` for `locale`, or `None` where no candidate catalog has
/// the key.
pub fn lookup_text(catalogs: &Catalogs, locale: &str, key: &str) -> (res: Option<String>)
    ensures
        opt_view(res) == spec_text_for_locale(catalogs@, locale@, key@),
{
    let candidates = locale_candidates(locale);
    let ghost cv = strings_view(candidates@);
    let key_chars = chars_of(key);
    assert(cv.skip(0) == cv);
    for i in 0..candidates.len()
        invariant
            cv == strings_view(candidates@),
            cv == spec_locale_candidates(locale@),
            key_chars@ == key@,
            first_found(catalogs@, cv.skip(i as int), key@) == first_found(
                catalogs@,
                cv,
                key@,
            ),
    {
        assert(cv.skip(i as int).drop_first() == cv.skip(i + 1));
        assert(cv.skip(i as int)[0] == cv[i as int]);
        let tag = chars_of(candidates[i].as_str());
        let found = catalogs.lookup(&tag, &key_chars);
        if found.is_some() {
            return found;
        }
    }
    assert(cv.skip(candidates.len() as int).len() == 0);
    None
}

/// The text of `key` for `locale` (`text_for_locale`), from the first
/// candidate locale whose catalog has it; a key that no candidate catalog
/// has is outside what this function is for.
pub fn text_for_locale(catalogs: &Catalogs, locale: &str, key: &str) -> (res: String)
    requires
        spec_text_for_locale(catalogs@, locale@, key@) is Some,
    ensures
        res@ == spec_text_for_locale(catalogs@, locale@, key@).unwrap(),
{
    match lookup_text(catalogs, locale, key) {
        Some(text) => text,
        None => String::new(),
    }
}

/// The text of `key` for `locale` with its placeholders filled in
/// (`text_args_for_locale`).
pub fn text_args_for_locale(
    catalogs: &Catalogs,
    locale: &str,
    key: &str,
    args: &[(&str, &str)],
) -> (res: String)
    requires
        spec_text_for_locale(catalogs@, locale@, key@) is Some,
    ensures
        res@ == interpolate(
            spec_text_for_locale(catalogs@, locale@, key@).unwrap(),
            args_view(args@),
        ),
{
    let value = text_for_locale(catalogs, locale, key);
    interpolate_args(value, args)
}

/// The locale in effect at start: the one that `env_locale` names (the
/// `ZED_LOCALE` variable), else the system's, canonicalized; `en-US` where
/// there is neither.
pub open spec fn spec_initial_locale(
    env_locale: Option<Seq<char>>,
    system_locale: Option<Seq<char>>,
) -> Seq<char> {
    match env_locale {
        Some(l) => spec_canonical_locale(l),
        None => match system_locale {
            Some(l) => spec_canonical_locale(l),
            None => default_locale(),
        },
    }
}

/// The locale in effect at start (`initial_locale`), from the value of the
/// `ZED_LOCALE` variable and the system locale, as read by the caller.
pub fn initial_locale(env_locale: Option<&str>, system_locale: Option<&str>) -> (res: String)
    ensures
        res@ == spec_initial_locale(opt_str_view(env_locale), opt_str_view(system_locale)),
{
    match env_locale {
        Some(locale) => canonical_locale(locale),
        None => match system_locale {
            Some(locale) => canonical_locale(locale),
            None => string_from_chars(&default_locale_chars()),
        },
    }
}

/// The active locale together with the catalogs it reads from.
pub struct Localization {
    active_locale: String,
    catalogs: Catalogs,
}

impl Localization {
    /// The active locale is not empty and has no ASCII upper-case letter
    /// before its first `-`, as every canonical spelling; the catalogs are
    /// exactly those of the available locales.
    #[verifier::type_invariant]
    spec fn inv(self) -> bool {
        &&& self.active_locale@.len() > 0
        &&& lower_case_language(self.active_locale@)
        &&& self.catalogs@.dom() == available_locale_set()
    }

    /// The active locale.
    pub closed spec fn active_locale(&self) -> Seq<char> {
        self.active_locale@
    }

    /// The catalogs, by tag.
    pub closed spec fn catalogs_view(&self) -> Map<Seq<char>, Map<Seq<char>, Seq<char>>> {
        self.catalogs@
    }

    /// The state at start: the given catalogs, which must be exactly those of
    /// the available locales (see `Catalogs::covers_available_locales`), and
    /// the locale that
    /// `initial_locale` picks from the `ZED_LOCALE` variable and the system
    /// locale.
    pub fn new(catalogs: Catalogs, env_locale: Option<&str>, system_locale: Option<&str>) -> (res:
        Localization)
        requires
            catalogs@.dom() == available_locale_set(),
        ensures
            res.active_locale() == spec_initial_locale(
                opt_str_view(env_locale),
                opt_str_view(system_locale),
            ),
            res.catalogs_view() == catalogs@,
            res.catalogs_view().dom() == available_locale_set(),
    {
        let active_locale = initial_locale(env_locale, system_locale);
        proof {
            match opt_str_view(env_locale) {
                Some(l) => lemma_canonical_locale_shape(l),
                None => match opt_str_view(system_locale) {
                    Some(l) => lemma_canonical_locale_shape(l),
                    None => {
                        assert(default_locale()[2] == '-');
                    },
                },
            }
        }
        Localization { active_locale, catalogs }
    }
}

/// Makes the canonical spelling of `locale` the active locale.
pub fn set_locale(state: &mut Localization, locale: &str)
    ensures
        final(state).active_locale() == spec_canonical_locale(locale@),
        final(state).catalogs_view() == old(state).catalogs_view(),
{
    proof {
        use_type_invariant(&*state);
        lemma_canonical_locale_shape(locale@);
    }
    state.active_locale = canonical_locale(locale);
}

/// The active locale.
pub fn locale(state: &Localization) -> (res: String)
    ensures
        res@ == state.active_locale(),
        res@.len() > 0,
        lower_case_language(res@),
{
    proof {
        use_type_invariant(state);
    }
    state.active_locale.clone()
}

/// The text of `key` in the active locale (`text`); a key that no candidate
/// catalog has is outside what this function is for (see `try_text`).
pub fn text(state: &Localization, key: &str) -> (res: String)
    requires
        spec_text_for_locale(state.catalogs_view(), state.active_locale(), key@) is Some,
    ensures
        res@ == spec_text_for_locale(state.catalogs_view(), state.active_locale(), key@).unwrap(),
{
    let active = locale(state);
    text_for_locale(&state.catalogs, active.as_str(), key)
}

/// The text of `key` in the active locale with its placeholders filled in
/// (`text_args`).
pub fn text_args(state: &Localization, key: &str, args: &[(&str, &str)]) -> (res: String)
    requires
        spec_text_for_locale(state.catalogs_view(), state.active_locale(), key@) is Some,
    ensures
        res@ == interpolate(
            spec_text_for_locale(state.catalogs_view(), state.active_locale(), key@).unwrap(),
            args_view(args@),
        ),
{
    let active = locale(state);
    text_args_for_locale(&state.catalogs, active.as_str(), key, args)
}

/// `text`, or `None` where no candidate catalog of the active locale has
/// the key.
pub fn try_text(state: &Localization, key: &str) -> (res: Option<String>)
    ensures
        opt_view(res) == spec_text_for_locale(state.catalogs_view(), state.active_locale(), key@),
{
    let active = locale(state);
    if lookup_text(&state.catalogs, active.as_str(), key).is_some() {
        Some(text(state, key))
    } else {
        None
    }
}

/// `text_args`, or `None` where no candidate catalog of the active locale
/// has the key.
pub fn try_text_args(state: &Localization, key: &str, args: &[(&str, &str)]) -> (res: Option<
    String,
>)
    ensures
        res is Some <==> spec_text_for_locale(
            state.catalogs_view(),
            state.active_locale(),
            key@,
        ) is Some,
        res matches Some(r) ==> r@ == interpolate(
            spec_text_for_locale(state.catalogs_view(), state.active_locale(), key@).unwrap(),
            args_view(args@),
        ),
{
    let active = locale(state);
    if lookup_text(&state.catalogs, active.as_str(), key).is_some() {
        Some(text_args(state, key, args))
    } else {
        None
    }
}

/// `dedup` keeps the first element of a non-empty list.
proof fn lemma_dedup_first(s: Seq<Seq<char>>)
    requires
        s.len() >= 1,
    ensures
        dedup(s).len() >= 1,
        dedup(s)[0] == s[0],
    decreases s.len(),
{
    if s.len() > 1 {
        lemma_dedup_first(s.drop_last());
    }
}

/// `dedup` keeps the last element of a non-empty list.
proof fn lemma_dedup_last(s: Seq<Seq<char>>)
    requires
        s.len() >= 1,
    ensures
        dedup(s).len() >= 1,
        dedup(s).last() == s.last(),
    decreases s.len(),
{
    if s.len() > 1 {
        lemma_dedup_last(s.drop_last());
    }
}

/// `dedup` leaves no two equal neighbours.
proof fn lemma_dedup_no_repeats(s: Seq<Seq<char>>)
    ensures
        forall|i: int| 0 <= i < dedup(s).len() - 1 ==> #[trigger] dedup(s)[i] != dedup(s)[i + 1],
    decreases s.len(),
{
    if s.len() > 1 {
        lemma_dedup_no_repeats(s.drop_last());
        lemma_dedup_last(s.drop_last());
    }
}

/// `first_found` finds a text wherever some candidate's catalog has the key.
proof fn lemma_first_found_some(
    cats: Map<Seq<char>, Map<Seq<char>, Seq<char>>>,
    candidates: Seq<Seq<char>>,
    key: Seq<char>,
    i: int,
)
    requires
        0 <= i < candidates.len(),
        catalog_lookup(cats, candidates[i], key) is Some,
    ensures
        first_found(cats, candidates, key) is Some,
    decreases candidates.len(),
{
    if i > 0 && catalog_lookup(cats, candidates[0], key) is None {
        lemma_first_found_some(cats, candidates.drop_first(), key, i - 1);
    }
}

/// The candidate locales of any tag start with its canonical spelling, end
/// with `en-US`, and hold no locale twice in a row.
pub proof fn lemma_candidates_shape(locale: Seq<char>)
    ensures
        spec_locale_candidates(locale).len() >= 1,
        spec_locale_candidates(locale)[0] == spec_canonical_locale(locale),
        spec_locale_candidates(locale).last() == default_locale(),
        forall|i: int|
            0 <= i < spec_locale_candidates(locale).len() - 1 ==> #[trigger] spec_locale_candidates(
                locale,
            )[i] != spec_locale_candidates(locale)[i + 1],
{
    let raw = raw_candidates(locale);
    lemma_dedup_first(raw);
    lemma_dedup_last(raw);
    lemma_dedup_no_repeats(raw);
}

/// Every lookup falls back to English: a key that the `en-US` catalog has is
/// found for every locale.
pub proof fn lemma_english_fallback(
    cats: Map<Seq<char>, Map<Seq<char>, Seq<char>>>,
    locale: Seq<char>,
    key: Seq<char>,
)
    requires
        catalog_lookup(cats, default_locale(), key) is Some,
    ensures
        spec_text_for_locale(cats, locale, key) is Some,
{
    lemma_candidates_shape(locale);
    let candidates = spec_locale_candidates(locale);
    lemma_first_found_some(cats, candidates, key, candidates.len() - 1);
}

/// The exact locale comes first: where the catalog of the canonical tag has
/// the key, its text is the one given.
pub proof fn lemma_exact_locale_first(
    cats: Map<Seq<char>, Map<Seq<char>, Seq<char>>>,
    locale: Seq<char>,
    key: Seq<char>,
)
    requires
        catalog_lookup(cats, spec_canonical_locale(locale), key) is Some,
    ensures
        spec_text_for_locale(cats, locale, key) == catalog_lookup(
            cats,
            spec_canonical_locale(locale),
            key,
        ),
{
    lemma_candidates_shape(locale);
}

/// A text in which the pattern does not occur is left as it is.
pub proof fn lemma_replace_absent(s: Seq<char>, pattern: Seq<char>, with: Seq<char>)
    requires
        pattern.len() > 0,
        forall|i: int|
            0 <= i <= s.len() - pattern.len() ==> #[trigger] s.subrange(i, i + pattern.len())
                != pattern,
    ensures
        replace_all(s, pattern, with) == s,
    decreases s.len(),
{
    if s.len() > 0 {
        if pattern.len() <= s.len() {
            assert(s.take(pattern.len() as int) == s.subrange(0, pattern.len() as int));
            assert(s.subrange(0, 0 + pattern.len() as int) != pattern);
            assert(s.take(pattern.len() as int) != pattern);
        }
        let rest = s.skip(1);
        assert forall|i: int| 0 <= i <= rest.len() - pattern.len() implies #[trigger] rest.subrange(
            i,
            i + pattern.len(),
        ) != pattern by {
            assert(rest.subrange(i, i + pattern.len()) == s.subrange(i + 1, i + 1 + pattern.len()));
        }
        lemma_replace_absent(rest, pattern, with);
        assert(s == seq![s[0]] + rest);
    }
}

/// Interpolation leaves a text without placeholders as it is: where no
/// argument's `{name}` occurs in the text, the text comes back unchanged.
pub proof fn lemma_interpolate_without_placeholders(
    value: Seq<char>,
    args: Seq<(Seq<char>, Seq<char>)>,
)
    requires
        forall|a: int, i: int|
            0 <= a < args.len() && 0 <= i <= value.len() - placeholder(args[a].0).len()
                ==> #[trigger] value.subrange(i, i + placeholder(args[a].0).len()) != placeholder(
                args[a].0,
            ),
    ensures
        interpolate(value, args) == value,
    decreases args.len(),
{
    if args.len() > 0 {
        let p = placeholder(args[0].0);
        assert forall|i: int| 0 <= i <= value.len() - p.len() implies #[trigger] value.subrange(
            i,
            i + p.len(),
        ) != p by {
            assert(value.subrange(i, i + placeholder(args[0].0).len()) != placeholder(args[0].0));
        }
        lemma_replace_absent(value, p, args[0].1);
        let rest = args.drop_first();
        assert forall|a: int, i: int|
            0 <= a < rest.len() && 0 <= i <= value.len() - placeholder(rest[a].0).len() implies #[trigger] value.subrange(
            i,
            i + placeholder(rest[a].0).len(),
        ) != placeholder(rest[a].0) by {
            assert(rest[a] == args[a + 1]);
        }
        lemma_interpolate_without_placeholders(value, rest);
    }
}

/// `dedup` keeps every element of the list.
proof fn lemma_dedup_keeps(s: Seq<Seq<char>>, x: Seq<char>)
    requires
        s.contains(x),
    ensures
        dedup(s).contains(x),
    decreases s.len(),
{
    if s.len() > 1 {
        let i = choose|i: int| 0 <= i < s.len() && s[i] == x;
        if i < s.len() - 1 {
            assert(s.drop_last()[i] == x);
            lemma_dedup_keeps(s.drop_last(), x);
            let d = dedup(s.drop_last());
            let j = choose|j: int| 0 <= j < d.len() && d[j] == x;
            if s.last() != s[s.len() - 2] {
                assert(d.push(s.last())[j] == x);
            }
        } else if s.last() == s[s.len() - 2] {
            assert(s.drop_last()[s.len() - 2] == x);
            lemma_dedup_keeps(s.drop_last(), x);
        } else {
            assert(dedup(s)[dedup(s).len() - 1] == x);
        }
    } else {
        assert(dedup(s) == s);
    }
}

/// The first tag of the language is what `first_with_language` finds.
proof fn lemma_first_with_language_at(tags: Seq<Seq<char>>, language: Seq<char>, k: int)
    requires
        0 <= k < tags.len(),
        split_on(tags[k], '-')[0] == language,
        forall|j: int| 0 <= j < k ==> split_on(#[trigger] tags[j], '-')[0] != language,
    ensures
        first_with_language(tags, language) == Some(tags[k]),
    decreases k,
{
    if k > 0 {
        assert(split_on(tags[0], '-')[0] != language);
        assert forall|j: int| 0 <= j < k - 1 implies split_on(
            #[trigger] tags.drop_first()[j],
            '-',
        )[0] != language by {
            assert(tags.drop_first()[j] == tags[j + 1]);
        }
        lemma_first_with_language_at(tags.drop_first(), language, k - 1);
    }
}

/// Every lookup tries the first available locale of its language: where an
/// available locale has the language subtag of the canonical tag, the first
/// such locale is one of the candidates (`zh-CN` tries `zh-Hans`).
pub proof fn lemma_candidates_try_language_locale(locale: Seq<char>, k: int)
    requires
        0 <= k < spec_available_locales().len(),
        split_on(spec_available_locales()[k], '-')[0] == split_on(
            spec_canonical_locale(locale),
            '-',
        )[0],
        forall|j: int|
            0 <= j < k ==> split_on(#[trigger] spec_available_locales()[j], '-')[0] != split_on(
                spec_canonical_locale(locale),
                '-',
            )[0],
    ensures
        spec_locale_candidates(locale).contains(spec_available_locales()[k]),
{
    let tags = spec_available_locales();
    let parts = split_on(spec_canonical_locale(locale), '-');
    lemma_first_with_language_at(tags, parts[0], k);
    let raw = raw_candidates(locale);
    assert(raw[raw.len() - 2] == tags[k]);
    lemma_dedup_keeps(raw, tags[k]);
}

/// The text found is that of the first candidate with the key: a candidate
/// whose catalog has the key answers unless an earlier one does.
proof fn lemma_first_found_at_or_before(
    cats: Map<Seq<char>, Map<Seq<char>, Seq<char>>>,
    candidates: Seq<Seq<char>>,
    key: Seq<char>,
    i: int,
)
    requires
        0 <= i < candidates.len(),
        catalog_lookup(cats, candidates[i], key) is Some,
    ensures
        first_found(cats, candidates, key) is Some,
        exists|j: int|
            0 <= j <= i && first_found(cats, candidates, key) == catalog_lookup(
                cats,
                #[trigger] candidates[j],
                key,
            ),
    decreases candidates.len(),
{
    if catalog_lookup(cats, candidates[0], key) is Some {
        assert(first_found(cats, candidates, key) == catalog_lookup(cats, candidates[0], key));
    } else {
        assert(i > 0);
        lemma_first_found_at_or_before(cats, candidates.drop_first(), key, i - 1);
        let j = choose|j: int|
            0 <= j <= i - 1 && first_found(cats, candidates.drop_first(), key) == catalog_lookup(
                cats,
                #[trigger] candidates.drop_first()[j],
                key,
            );
        assert(candidates.drop_first()[j] == candidates[j + 1]);
    }
}

/// A key that the catalog of the first available locale of the tag's
/// language has is answered, and from a candidate tried no later than that
/// locale: a lookup for `zh-CN` of a key in `zh-Hans` is answered before
/// `en-US` is reached.
pub proof fn lemma_language_locale_answers(
    cats: Map<Seq<char>, Map<Seq<char>, Seq<char>>>,
    locale: Seq<char>,
    key: Seq<char>,
    k: int,
)
    requires
        0 <= k < spec_available_locales().len(),
        split_on(spec_available_locales()[k], '-')[0] == split_on(
            spec_canonical_locale(locale),
            '-',
        )[0],
        forall|j: int|
            0 <= j < k ==> split_on(#[trigger] spec_available_locales()[j], '-')[0] != split_on(
                spec_canonical_locale(locale),
                '-',
            )[0],
        catalog_lookup(cats, spec_available_locales()[k], key) is Some,
    ensures
        spec_text_for_locale(cats, locale, key) is Some,
        exists|i: int, j: int|
            #![trigger spec_locale_candidates(locale)[i], spec_locale_candidates(locale)[j]]
            0 <= j <= i < spec_locale_candidates(locale).len() && spec_locale_candidates(locale)[i]
                == spec_available_locales()[k] && spec_text_for_locale(cats, locale, key)
                == catalog_lookup(cats, spec_locale_candidates(locale)[j], key),
{
    lemma_candidates_try_language_locale(locale, k);
    let cands = spec_locale_candidates(locale);
    let i = choose|i: int| 0 <= i < cands.len() && cands[i] == spec_available_locales()[k];
    lemma_first_found_at_or_before(cats, cands, key, i);
    let j = choose|j: int|
        0 <= j <= i && first_found(cats, cands, key) == catalog_lookup(
            cats,
            #[trigger] cands[j],
            key,
        );
    assert(cands[i] == spec_available_locales()[k] && cands[j] == cands[j]);
}

/// `dedup` adds nothing: every element it keeps was in the list.
proof fn lemma_dedup_subset(s: Seq<Seq<char>>, x: Seq<char>)
    requires
        dedup(s).contains(x),
    ensures
        s.contains(x),
    decreases s.len(),
{
    if s.len() > 1 {
        let d = dedup(s.drop_last());
        let i = choose|i: int| 0 <= i < dedup(s).len() && dedup(s)[i] == x;
        if s.last() == s[s.len() - 2] || i < d.len() {
            if s.last() != s[s.len() - 2] {
                assert(d[i] == x);
            }
            lemma_dedup_subset(s.drop_last(), x);
            let j = choose|j: int| 0 <= j < s.drop_last().len() && s.drop_last()[j] == x;
            assert(s[j] == x);
        } else {
            assert(s[s.len() - 1] == x);
        }
    }
}

/// A tag whose second subtag is a four-byte script tries its language and
/// script (`zh-Hant-HK` tries `zh-Hant`).
pub proof fn lemma_candidates_try_script(locale: Seq<char>)
    requires
        split_on(spec_canonical_locale(locale), '-').len() >= 2,
        byte_len(split_on(spec_canonical_locale(locale), '-')[1]) == 4,
    ensures
        spec_locale_candidates(locale).contains(
            split_on(spec_canonical_locale(locale), '-')[0] + seq!['-'] + split_on(
                spec_canonical_locale(locale),
                '-',
            )[1],
        ),
{
    let raw = raw_candidates(locale);
    let parts = split_on(spec_canonical_locale(locale), '-');
    assert(raw[1] == parts[0] + seq!['-'] + parts[1]);
    lemma_dedup_keeps(raw, raw[1]);
}

/// Nothing else is tried: each candidate is the canonical tag, its language
/// and script, the first available locale of its language, or `en-US`.
pub proof fn lemma_candidates_are_fallbacks(locale: Seq<char>, c: Seq<char>)
    requires
        spec_locale_candidates(locale).contains(c),
    ensures
        ({
            let canonical = spec_canonical_locale(locale);
            let parts = split_on(canonical, '-');
            let tags = spec_available_locales();
            ||| c == canonical
            ||| (parts.len() >= 2 && byte_len(parts[1]) == 4 && c == parts[0] + seq!['-']
                + parts[1])
            ||| (exists|k: int|
                0 <= k < tags.len() && tags[k] == c && split_on(c, '-')[0] == parts[0] && forall|
                    j: int,
                | 0 <= j < k ==> split_on(#[trigger] tags[j], '-')[0] != parts[0])
            ||| c == default_locale()
        }),
{
    lemma_dedup_subset(raw_candidates(locale), c);
    let canonical = spec_canonical_locale(locale);
    let parts = split_on(canonical, '-');
    let tags = spec_available_locales();
    let raw = raw_candidates(locale);
    let i = choose|i: int| 0 <= i < raw.len() && raw[i] == c;
    if spec_first_locale_for_language(parts[0]) is Some && i == raw.len() - 2 && !(i == 0) && !(
    i == 1 && parts.len() >= 2 && byte_len(parts[1]) == 4) {
        lemma_first_with_language_found(tags, parts[0]);
    }
}

/// What `first_with_language` finds is the first tag of the language.
proof fn lemma_first_with_language_found(tags: Seq<Seq<char>>, language: Seq<char>)
    requires
        first_with_language(tags, language) is Some,
    ensures
        exists|k: int|
            0 <= k < tags.len() && tags[k] == first_with_language(tags, language).unwrap()
                && split_on(tags[k], '-')[0] == language && forall|j: int|
                0 <= j < k ==> split_on(#[trigger] tags[j], '-')[0] != language,
    decreases tags.len(),
{
    if split_on(tags[0], '-')[0] != language {
        lemma_first_with_language_found(tags.drop_first(), language);
        let k = choose|k: int|
            0 <= k < tags.drop_first().len() && tags.drop_first()[k] == first_with_language(
                tags.drop_first(),
                language,
            ).unwrap() && split_on(tags.drop_first()[k], '-')[0] == language && forall|j: int|
                0 <= j < k ==> split_on(#[trigger] tags.drop_first()[j], '-')[0] != language;
        assert forall|j: int| 0 <= j < k + 1 implies split_on(#[trigger] tags[j], '-')[0]
            != language by {
            if j > 0 {
                assert(tags[j] == tags.drop_first()[j - 1]);
            }
        }
        assert(tags[k + 1] == tags.drop_first()[k]);
    } else {
        assert(tags[0] == first_with_language(tags, language).unwrap());
    }
}

} // verus!
