//! Message catalogs: for each locale tag, a map from message keys to text.
use vstd::prelude::*;

use std::collections::BTreeMap;

use crate::chars::{chars_equal, chars_of};
use crate::localization::{available_locale_set, available_locales, spec_available_locales};

verus! {

/// The map that a list of pairs describes: each key to the value paired with
/// it (the lists used here never pair one key twice).
pub open spec fn pairs_to_map<V>(s: Seq<(Seq<char>, V)>) -> Map<Seq<char>, V> {
    Map::new(
        |k: Seq<char>| exists|i: int| 0 <= i < s.len() && s[i].0 == k,
        |k: Seq<char>| s[choose|i: int| 0 <= i < s.len() && s[i].0 == k].1,
    )
}

/// No key occurs twice in the list.
pub open spec fn distinct_keys<V>(s: Seq<(Seq<char>, V)>) -> bool {
    forall|i: int, j: int| 0 <= i < s.len() && 0 <= j < s.len() && i != j ==> s[i].0 != s[j].0
}

/// With distinct keys, the map sends the key of each pair to its value.
pub proof fn lemma_pairs_to_map_at<V>(s: Seq<(Seq<char>, V)>, i: int)
    requires
        distinct_keys(s),
        0 <= i < s.len(),
    ensures
        pairs_to_map(s).contains_key(s[i].0),
        pairs_to_map(s)[s[i].0] == s[i].1,
{
    let k = s[i].0;
    assert(exists|j: int| 0 <= j < s.len() && s[j].0 == k);
    let j = choose|j: int| 0 <= j < s.len() && s[j].0 == k;
    assert(j == i);
}

/// A key paired with nothing is not in the map.
pub proof fn lemma_pairs_to_map_absent<V>(s: Seq<(Seq<char>, V)>, k: Seq<char>)
    requires
        forall|i: int| 0 <= i < s.len() ==> s[i].0 != k,
    ensures
        !pairs_to_map(s).contains_key(k),
{
}

/// Giving the pair at `i` a new value keeps the keys distinct and maps its
/// key to the new value.
pub proof fn lemma_pairs_to_map_update<V>(s: Seq<(Seq<char>, V)>, i: int, v: V)
    requires
        distinct_keys(s),
        0 <= i < s.len(),
    ensures
        distinct_keys(s.update(i, (s[i].0, v))),
        pairs_to_map(s.update(i, (s[i].0, v))) == pairs_to_map(s).insert(s[i].0, v),
{
    let k = s[i].0;
    let t = s.update(i, (k, v));
    assert(forall|j: int| 0 <= j < t.len() ==> #[trigger] t[j].0 == s[j].0);
    assert forall|x: Seq<char>| #![auto]
        pairs_to_map(t).contains_key(x) == pairs_to_map(s).insert(k, v).contains_key(x) by {
        if pairs_to_map(s).contains_key(x) {
            let j = choose|j: int| 0 <= j < s.len() && s[j].0 == x;
            assert(t[j].0 == x);
        }
        if pairs_to_map(t).contains_key(x) {
            let j = choose|j: int| 0 <= j < t.len() && t[j].0 == x;
            assert(s[j].0 == x);
        }
        if x == k {
            assert(t[i].0 == x);
        }
    }
    assert forall|x: Seq<char>| #![auto]
        pairs_to_map(t).contains_key(x) implies pairs_to_map(t)[x] == pairs_to_map(s).insert(
        k,
        v,
    )[x] by {
        let j = choose|j: int| 0 <= j < t.len() && t[j].0 == x;
        lemma_pairs_to_map_at(t, j);
        if x != k {
            assert(s[j] == t[j]);
            lemma_pairs_to_map_at(s, j);
        }
    }
    assert(pairs_to_map(t) =~= pairs_to_map(s).insert(k, v));
}

/// Adding a pair with a new key keeps the keys distinct and maps the key to
/// its value.
pub proof fn lemma_pairs_to_map_push<V>(s: Seq<(Seq<char>, V)>, k: Seq<char>, v: V)
    requires
        distinct_keys(s),
        forall|j: int| 0 <= j < s.len() ==> s[j].0 != k,
    ensures
        distinct_keys(s.push((k, v))),
        pairs_to_map(s.push((k, v))) == pairs_to_map(s).insert(k, v),
{
    let t = s.push((k, v));
    assert(forall|j: int| 0 <= j < s.len() ==> #[trigger] t[j] == s[j]);
    assert forall|x: Seq<char>| #![auto]
        pairs_to_map(t).contains_key(x) == pairs_to_map(s).insert(k, v).contains_key(x) by {
        if pairs_to_map(s).contains_key(x) {
            let j = choose|j: int| 0 <= j < s.len() && s[j].0 == x;
            assert(t[j].0 == x);
        }
        if x == k {
            assert(t[s.len() as int].0 == x);
        }
    }
    assert forall|x: Seq<char>| #![auto]
        pairs_to_map(t).contains_key(x) implies pairs_to_map(t)[x] == pairs_to_map(s).insert(
        k,
        v,
    )[x] by {
        let j = choose|j: int| 0 <= j < t.len() && t[j].0 == x;
        lemma_pairs_to_map_at(t, j);
        if x != k {
            assert(j < s.len());
            lemma_pairs_to_map_at(s, j);
        }
    }
    assert(pairs_to_map(t) =~= pairs_to_map(s).insert(k, v));
}

/// What `serde_json::from_str::<BTreeMap<String, serde_json::Value>>` makes of
/// a text: `None` where it fails, else the members of the JSON object in the
/// map's key order, each value given as its text where it is a JSON string
/// and as `None` where it is not.
pub uninterp spec fn json_object_members(json: Seq<char>) -> Option<Seq<(Seq<char>, Option<Seq<char>>)>>;

/// The view of one parsed member.
pub open spec fn member_view(m: (String, Option<String>)) -> (Seq<char>, Option<Seq<char>>) {
    (
        m.0@,
        match m.1 {
            Some(s) => Some(s@),
            None => None,
        },
    )
}

/// The view of a parse result.
pub open spec fn members_view(res: Option<Vec<(String, Option<String>)>>) -> Option<
    Seq<(Seq<char>, Option<Seq<char>>)>,
> {
    match res {
        Some(v) => Some(v@.map_values(|m: (String, Option<String>)| member_view(m))),
        None => None,
    }
}

/// Parses a JSON object with `serde_json::from_str` into a
/// `BTreeMap<String, serde_json::Value>` and hands its members out in the
/// map's order, each string value as its text and any other value as `None`.
/// Claimed: the result is `json_object_members` of the text, and no key occurs
/// twice (a `BTreeMap` holds each key once). What serde_json accepts as JSON
/// is not restated.
#[verifier::external_body]
fn parse_json_object(json: &str) -> (res: Option<Vec<(String, Option<String>)>>)
    ensures
        members_view(res) == json_object_members(json@),
        res matches Some(v) ==> distinct_keys(
            v@.map_values(|m: (String, Option<String>)| member_view(m)),
        ),
{
    match serde_json::from_str::<BTreeMap<String, serde_json::Value>>(json) {
        Ok(map) => Some(map.into_iter().map(|(key, value)| match value {
            serde_json::Value::String(text) => (key, Some(text)),
            _ => (key, None),
        }).collect()),
        Err(_) => None,
    }
}

/// The catalog of one locale: its tag and its entries.
pub struct Catalog {
    tag: Vec<char>,
    entries: Vec<(Vec<char>, String)>,
}

/// The view of one entry.
pub open spec fn entry_view(e: (Vec<char>, String)) -> (Seq<char>, Seq<char>) {
    (e.0@, e.1@)
}

impl Catalog {
    /// The entries as character sequences.
    pub closed spec fn entries_view(&self) -> Seq<(Seq<char>, Seq<char>)> {
        self.entries@.map_values(|e: (Vec<char>, String)| entry_view(e))
    }

    /// The locale tag of this catalog.
    pub closed spec fn tag_view(&self) -> Seq<char> {
        self.tag@
    }

    /// No key occurs twice.
    pub closed spec fn wf(&self) -> bool {
        distinct_keys(self.entries_view())
    }

    /// The catalog as a map from keys to texts.
    pub closed spec fn messages(&self) -> Map<Seq<char>, Seq<char>> {
        pairs_to_map(self.entries_view())
    }
}

/// The text of every member, where every member's value is a string.
pub open spec fn all_strings(members: Seq<(Seq<char>, Option<Seq<char>>)>) -> bool {
    forall|i: int| 0 <= i < members.len() ==> members[i].1 is Some
}

/// The members with their texts, where all of them are strings.
pub open spec fn member_texts(members: Seq<(Seq<char>, Option<Seq<char>>)>) -> Seq<
    (Seq<char>, Seq<char>),
> {
    members.map_values(|m: (Seq<char>, Option<Seq<char>>)| (m.0, m.1.unwrap()))
}

/// The catalog of a locale, built from the members of its parsed JSON
/// resource; every value must be a string (the resource is rejected
/// otherwise, see `parse_catalog`).
pub fn catalog_from_members(tag: &str, members: &Vec<(String, Option<String>)>) -> (res: Catalog)
    requires
        distinct_keys(members@.map_values(|m: (String, Option<String>)| member_view(m))),
        all_strings(members@.map_values(|m: (String, Option<String>)| member_view(m))),
    ensures
        res.wf(),
        res.tag_view() == tag@,
        res.entries_view() == member_texts(
            members@.map_values(|m: (String, Option<String>)| member_view(m)),
        ),
{
    let ghost mv = members@.map_values(|m: (String, Option<String>)| member_view(m));
    let mut entries: Vec<(Vec<char>, String)> = Vec::new();
    for i in 0..members.len()
        invariant
            mv == members@.map_values(|m: (String, Option<String>)| member_view(m)),
            all_strings(mv),
            entries@.len() == i,
            forall|j: int|
                0 <= j < i ==> entry_view(#[trigger] entries@[j]) == member_texts(mv)[j],
    {
        assert(mv[i as int].1 is Some);
        let text = match &members[i].1 {
            Some(text) => text.clone(),
            None => String::new(),
        };
        entries.push((chars_of(members[i].0.as_str()), text));
    }
    let res = Catalog { tag: chars_of(tag), entries };
    assert(res.entries_view() =~= member_texts(mv));
    assert forall|a: int, b: int|
        0 <= a < res.entries_view().len() && 0 <= b < res.entries_view().len() && a
            != b implies res.entries_view()[a].0 != res.entries_view()[b].0 by {
        assert(res.entries_view()[a].0 == mv[a].0);
        assert(res.entries_view()[b].0 == mv[b].0);
    }
    res
}

/// The messages of a JSON resource whose members are all strings.
pub open spec fn resource_messages(json: Seq<char>) -> Map<Seq<char>, Seq<char>> {
    pairs_to_map(member_texts(json_object_members(json).unwrap()))
}

/// The resource parses as a JSON object whose values are all strings.
pub open spec fn resource_is_valid(json: Seq<char>) -> bool {
    json_object_members(json) matches Some(members) && all_strings(members)
}

/// The catalog of one locale from its JSON resource; `None` where the text
/// is not a JSON object or one of its values is not a string.
pub fn parse_catalog(tag: &str, json: &str) -> (res: Option<Catalog>)
    ensures
        res is Some <==> resource_is_valid(json@),
        res matches Some(c) ==> {
            &&& c.wf()
            &&& c.tag_view() == tag@
            &&& c.entries_view() == member_texts(json_object_members(json@).unwrap())
            &&& c.messages() == resource_messages(json@)
        },
{
    let members = match parse_json_object(json) {
        Some(members) => members,
        None => return None,
    };
    let ghost mv = members@.map_values(|m: (String, Option<String>)| member_view(m));
    for i in 0..members.len()
        invariant
            mv == members@.map_values(|m: (String, Option<String>)| member_view(m)),
            json_object_members(json@) == Some(mv),
            forall|j: int| 0 <= j < i ==> mv[j].1 is Some,
    {
        if members[i].1.is_none() {
            assert(mv[i as int].1 is None);
            return None;
        }
    }
    Some(catalog_from_members(tag, &members))
}

/// A locale tag with the JSON text of its messages.
pub struct LocaleResource {
    pub tag: String,
    pub json: String,
}

/// The tag and the messages that a resource describes.
pub open spec fn resource_view(r: LocaleResource) -> (Seq<char>, Map<Seq<char>, Seq<char>>) {
    (r.tag@, resource_messages(r.json@))
}

/// The catalogs that a list of resources describes, a later resource of a
/// tag replacing an earlier one (as collecting into a `BTreeMap` does).
pub open spec fn resources_map(rs: Seq<(Seq<char>, Map<Seq<char>, Seq<char>>)>) -> Map<
    Seq<char>,
    Map<Seq<char>, Seq<char>>,
>
    decreases rs.len(),
{
    if rs.len() == 0 {
        Map::empty()
    } else {
        resources_map(rs.drop_last()).insert(rs.last().0, rs.last().1)
    }
}

/// The tags of a list of resources.
pub open spec fn resource_tags(rs: Seq<(Seq<char>, Map<Seq<char>, Seq<char>>)>) -> Set<Seq<char>> {
    Set::new(|t: Seq<char>| exists|i: int| 0 <= i < rs.len() && rs[i].0 == t)
}

/// The catalogs of a list of resources hold exactly the resources' tags, and
/// each tag holds the messages of its last resource.
pub proof fn lemma_resources_map(rs: Seq<(Seq<char>, Map<Seq<char>, Seq<char>>)>)
    ensures
        resources_map(rs).dom() == resource_tags(rs),
        forall|i: int|
            0 <= i < rs.len() && (forall|j: int| i < j < rs.len() ==> rs[j].0 != rs[i].0)
                ==> #[trigger] resources_map(rs)[rs[i].0] == rs[i].1,
    decreases rs.len(),
{
    if rs.len() == 0 {
        assert(resources_map(rs).dom() =~= resource_tags(rs));
    } else {
        let init = rs.drop_last();
        lemma_resources_map(init);
        assert forall|t: Seq<char>| resource_tags(rs).contains(t) == resources_map(rs).dom().contains(
            t,
        ) by {
            if resource_tags(init).contains(t) {
                let i = choose|i: int| 0 <= i < init.len() && init[i].0 == t;
                assert(rs[i].0 == t);
            }
            if resource_tags(rs).contains(t) && t != rs.last().0 {
                let i = choose|i: int| 0 <= i < rs.len() && rs[i].0 == t;
                assert(init[i].0 == t);
            }
        }
        assert(resources_map(rs).dom() =~= resource_tags(rs));
        assert forall|i: int|
            0 <= i < rs.len() && (forall|j: int| i < j < rs.len() ==> rs[j].0 != rs[i].0) implies #[trigger] resources_map(
            rs,
        )[rs[i].0] == rs[i].1 by {
            if i < rs.len() - 1 {
                assert(rs[rs.len() - 1].0 != rs[i].0);
                assert(init[i] == rs[i]);
                assert(forall|j: int| i < j < init.len() ==> init[j] == rs[j]);
            }
        }
    }
}

/// The text of `key` in the catalog of `tag`, where both exist.
pub open spec fn catalog_lookup(
    cats: Map<Seq<char>, Map<Seq<char>, Seq<char>>>,
    tag: Seq<char>,
    key: Seq<char>,
) -> Option<Seq<char>> {
    if cats.contains_key(tag) && cats[tag].contains_key(key) {
        Some(cats[tag][key])
    } else {
        None
    }
}

/// The view of an optional string.
pub open spec fn opt_view(o: Option<String>) -> Option<Seq<char>> {
    match o {
        Some(s) => Some(s@),
        None => None,
    }
}

/// The catalogs of all locales, by tag.
pub struct Catalogs {
    catalogs: Vec<Catalog>,
}

/// The tag and messages of one catalog.
pub open spec fn catalog_view(c: Catalog) -> (Seq<char>, Map<Seq<char>, Seq<char>>) {
    (c.tag_view(), c.messages())
}

impl Catalogs {
    /// Tags are distinct and no catalog has a key twice.
    #[verifier::type_invariant]
    spec fn inv(self) -> bool {
        &&& distinct_keys(self.catalogs@.map_values(|c: Catalog| catalog_view(c)))
        &&& forall|i: int| 0 <= i < self.catalogs@.len() ==> (#[trigger] self.catalogs@[i]).wf()
    }

    /// The text of `key` in the catalog of `tag`, where both exist.
    pub fn lookup(&self, tag: &Vec<char>, key: &Vec<char>) -> (res: Option<String>)
        ensures
            opt_view(res) == catalog_lookup(self@, tag@, key@),
    {
        proof {
            use_type_invariant(self);
        }
        let ghost cv = self.catalogs@.map_values(|c: Catalog| catalog_view(c));
        let mut i: usize = 0;
        while i < self.catalogs.len()
            invariant
                i <= self.catalogs@.len(),
                cv == self.catalogs@.map_values(|c: Catalog| catalog_view(c)),
                distinct_keys(cv),
                forall|j: int| 0 <= j < self.catalogs@.len() ==> (#[trigger] self.catalogs@[j]).wf(),
                forall|j: int| 0 <= j < i ==> cv[j].0 != tag@,
            decreases self.catalogs@.len() - i,
        {
            let catalog = &self.catalogs[i];
            if chars_equal(&catalog.tag, tag) {
                proof {
                    lemma_pairs_to_map_at(cv, i as int);
                }
                let ghost ev = catalog.entries_view();
                assert(catalog.wf());
                assert(self@[tag@] == pairs_to_map(ev));
                let mut k: usize = 0;
                while k < catalog.entries.len()
                    invariant
                        k <= catalog.entries@.len(),
                        ev == catalog.entries_view(),
                        distinct_keys(ev),
                        self@.contains_key(tag@),
                        self@[tag@] == pairs_to_map(ev),
                        forall|j: int| 0 <= j < k ==> ev[j].0 != key@,
                    decreases catalog.entries@.len() - k,
                {
                    if chars_equal(&catalog.entries[k].0, key) {
                        proof {
                            lemma_pairs_to_map_at(ev, k as int);
                        }
                        let text = catalog.entries[k].1.clone();
                        assert(ev[k as int].1 == text@);
                        return Some(text);
                    }
                    k = k + 1;
                }
                proof {
                    lemma_pairs_to_map_absent(ev, key@);
                }
                return None;
            }
            i = i + 1;
        }
        proof {
            lemma_pairs_to_map_absent(cv, tag@);
        }
        None
    }

    /// Whether the catalogs are exactly those of the available locales.
    pub fn covers_available_locales(&self) -> (res: bool)
        ensures
            res == (self@.dom() == available_locale_set()),
    {
        let tags = available_locales();
        let ghost tv = tags@.map_values(|t: &str| t@);
        let ghost cv = self.catalogs@.map_values(|c: Catalog| catalog_view(c));
        for i in 0..self.catalogs.len()
            invariant
                tv == tags@.map_values(|t: &str| t@),
                tv == spec_available_locales(),
                cv == self.catalogs@.map_values(|c: Catalog| catalog_view(c)),
                forall|j: int| 0 <= j < i ==> tv.contains(#[trigger] cv[j].0),
        {
            let mut found = false;
            let mut k: usize = 0;
            while !found && k < tags.len()
                invariant
                    k <= tags@.len(),
                    tv == tags@.map_values(|t: &str| t@),
                    cv == self.catalogs@.map_values(|c: Catalog| catalog_view(c)),
                    i < cv.len(),
                    !found ==> forall|j: int| 0 <= j < k ==> tv[j] != cv[i as int].0,
                    found ==> tv.contains(cv[i as int].0),
                decreases tags@.len() - k + (if found { 0int } else { 1int }),
            {
                let tag = chars_of(tags[k]);
                if chars_equal(&tag, &self.catalogs[i].tag) {
                    assert(tv[k as int] == cv[i as int].0);
                    found = true;
                } else {
                    k = k + 1;
                }
            }
            if !found {
                assert(self@.contains_key(cv[i as int].0));
                assert(!available_locale_set().contains(cv[i as int].0));
                return false;
            }
        }
        for k in 0..tags.len()
            invariant
                tv == tags@.map_values(|t: &str| t@),
                tv == spec_available_locales(),
                cv == self.catalogs@.map_values(|c: Catalog| catalog_view(c)),
                forall|j: int| 0 <= j < cv.len() ==> tv.contains(#[trigger] cv[j].0),
                forall|j: int| 0 <= j < k ==> self@.contains_key(#[trigger] tv[j]),
        {
            let tag = chars_of(tags[k]);
            let mut found = false;
            let mut i: usize = 0;
            while !found && i < self.catalogs.len()
                invariant
                    i <= self.catalogs@.len(),
                    tv == tags@.map_values(|t: &str| t@),
                    cv == self.catalogs@.map_values(|c: Catalog| catalog_view(c)),
                    tag@ == tv[k as int],
                    k < tv.len(),
                    !found ==> forall|j: int| 0 <= j < i ==> cv[j].0 != tv[k as int],
                    found ==> self@.contains_key(tv[k as int]),
                decreases self.catalogs@.len() - i + (if found { 0int } else { 1int }),
            {
                if chars_equal(&self.catalogs[i].tag, &tag) {
                    assert(cv[i as int].0 == tv[k as int]);
                    found = true;
                } else {
                    i = i + 1;
                }
            }
            if !found {
                assert(available_locale_set().contains(tv[k as int]));
                return false;
            }
        }
        assert forall|t: Seq<char>| self@.dom().contains(t) == available_locale_set().contains(t) by {
            if self@.dom().contains(t) {
                let j = choose|j: int| 0 <= j < cv.len() && cv[j].0 == t;
                assert(tv.contains(cv[j].0));
            }
            if available_locale_set().contains(t) {
                let j = choose|j: int| 0 <= j < tv.len() && tv[j] == t;
                assert(self@.contains_key(tv[j]));
            }
        }
        assert(self@.dom() =~= available_locale_set());
        true
    }

    /// The catalogs of the given resources, one per tag, a later resource of
    /// a tag replacing an earlier one; `None` where one of them
    /// is not a JSON object of strings.
    pub fn from_resources(resources: &Vec<LocaleResource>) -> (res: Option<Catalogs>)
        ensures
            res is Some <==> forall|i: int|
                0 <= i < resources@.len() ==> resource_is_valid(#[trigger] resources@[i].json@),
            res matches Some(c) ==> c@ == resources_map(
                resources@.map_values(|r: LocaleResource| resource_view(r)),
            ),
            res matches Some(c) ==> c@.dom() == resource_tags(
                resources@.map_values(|r: LocaleResource| resource_view(r)),
            ),
    {
        proof {
            lemma_resources_map(resources@.map_values(|r: LocaleResource| resource_view(r)));
        }
        let ghost rv = resources@.map_values(|r: LocaleResource| resource_view(r));
        let mut catalogs: Vec<Catalog> = Vec::new();
        assert(pairs_to_map(catalogs@.map_values(|c: Catalog| catalog_view(c))) =~= resources_map(
            rv.take(0),
        ));
        for i in 0..resources.len()
            invariant
                rv == resources@.map_values(|r: LocaleResource| resource_view(r)),
                distinct_keys(catalogs@.map_values(|c: Catalog| catalog_view(c))),
                pairs_to_map(catalogs@.map_values(|c: Catalog| catalog_view(c))) == resources_map(
                    rv.take(i as int),
                ),
                forall|j: int| 0 <= j < catalogs@.len() ==> (#[trigger] catalogs@[j]).wf(),
                forall|j: int| 0 <= j < i ==> resource_is_valid(#[trigger] resources@[j].json@),
        {
            let resource = &resources[i];
            let catalog = match parse_catalog(resource.tag.as_str(), resource.json.as_str()) {
                Some(catalog) => catalog,
                None => return None,
            };
            assert(rv.take(i + 1).drop_last() == rv.take(i as int));
            assert(rv.take(i + 1).last() == rv[i as int]);
            assert(catalog_view(catalog) == rv[i as int]);
            let ghost cv = catalogs@.map_values(|c: Catalog| catalog_view(c));
            let tag = chars_of(resource.tag.as_str());
            let mut k: usize = 0;
            let mut found = false;
            while !found && k < catalogs.len()
                invariant
                    k <= catalogs@.len(),
                    cv == catalogs@.map_values(|c: Catalog| catalog_view(c)),
                    !found ==> forall|j: int| 0 <= j < k ==> cv[j].0 != tag@,
                    found ==> k < catalogs@.len() && cv[k as int].0 == tag@,
                decreases catalogs@.len() - k + (if found { 0int } else { 1int }),
            {
                if chars_equal(&catalogs[k].tag, &tag) {
                    found = true;
                } else {
                    k = k + 1;
                }
            }
            if found {
                proof {
                    lemma_pairs_to_map_update(cv, k as int, catalog_view(catalog).1);
                }
                catalogs.set(k, catalog);
                assert(catalogs@.map_values(|c: Catalog| catalog_view(c)) =~= cv.update(
                    k as int,
                    (cv[k as int].0, catalog_view(catalog).1),
                ));
            } else {
                proof {
                    lemma_pairs_to_map_push(cv, tag@, catalog_view(catalog).1);
                }
                catalogs.push(catalog);
                assert(catalogs@.map_values(|c: Catalog| catalog_view(c)) =~= cv.push(
                    (tag@, catalog_view(catalog).1),
                ));
            }
        }
        assert(rv.take(resources.len() as int) == rv);
        let res = Catalogs { catalogs };
        Some(res)
    }
}

impl View for Catalogs {
    type V = Map<Seq<char>, Map<Seq<char>, Seq<char>>>;

    closed spec fn view(&self) -> Map<Seq<char>, Map<Seq<char>, Seq<char>>> {
        pairs_to_map(self.catalogs@.map_values(|c: Catalog| catalog_view(c)))
    }
}

} // verus!
