//! Rambles and the map that keeps them by kind.

use vstd::prelude::*;
use crate::json::Json;
use crate::text::str_eq;

verus! {

/// A category of values: the name of the list it was loaded from, if any, and
/// its values.
#[derive(Debug, PartialEq, Eq, Clone)]
pub struct Ramble {
    pub category: Option<String>,
    pub values: Vec<String>,
}

/// The view of an optional owned string.
pub open spec fn opt_string_view(s: Option<String>) -> Option<Seq<char>> {
    match s {
        Some(x) => Some(x@),
        None => None,
    }
}

impl View for Ramble {
    type V = (Option<Seq<char>>, Seq<Seq<char>>);

    open spec fn view(&self) -> (Option<Seq<char>>, Seq<Seq<char>>) {
        (opt_string_view(self.category), self.values@.map_values(|v: String| v@))
    }
}

/// The views of a list of rambles.
pub open spec fn ramble_views(v: Seq<Ramble>) -> Seq<(Option<Seq<char>>, Seq<Seq<char>>)> {
    v.map_values(|r: Ramble| r@)
}

/// Whether `j` is a JSON list of the strings `s`.
pub open spec fn is_string_list(j: Json, s: Seq<Seq<char>>) -> bool {
    j matches Json::Array(a) && a@.len() == s.len() && forall|i: int|
        0 <= i < s.len() ==> (#[trigger] a@[i] matches Json::Str(x) && x@ == s[i])
}

/// Whether `j` is the JSON form of a ramble: an object with a `category` member
/// (null when there is none) and a `values` list.
pub open spec fn is_ramble_json(j: Json, r: (Option<Seq<char>>, Seq<Seq<char>>)) -> bool {
    j matches Json::Object(m) && m@.len() == 2 && m@[0].0@ == "category"@ && m@[1].0@ == "values"@
        && match r.0 {
        None => m@[0].1 is Null,
        Some(c) => m@[0].1 matches Json::Str(x) && x@ == c,
    } && is_string_list(m@[1].1, r.1)
}

/// Whether `j` is the JSON list of the given rambles.
pub open spec fn is_rambles_json(j: Json, rs: Seq<(Option<Seq<char>>, Seq<Seq<char>>)>) -> bool {
    j matches Json::Array(a) && a@.len() == rs.len() && forall|i: int|
        0 <= i < rs.len() ==> is_ramble_json(#[trigger] a@[i], rs[i])
}

/// A JSON list of copies of the strings.
pub fn strings_json(s: &Vec<String>) -> (j: Json)
    ensures
        is_string_list(j, s@.map_values(|v: String| v@)),
{
    let mut a: Vec<Json> = Vec::new();
    let mut i: usize = 0;
    while i < s.len()
        invariant
            i <= s.len(),
            a@.len() == i,
            forall|k: int| 0 <= k < i ==> (#[trigger] a@[k] matches Json::Str(x) && x@ == s@[k]@),
        decreases s.len() - i,
    {
        a.push(Json::Str(s[i].clone()));
        i = i + 1;
    }
    Json::Array(a)
}

impl Ramble {
    /// A ramble of the one value `source`, in no category.
    pub fn from(source: &str) -> (r: Ramble)
        ensures
            r@ == (None::<Seq<char>>, seq![source@]),
    {
        let mut values: Vec<String> = Vec::new();
        values.push(String::from_str(source));
        let r = Ramble { category: None, values };
        assert(r@.1 =~= seq![source@]);
        r
    }

    /// A ramble of the given values, in no category.
    pub fn from_values(values: &Vec<&str>) -> (r: Ramble)
        ensures
            r@ == (None::<Seq<char>>, values@.map_values(|v: &str| v@)),
    {
        let mut vs: Vec<String> = Vec::new();
        let mut i: usize = 0;
        while i < values.len()
            invariant
                i <= values.len(),
                vs@.map_values(|v: String| v@) == values@.take(i as int).map_values(|v: &str| v@),
            decreases values.len() - i,
        {
            let ghost before = vs@;
            vs.push(String::from_str(values[i]));
            assert(vs@.map_values(|v: String| v@) =~= before.map_values(|v: String| v@).push(values@[i as int]@));
            i = i + 1;
            assert(values@.take(i as int).map_values(|v: &str| v@) =~= values@.take(i - 1).map_values(|v: &str| v@).push(values@[i - 1]@));
        }
        assert(values@.take(values.len() as int) == values@);
        Ramble { category: None, values: vs }
    }

    /// The JSON form of the ramble (see [`is_ramble_json`]).
    pub fn to_json(&self) -> (j: Json)
        ensures
            is_ramble_json(j, self@),
    {
        let category = match &self.category {
            Some(c) => Json::Str(c.clone()),
            None => Json::Null,
        };
        let mut m: Vec<(String, Json)> = Vec::new();
        m.push((String::from_str("category"), category));
        m.push((String::from_str("values"), strings_json(&self.values)));
        Json::Object(m)
    }
}

/// The JSON list of the rambles.
pub fn rambles_json(rs: &Vec<Ramble>) -> (j: Json)
    ensures
        is_rambles_json(j, ramble_views(rs@)),
{
    let mut a: Vec<Json> = Vec::new();
    let mut i: usize = 0;
    while i < rs.len()
        invariant
            i <= rs.len(),
            a@.len() == i,
            forall|k: int| 0 <= k < i ==> is_ramble_json(#[trigger] a@[k], rs@[k]@),
        decreases rs.len() - i,
    {
        a.push(rs[i].to_json());
        i = i + 1;
    }
    Json::Array(a)
}

/// The kind of a ramble, such as `adj` or `theme`: the name templates use for it.
#[derive(Debug, PartialEq, Eq, Hash, Clone)]
pub struct RambleKind<'a>(pub &'a str);

impl<'a> RambleKind<'a> {
    /// The kind called `source`.
    pub fn from(source: &'a str) -> (k: RambleKind<'a>)
        ensures
            k.0@ == source@,
    {
        RambleKind(source)
    }

    /// The name of the kind, as it is displayed.
    pub fn to_string(&self) -> (s: String)
        ensures
            s@ == self.0@,
    {
        String::from_str(self.0)
    }
}

/// The entries of a ramble map, as the map they stand for: a later entry for a
/// kind wins over an earlier one.
pub open spec fn entries_map<'a>(e: Seq<(RambleKind<'a>, Vec<Ramble>)>) -> Map<Seq<char>, Seq<(Option<Seq<char>>, Seq<Seq<char>>)>>
    decreases e.len(),
{
    if e.len() == 0 {
        Map::empty()
    } else {
        entries_map(e.drop_last()).insert(e.last().0.0@, ramble_views(e.last().1@))
    }
}

/// Whether no two entries have the same kind.
pub open spec fn kinds_unique<'a>(e: Seq<(RambleKind<'a>, Vec<Ramble>)>) -> bool {
    forall|i: int, j: int| 0 <= i < j < e.len() ==> (#[trigger] e[i]).0.0@ != (#[trigger] e[j]).0.0@
}

/// An entry's kind is in the map's domain exactly when some entry has it.
proof fn lemma_entries_dom<'a>(e: Seq<(RambleKind<'a>, Vec<Ramble>)>, k: Seq<char>)
    ensures
        entries_map(e).dom().contains(k) <==> exists|i: int| 0 <= i < e.len() && (#[trigger] e[i]).0.0@ == k,
    decreases e.len(),
{
    if e.len() > 0 {
        lemma_entries_dom(e.drop_last(), k);
        if entries_map(e).dom().contains(k) && e.last().0.0@ != k {
            let i = choose|i: int| 0 <= i < e.drop_last().len() && (#[trigger] e.drop_last()[i]).0.0@ == k;
            assert(e[i] == e.drop_last()[i]);
        }
        if exists|i: int| 0 <= i < e.len() && (#[trigger] e[i]).0.0@ == k {
            let i = choose|i: int| 0 <= i < e.len() && (#[trigger] e[i]).0.0@ == k;
            if i < e.len() - 1 {
                assert(e.drop_last()[i] == e[i]);
            }
        }
    }
}

/// With distinct kinds, the map gives an entry's kind that entry's rambles.
proof fn lemma_entries_lookup<'a>(e: Seq<(RambleKind<'a>, Vec<Ramble>)>, i: int)
    requires
        kinds_unique(e),
        0 <= i < e.len(),
    ensures
        entries_map(e).dom().contains(e[i].0.0@),
        entries_map(e)[e[i].0.0@] == ramble_views(e[i].1@),
    decreases e.len(),
{
    if i < e.len() - 1 {
        assert(e.drop_last()[i] == e[i]);
        assert(kinds_unique(e.drop_last())) by {
            assert forall|a: int, b: int| 0 <= a < b < e.drop_last().len() implies
                (#[trigger] e.drop_last()[a]).0.0@ != (#[trigger] e.drop_last()[b]).0.0@ by {
                assert(e.drop_last()[a] == e[a] && e.drop_last()[b] == e[b]);
            }
        }
        lemma_entries_lookup(e.drop_last(), i);
        assert(e[i].0.0@ != e.last().0.0@);
    }
}

/// With distinct kinds, replacing the rambles of an entry replaces them in the map.
proof fn lemma_entries_update<'a>(e: Seq<(RambleKind<'a>, Vec<Ramble>)>, i: int, x: (RambleKind<'a>, Vec<Ramble>))
    requires
        kinds_unique(e),
        0 <= i < e.len(),
        x.0.0@ == e[i].0.0@,
    ensures
        entries_map(e.update(i, x)) == entries_map(e).insert(x.0.0@, ramble_views(x.1@)),
    decreases e.len(),
{
    let u = e.update(i, x);
    if i == e.len() - 1 {
        assert(u.drop_last() == e.drop_last());
        assert(entries_map(u) =~= entries_map(e).insert(x.0.0@, ramble_views(x.1@)));
    } else {
        assert(u.drop_last() == e.drop_last().update(i, x));
        assert(kinds_unique(e.drop_last())) by {
            assert forall|a: int, b: int| 0 <= a < b < e.drop_last().len() implies
                (#[trigger] e.drop_last()[a]).0.0@ != (#[trigger] e.drop_last()[b]).0.0@ by {
                assert(e.drop_last()[a] == e[a] && e.drop_last()[b] == e[b]);
            }
        }
        lemma_entries_update(e.drop_last(), i, x);
        assert(e[i].0.0@ != e.last().0.0@);
        assert(u.last() == e.last());
        assert(entries_map(u) =~= entries_map(e).insert(x.0.0@, ramble_views(x.1@)));
    }
}

/// The rambles of a generator, kept by kind.
#[derive(Debug)]
pub struct RambleMap<'a> {
    entries: Vec<(RambleKind<'a>, Vec<Ramble>)>,
}

impl<'a> View for RambleMap<'a> {
    type V = Map<Seq<char>, Seq<(Option<Seq<char>>, Seq<Seq<char>>)>>;

    closed spec fn view(&self) -> Map<Seq<char>, Seq<(Option<Seq<char>>, Seq<Seq<char>>)>> {
        entries_map(self.entries@)
    }
}

impl<'a> RambleMap<'a> {
    /// No kind appears twice.
    #[verifier::type_invariant]
    closed spec fn distinct_kinds(self) -> bool {
        kinds_unique(self.entries@)
    }

    /// A map with no rambles.
    pub fn new() -> (m: RambleMap<'a>)
        ensures
            m@ == Map::<Seq<char>, Seq<(Option<Seq<char>>, Seq<Seq<char>>)>>::empty(),
    {
        RambleMap { entries: Vec::new() }
    }

    /// The number of kinds.
    pub fn len(&self) -> (n: usize)
        ensures
            n == self@.dom().len(),
    {
        proof {
            use_type_invariant(self);
            lemma_kinds_len(self.entries@);
        }
        self.entries.len()
    }

    /// Whether the map has no kinds.
    pub fn is_empty(&self) -> (b: bool)
        ensures
            b == (self@.dom().len() == 0),
    {
        self.len() == 0
    }

    /// Where the entry of `kind` stands, if there is one.
    fn position(&self, kind: &str) -> (r: Option<usize>)
        ensures
            r matches Some(i) ==> i < self.entries@.len() && self.entries@[i as int].0.0@ == kind@,
            r is None ==> !self@.dom().contains(kind@),
    {
        let mut i: usize = 0;
        while i < self.entries.len()
            invariant
                i <= self.entries@.len(),
                forall|k: int| 0 <= k < i ==> (#[trigger] self.entries@[k]).0.0@ != kind@,
            decreases self.entries@.len() - i,
        {
            if str_eq(self.entries[i].0.0, kind) {
                return Some(i);
            }
            i = i + 1;
        }
        proof {
            lemma_entries_dom(self.entries@, kind@);
        }
        None
    }

    /// The rambles of `kind`, if the map has that kind.
    pub fn get(&self, kind: &str) -> (r: Option<&Vec<Ramble>>)
        ensures
            match r {
                Some(v) => self@.dom().contains(kind@) && self@[kind@] == ramble_views(v@),
                None => !self@.dom().contains(kind@),
            },
    {
        proof {
            use_type_invariant(self);
        }
        match self.position(kind) {
            Some(i) => {
                proof {
                    lemma_entries_lookup(self.entries@, i as int);
                }
                Some(&self.entries[i].1)
            },
            None => None,
        }
    }

    /// Sets the rambles of `kind`, replacing those it had.
    pub fn insert(&mut self, kind: RambleKind<'a>, rambles: Vec<Ramble>)
        ensures
            final(self)@ == old(self)@.insert(kind.0@, ramble_views(rambles@)),
    {
        proof {
            use_type_invariant(&*self);
        }
        let pos = self.position(kind.0);
        let mut entries: Vec<(RambleKind<'a>, Vec<Ramble>)> = Vec::new();
        std::mem::swap(&mut entries, &mut self.entries);
        let ghost before = entries@;
        let ghost key = kind.0@;
        let ghost views = ramble_views(rambles@);
        match pos {
            Some(i) => {
                let ghost x = (kind, rambles);
                entries.set(i, (kind, rambles));
                proof {
                    lemma_entries_update(before, i as int, x);
                    assert(entries@ == before.update(i as int, x));
                    assert forall|a: int, b: int| 0 <= a < b < entries@.len() implies
                        (#[trigger] entries@[a]).0.0@ != (#[trigger] entries@[b]).0.0@ by {
                        assert(before[a].0.0@ != before[b].0.0@);
                    }
                }
            },
            None => {
                entries.push((kind, rambles));
                proof {
                    assert(entries@.drop_last() == before);
                    assert forall|a: int, b: int| 0 <= a < b < entries@.len() implies
                        (#[trigger] entries@[a]).0.0@ != (#[trigger] entries@[b]).0.0@ by {
                        if b == entries@.len() - 1 {
                            assert(entries@[a] == before[a]);
                            lemma_entries_dom(before, key);
                        } else {
                            assert(entries@[a] == before[a] && entries@[b] == before[b]);
                        }
                    }
                }
            },
        }
        self.entries = entries;
    }

    /// The JSON form of the map, as a template context holds it: an object with a
    /// member for each kind, whose value is the JSON list of its rambles.
    pub fn to_json(&self) -> (members: Vec<(String, Json)>)
        ensures
            members@.map_values(|p: (String, Json)| p.0@).to_set() == self@.dom(),
            forall|i: int| 0 <= i < members@.len() ==> {
                let p = #[trigger] members@[i];
                self@.dom().contains(p.0@) && crate::refactor::map::is_rambles_json(p.1, self@[p.0@])
            },
            forall|i: int| 0 <= i < members@.len() ==> crate::json::number_free(#[trigger] members@[i].1),
    {
        proof {
            use_type_invariant(self);
        }
        let mut members: Vec<(String, Json)> = Vec::new();
        let mut i: usize = 0;
        while i < self.entries.len()
            invariant
                kinds_unique(self.entries@),
                i <= self.entries@.len(),
                members@.len() == i,
                forall|k: int| 0 <= k < i ==> (#[trigger] members@[k]).0@ == self.entries@[k].0.0@,
                forall|k: int| 0 <= k < i ==> is_rambles_json((#[trigger] members@[k]).1, ramble_views(self.entries@[k].1@)),
                forall|k: int| 0 <= k < i ==> crate::json::number_free((#[trigger] members@[k]).1),
            decreases self.entries@.len() - i,
        {
            let j = rambles_json(&self.entries[i].1);
            proof {
                lemma_rambles_json_number_free(j, ramble_views(self.entries@[i as int].1@));
            }
            members.push((self.entries[i].0.to_string(), j));
            i = i + 1;
        }
        proof {
            assert forall|k: int| 0 <= k < members@.len() implies {
                let p = #[trigger] members@[k];
                self@.dom().contains(p.0@) && is_rambles_json(p.1, self@[p.0@])
            } by {
                lemma_entries_lookup(self.entries@, k);
            }
            assert forall|k: Seq<char>| #[trigger] self@.dom().contains(k) <==> members@.map_values(|p: (String, Json)| p.0@).to_set().contains(k) by {
                lemma_entries_dom(self.entries@, k);
                if self@.dom().contains(k) {
                    let i = choose|i: int| 0 <= i < self.entries@.len() && (#[trigger] self.entries@[i]).0.0@ == k;
                    assert(members@.map_values(|p: (String, Json)| p.0@)[i] == k);
                }
                let names = members@.map_values(|p: (String, Json)| p.0@);
                if names.to_set().contains(k) {
                    assert(names.contains(k));
                    let i = choose|i: int| 0 <= i < names.len() && #[trigger] names[i] == k;
                    assert(self.entries@[i].0.0@ == k);
                }
            }
            assert(members@.map_values(|p: (String, Json)| p.0@).to_set() =~= self@.dom());
        }
        members
    }
}

/// A JSON list of rambles holds no number.
proof fn lemma_rambles_json_number_free(j: Json, rs: Seq<(Option<Seq<char>>, Seq<Seq<char>>)>)
    requires
        is_rambles_json(j, rs),
    ensures
        crate::json::number_free(j),
{
    if let Json::Array(a) = j {
        assert forall|i: int| 0 <= i < a@.len() implies crate::json::number_free(#[trigger] a@[i]) by {
            assert(is_ramble_json(a@[i], rs[i]));
            if let Json::Object(m) = a@[i] {
                assert forall|k: int| 0 <= k < m@.len() implies crate::json::number_free((#[trigger] m@[k]).1) by {
                    if k == 1 {
                        if let Json::Array(vs) = m@[1].1 {
                            assert forall|t: int| 0 <= t < vs@.len() implies crate::json::number_free(#[trigger] vs@[t]) by {
                                assert(vs@[t] is Str);
                            }
                        }
                    }
                }
            }
        }
    }
}

/// The map of entries with distinct kinds has as many kinds as entries.
proof fn lemma_kinds_len<'a>(e: Seq<(RambleKind<'a>, Vec<Ramble>)>)
    requires
        kinds_unique(e),
    ensures
        entries_map(e).dom().len() == e.len(),
        entries_map(e).dom().finite(),
    decreases e.len(),
{
    if e.len() > 0 {
        assert(kinds_unique(e.drop_last())) by {
            assert forall|a: int, b: int| 0 <= a < b < e.drop_last().len() implies
                (#[trigger] e.drop_last()[a]).0.0@ != (#[trigger] e.drop_last()[b]).0.0@ by {
                assert(e.drop_last()[a] == e[a] && e.drop_last()[b] == e[b]);
            }
        }
        lemma_kinds_len(e.drop_last());
        lemma_entries_dom(e.drop_last(), e.last().0.0@);
        if entries_map(e.drop_last()).dom().contains(e.last().0.0@) {
            let i = choose|i: int| 0 <= i < e.drop_last().len() && (#[trigger] e.drop_last()[i]).0.0@ == e.last().0.0@;
            assert(e[i] == e.drop_last()[i]);
            assert(false);
        }
    }
}

/// Setting a kind twice keeps only the second rambles, and leaves the other
/// kinds as they were.
pub proof fn law_last_setting_wins(
    m: Map<Seq<char>, Seq<(Option<Seq<char>>, Seq<Seq<char>>)>>,
    kind: Seq<char>,
    first: Seq<(Option<Seq<char>>, Seq<Seq<char>>)>,
    second: Seq<(Option<Seq<char>>, Seq<Seq<char>>)>,
    other: Seq<char>,
)
    requires
        other != kind,
    ensures
        m.insert(kind, first).insert(kind, second) == m.insert(kind, second),
        m.insert(kind, second).dom().contains(other) == m.dom().contains(other),
        m.dom().contains(other) ==> m.insert(kind, second)[other] == m[other],
{
    assert(m.insert(kind, first).insert(kind, second) =~= m.insert(kind, second));
}

} // verus!
