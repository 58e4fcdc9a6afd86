//! The attribute set: facts about the instance, each under a key of its
//! own, and the file that exports them.

use vstd::prelude::*;
use crate::output::FileWrite;
use crate::text::{
    lemma_precedes_asymmetric, lemma_precedes_irreflexive, lemma_precedes_total,
    lemma_precedes_transitive, precedes, same_text, text_precedes,
};

verus! {

/// A key and its value.
pub type Entry = (Seq<char>, Seq<char>);

/// One attribute: a key and its value.
#[derive(Clone, Debug, PartialEq, Eq)]
pub struct Attribute {
    pub key: String,
    pub value: String,
}

impl Attribute {
    /// The key and the value.
    pub open spec fn view(&self) -> Entry {
        (self.key@, self.value@)
    }
}

/// The keys of `s` stand in strictly ascending lexicographic order, so that
/// none occurs twice.
pub open spec fn ascending(s: Seq<Entry>) -> bool {
    forall|i: int, j: int| 0 <= i < j < s.len() ==> precedes(#[trigger] s[i].0, #[trigger] s[j].0)
}

/// Whether `s` holds an entry under the key `k`.
pub open spec fn has_key(s: Seq<Entry>, k: Seq<char>) -> bool {
    exists|i: int| 0 <= i < s.len() && #[trigger] s[i].0 == k
}

/// A position at which `s` holds the key `k`.
pub open spec fn position_of(s: Seq<Entry>, k: Seq<char>) -> int {
    choose|i: int| 0 <= i < s.len() && #[trigger] s[i].0 == k
}

/// The mapping from key to value that the entries `s` stand for.
pub open spec fn as_map(s: Seq<Entry>) -> Map<Seq<char>, Seq<char>> {
    Map::new(|k: Seq<char>| has_key(s, k), |k: Seq<char>| s[position_of(s, k)].1)
}

/// In ascending entries a key stands at one position only.
pub proof fn lemma_key_position_unique(s: Seq<Entry>, i: int, j: int)
    requires
        ascending(s),
        0 <= i < s.len(),
        0 <= j < s.len(),
        s[i].0 == s[j].0,
    ensures
        i == j,
{
    lemma_precedes_irreflexive(s[i].0, 0);
}

/// The mapping of ascending entries holds each entry: its key is in the
/// domain, and its value is what the key maps to.
pub proof fn lemma_as_map_holds(s: Seq<Entry>, i: int)
    requires
        ascending(s),
        0 <= i < s.len(),
    ensures
        as_map(s).dom().contains(s[i].0),
        as_map(s)[s[i].0] == s[i].1,
{
    assert(has_key(s, s[i].0));
    lemma_key_position_unique(s, i, position_of(s, s[i].0));
}

/// Putting an entry between the keys before it and the keys after it keeps
/// the order, and adds the entry to the mapping.
proof fn lemma_insert_entry(s: Seq<Entry>, at: int, e: Entry)
    requires
        ascending(s),
        0 <= at <= s.len(),
        forall|j: int| 0 <= j < at ==> precedes(#[trigger] s[j].0, e.0),
        forall|j: int| at <= j < s.len() ==> precedes(e.0, #[trigger] s[j].0),
    ensures
        ascending(s.insert(at, e)),
        as_map(s.insert(at, e)) == as_map(s).insert(e.0, e.1),
{
    let t = s.insert(at, e);
    assert forall|i: int, j: int| 0 <= i < j < t.len() implies precedes(
        #[trigger] t[i].0,
        #[trigger] t[j].0,
    ) by {
        let x = if i < at {
            s[i]
        } else if i == at {
            e
        } else {
            s[i - 1]
        };
        let y = if j < at {
            s[j]
        } else if j == at {
            e
        } else {
            s[j - 1]
        };
        assert(t[i] == x && t[j] == y);
    }
    assert forall|k: Seq<char>| as_map(t).dom().contains(k) <==> as_map(s).insert(
        e.0,
        e.1,
    ).dom().contains(k) by {
        if has_key(t, k) {
            let i = position_of(t, k);
            if i < at {
                assert(s[i].0 == k);
            } else if i > at {
                assert(s[i - 1].0 == k);
            }
        }
        if has_key(s, k) {
            let i = position_of(s, k);
            if i < at {
                assert(t[i].0 == k);
            } else {
                assert(t[i + 1].0 == k);
            }
        }
        if k == e.0 {
            assert(t[at].0 == k);
        }
    }
    assert forall|k: Seq<char>| as_map(t).dom().contains(k) implies #[trigger] as_map(t)[k]
        == as_map(s).insert(e.0, e.1)[k] by {
        let i = position_of(t, k);
        lemma_as_map_holds(t, i);
        if i < at {
            assert(t[i] == s[i]);
            lemma_as_map_holds(s, i);
            lemma_precedes_irreflexive(k, 0);
        } else if i > at {
            assert(t[i] == s[i - 1]);
            lemma_as_map_holds(s, i - 1);
            lemma_precedes_irreflexive(k, 0);
        }
    }
    assert(as_map(t) =~= as_map(s).insert(e.0, e.1));
}

/// Giving the entry at a position a new value keeps the order, and maps its
/// key to the new value.
proof fn lemma_replace_value(s: Seq<Entry>, at: int, value: Seq<char>)
    requires
        ascending(s),
        0 <= at < s.len(),
    ensures
        ascending(s.update(at, (s[at].0, value))),
        as_map(s.update(at, (s[at].0, value))) == as_map(s).insert(s[at].0, value),
{
    let key = s[at].0;
    let t = s.update(at, (key, value));
    assert forall|i: int, j: int| 0 <= i < j < t.len() implies precedes(
        #[trigger] t[i].0,
        #[trigger] t[j].0,
    ) by {
        assert(t[i].0 == s[i].0 && t[j].0 == s[j].0);
    }
    assert forall|k: Seq<char>| as_map(t).dom().contains(k) <==> as_map(s).insert(
        key,
        value,
    ).dom().contains(k) by {
        if has_key(t, k) {
            let i = position_of(t, k);
            assert(s[i].0 == k);
        }
        if has_key(s, k) {
            let i = position_of(s, k);
            assert(t[i].0 == k);
        }
    }
    assert forall|k: Seq<char>| as_map(t).dom().contains(k) implies #[trigger] as_map(t)[k]
        == as_map(s).insert(key, value)[k] by {
        let i = position_of(t, k);
        lemma_as_map_holds(t, i);
        if i != at {
            assert(t[i] == s[i]);
            lemma_as_map_holds(s, i);
            if k == key {
                lemma_key_position_unique(s, i, at);
            }
        }
    }
    assert(as_map(t) =~= as_map(s).insert(key, value));
}

/// Without their last entry, ascending entries stand for the mapping
/// without the last key.
proof fn lemma_as_map_drop_last(s: Seq<Entry>)
    requires
        ascending(s),
        s.len() > 0,
    ensures
        ascending(s.drop_last()),
        as_map(s.drop_last()) == as_map(s).remove(s.last().0),
{
    let t = s.drop_last();
    let last = s.last();
    assert forall|i: int, j: int| 0 <= i < j < t.len() implies precedes(
        #[trigger] t[i].0,
        #[trigger] t[j].0,
    ) by {
        assert(t[i] == s[i] && t[j] == s[j]);
    }
    assert forall|k: Seq<char>| as_map(t).dom().contains(k) <==> as_map(s).remove(
        last.0,
    ).dom().contains(k) by {
        if has_key(t, k) {
            let i = position_of(t, k);
            assert(s[i].0 == k);
            assert(precedes(s[i].0, s[s.len() - 1].0));
            lemma_precedes_irreflexive(k, 0);
        }
        if has_key(s, k) && k != last.0 {
            let i = position_of(s, k);
            assert(t[i].0 == k);
        }
    }
    assert forall|k: Seq<char>| as_map(t).dom().contains(k) implies #[trigger] as_map(t)[k]
        == as_map(s).remove(last.0)[k] by {
        let i = position_of(t, k);
        lemma_as_map_holds(t, i);
        assert(t[i] == s[i]);
        lemma_as_map_holds(s, i);
    }
    assert(as_map(t) =~= as_map(s).remove(last.0));
}

/// A mapping has one ascending sequence of entries only: two such sequences
/// that stand for the same mapping are the same sequence.
pub proof fn lemma_ascending_entries_unique(a: Seq<Entry>, b: Seq<Entry>)
    requires
        ascending(a),
        ascending(b),
        as_map(a) == as_map(b),
    ensures
        a == b,
    decreases a.len(),
{
    if a.len() == 0 {
        if b.len() > 0 {
            lemma_as_map_holds(b, 0);
            assert(has_key(a, b[0].0));
        }
        assert(a =~= b);
    } else {
        let x = a.last();
        lemma_as_map_holds(a, a.len() - 1);
        assert(has_key(b, x.0));
        let j = position_of(b, x.0);
        let y = b.last();
        lemma_as_map_holds(b, b.len() - 1);
        assert(has_key(a, y.0));
        let i = position_of(a, y.0);
        if j < b.len() - 1 {
            assert(precedes(b[j].0, b[b.len() - 1].0));
            if i < a.len() - 1 {
                assert(precedes(a[i].0, a[a.len() - 1].0));
                lemma_precedes_asymmetric(x.0, y.0, 0);
            } else {
                lemma_precedes_irreflexive(x.0, 0);
            }
        }
        assert(x.0 == y.0);
        assert(x == y);
        lemma_as_map_drop_last(a);
        lemma_as_map_drop_last(b);
        lemma_ascending_entries_unique(a.drop_last(), b.drop_last());
        assert(a =~= a.drop_last().push(x));
        assert(b =~= b.drop_last().push(y));
    }
}

/// The entries of the mapping `m` in ascending order of their keys.
pub open spec fn sorted_entries(m: Map<Seq<char>, Seq<char>>) -> Seq<Entry> {
    choose|s: Seq<Entry>| ascending(s) && as_map(s) == m
}

/// The ascending entries of a mapping are the entries it was made from, if
/// those were ascending.
pub proof fn lemma_sorted_entries_of(s: Seq<Entry>)
    requires
        ascending(s),
    ensures
        sorted_entries(as_map(s)) == s,
{
    let t = sorted_entries(as_map(s));
    lemma_ascending_entries_unique(t, s);
}

/// The line that exports one attribute: the key, `=`, the value, and a line
/// feed.
pub open spec fn attribute_line(e: Entry) -> Seq<char> {
    e.0 + seq!['='] + e.1 + seq!['\n']
}

/// The lines of the entries `s`, one after the other, in the order of `s`.
pub open spec fn rendered_entries(s: Seq<Entry>) -> Seq<char>
    decreases s.len(),
{
    if s.len() == 0 {
        Seq::empty()
    } else {
        rendered_entries(s.drop_last()) + attribute_line(s.last())
    }
}

/// The contents of the attributes file for the mapping `m`: one line for
/// each attribute, in ascending lexicographic order of the keys.
pub open spec fn rendered_attributes(m: Map<Seq<char>, Seq<char>>) -> Seq<char> {
    rendered_entries(sorted_entries(m))
}

/// The file depends on the mapping alone: entries that stand for the same
/// mapping give the same lines, in whatever order they were put in.
pub proof fn lemma_equal_mappings_render_equally(a: Seq<Entry>, b: Seq<Entry>)
    requires
        ascending(a),
        ascending(b),
        as_map(a) == as_map(b),
    ensures
        rendered_entries(a) == rendered_entries(b),
        rendered_attributes(as_map(a)) == rendered_entries(a),
{
    lemma_ascending_entries_unique(a, b);
    lemma_sorted_entries_of(a);
}

/// A set of attributes, each under a key of its own. The order in which
/// attributes were put in does not show.
#[derive(Debug, PartialEq, Eq)]
pub struct AttributeSet {
    entries: Vec<Attribute>,
}

impl AttributeSet {
    /// The attributes in ascending order of their keys.
    pub closed spec fn ordered(&self) -> Seq<Entry> {
        self.entries@.map_values(|a: Attribute| a@)
    }

    /// The mapping from key to value.
    pub open spec fn view(&self) -> Map<Seq<char>, Seq<char>> {
        as_map(self.ordered())
    }

    /// The attributes stand in ascending order of their keys. Every set
    /// that this library hands out is well formed.
    pub closed spec fn wf(&self) -> bool {
        ascending(self.ordered())
    }

    /// The attributes of a well-formed set are what `sorted_entries` gives
    /// for its mapping.
    pub proof fn lemma_ordered(&self)
        requires
            self.wf(),
        ensures
            ascending(self.ordered()),
            self.ordered() == sorted_entries(self@),
    {
        lemma_sorted_entries_of(self.ordered());
    }

    /// The empty set.
    pub fn new() -> (r: AttributeSet)
        ensures
            r.wf(),
            r@ == Map::<Seq<char>, Seq<char>>::empty(),
    {
        let r = AttributeSet { entries: Vec::new() };
        assert(r.ordered() =~= Seq::<Entry>::empty());
        assert(r@ =~= Map::<Seq<char>, Seq<char>>::empty());
        r
    }

    /// The number of attributes.
    pub fn len(&self) -> (n: usize)
        requires
            self.wf(),
        ensures
            n == self@.dom().len(),
            self@.dom().finite(),
    {
        proof {
            lemma_domain_size(self.ordered());
        }
        self.entries.len()
    }

    /// Puts `value` under `key`, in place of what was there.
    pub fn insert(&mut self, key: String, value: String)
        requires
            old(self).wf(),
        ensures
            final(self).wf(),
            final(self)@ == old(self)@.insert(key@, value@),
    {
        let mut at: usize = 0;
        while at < self.entries.len() && text_precedes(
            self.entries[at].key.as_str(),
            key.as_str(),
        )
            invariant
                at <= self.entries.len(),
                self.entries == old(self).entries,
                forall|j: int| 0 <= j < at ==> precedes(#[trigger] self.ordered()[j].0, key@),
            decreases self.entries.len() - at,
        {
            at += 1;
        }
        let ghost before = self.ordered();
        if at < self.entries.len() && same_text(self.entries[at].key.as_str(), key.as_str()) {
            proof {
                lemma_replace_value(before, at as int, value@);
                assert(self.entries@.update(at as int, Attribute { key, value }).map_values(
                    |a: Attribute| a@,
                ) =~= before.update(at as int, (before[at as int].0, value@)));
            }
            self.entries.set(at, Attribute { key, value });
        } else {
            proof {
                assert forall|j: int| at <= j < before.len() implies precedes(
                    key@,
                    #[trigger] before[j].0,
                ) by {
                    if !precedes(key@, before[at as int].0) {
                        lemma_precedes_total(key@, before[at as int].0, 0);
                    }
                    if j > at {
                        assert(precedes(before[at as int].0, before[j].0));
                        lemma_precedes_transitive(key@, before[at as int].0, before[j].0, 0);
                    }
                }
                lemma_insert_entry(before, at as int, (key@, value@));
                assert(self.entries@.insert(at as int, Attribute { key, value }).map_values(
                    |a: Attribute| a@,
                ) =~= before.insert(at as int, (key@, value@)));
            }
            self.entries.insert(at, Attribute { key, value });
        }
    }

    /// The value under `key`, if there is one.
    pub fn get(&self, key: &str) -> (r: Option<String>)
        requires
            self.wf(),
        ensures
            match r {
                Some(value) => self@.dom().contains(key@) && self@[key@] == value@,
                None => !self@.dom().contains(key@),
            },
    {
        let mut at: usize = 0;
        while at < self.entries.len()
            invariant
                self.wf(),
                at <= self.entries.len(),
                forall|j: int| 0 <= j < at ==> #[trigger] self.ordered()[j].0 != key@,
            decreases self.entries.len() - at,
        {
            if same_text(self.entries[at].key.as_str(), key) {
                proof {
                    lemma_as_map_holds(self.ordered(), at as int);
                }
                return Some(self.entries[at].value.clone());
            }
            at += 1;
        }
        None
    }

    /// The attributes in ascending order of their keys.
    pub fn to_vec(&self) -> (r: Vec<Attribute>)
        requires
            self.wf(),
        ensures
            r@.map_values(|a: Attribute| a@) == sorted_entries(self@),
    {
        proof {
            lemma_sorted_entries_of(self.ordered());
        }
        let mut r: Vec<Attribute> = Vec::new();
        let mut i: usize = 0;
        while i < self.entries.len()
            invariant
                i <= self.entries.len(),
                r@.map_values(|a: Attribute| a@) == self.ordered().take(i as int),
            decreases self.entries.len() - i,
        {
            let a = Attribute {
                key: self.entries[i].key.clone(),
                value: self.entries[i].value.clone(),
            };
            let ghost before = r@;
            let ghost entry = a@;
            r.push(a);
            proof {
                assert(entry == self.ordered()[i as int]);
                assert(r@.map_values(|a: Attribute| a@) =~= before.map_values(
                    |a: Attribute| a@,
                ).push(entry));
                assert(self.ordered().take(i + 1) =~= self.ordered().take(i as int).push(entry));
            }
            i += 1;
        }
        proof {
            assert(self.ordered().take(i as int) =~= self.ordered());
        }
        r
    }

    /// The contents of the attributes file.
    pub fn render(&self) -> (r: String)
        requires
            self.wf(),
        ensures
            r@ == rendered_attributes(self@),
    {
        proof {
            lemma_sorted_entries_of(self.ordered());
            reveal_strlit("=");
            reveal_strlit("\n");
            assert("="@ =~= seq!['=']);
            assert("\n"@ =~= seq!['\n']);
        }
        let mut r = String::new();
        let mut i: usize = 0;
        while i < self.entries.len()
            invariant
                i <= self.entries.len(),
                r@ == rendered_entries(self.ordered().take(i as int)),
                "="@ == seq!['='],
                "\n"@ == seq!['\n'],
            decreases self.entries.len() - i,
        {
            let ghost start = r@;
            r.append(self.entries[i].key.as_str());
            r.append("=");
            r.append(self.entries[i].value.as_str());
            r.append("\n");
            proof {
                let next = self.ordered().take(i + 1);
                assert(next.drop_last() =~= self.ordered().take(i as int));
                assert(next.last() == self.ordered()[i as int]);
                assert(r@ =~= start + attribute_line(next.last()));
            }
            i += 1;
        }
        proof {
            assert(self.ordered().take(i as int) =~= self.ordered());
        }
        r
    }
}

/// The mapping of ascending entries has as many keys as there are entries.
proof fn lemma_domain_size(s: Seq<Entry>)
    requires
        ascending(s),
    ensures
        as_map(s).dom().finite(),
        as_map(s).dom().len() == s.len(),
    decreases s.len(),
{
    if s.len() == 0 {
        assert(as_map(s).dom() =~= Set::<Seq<char>>::empty());
    } else {
        lemma_as_map_drop_last(s);
        lemma_domain_size(s.drop_last());
        lemma_as_map_holds(s, s.len() - 1);
        assert(as_map(s).dom() =~= as_map(s.drop_last()).dom().insert(s.last().0));
    }
}

/// The attributes file: `path`, and one line `KEY=VALUE` for each attribute,
/// in ascending lexicographic order of the keys. What the file holds depends
/// on the mapping alone.
pub fn write_attributes(path: &str, attrs: &AttributeSet) -> (r: FileWrite)
    requires
        attrs.wf(),
    ensures
        r.path@ == path@,
        r.contents@ == rendered_attributes(attrs@),
{
    FileWrite { path: String::from_str(path), contents: attrs.render() }
}

} // verus!
