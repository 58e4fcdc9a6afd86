//! The authorized keys of a user: keys that this tool manages, marked as
//! such, beside keys that the user added.

use vstd::prelude::*;
use crate::text::{chars_of, find, holds, index_of, lemma_index_of, same_text};

verus! {

/// What follows a managed key on its line.
pub const MANAGED_MARKER: &'static str = " # coreos-metadata";

/// A key, and whether this tool manages it.
pub type KeyView = (Seq<char>, bool);

/// One entry of the store.
#[derive(Clone, Debug, PartialEq, Eq)]
pub struct KeyEntry {
    pub key: String,
    pub managed: bool,
}

impl KeyEntry {
    /// The key, and whether this tool manages it.
    pub open spec fn view(&self) -> KeyView {
        (self.key@, self.managed)
    }
}

/// The authorized keys of one user, in the order of the file.
#[derive(Debug, PartialEq, Eq)]
pub struct AuthorizedKeys {
    pub entries: Vec<KeyEntry>,
}

impl AuthorizedKeys {
    /// The entries, in the order of the file.
    pub open spec fn view(&self) -> Seq<KeyView> {
        self.entries@.map_values(|e: KeyEntry| e@)
    }
}

/// The keys as texts.
pub open spec fn key_views(keys: Seq<String>) -> Seq<Seq<char>> {
    keys.map_values(|k: String| k@)
}

/// The entries of `s` that the user added, in their order.
pub open spec fn unmanaged(s: Seq<KeyView>) -> Seq<KeyView>
    decreases s.len(),
{
    if s.len() == 0 {
        Seq::empty()
    } else if s.last().1 {
        unmanaged(s.drop_last())
    } else {
        unmanaged(s.drop_last()).push(s.last())
    }
}

/// The set of the keys that this tool manages in `s`.
pub open spec fn managed_keys(s: Seq<KeyView>) -> Set<Seq<char>> {
    Set::new(|k: Seq<char>| s.contains((k, true)))
}

/// The keys of `keys` in the order in which each first occurs, each once.
pub open spec fn distinct(keys: Seq<Seq<char>>) -> Seq<Seq<char>>
    decreases keys.len(),
{
    if keys.len() == 0 {
        Seq::empty()
    } else if distinct(keys.drop_last()).contains(keys.last()) {
        distinct(keys.drop_last())
    } else {
        distinct(keys.drop_last()).push(keys.last())
    }
}

/// The keys, each marked as managed.
pub open spec fn as_managed(keys: Seq<Seq<char>>) -> Seq<KeyView> {
    keys.map_values(|k: Seq<char>| (k, true))
}

/// The store after `keys` were merged into `s`: the entries that the user
/// added stay as they are and where they are, the entries that this tool
/// managed leave, and each key of `keys` follows once, marked as managed.
pub open spec fn merged(s: Seq<KeyView>, keys: Seq<Seq<char>>) -> Seq<KeyView> {
    unmanaged(s) + as_managed(distinct(keys))
}

/// `distinct` holds the keys it was given, and no key twice.
pub proof fn lemma_distinct(keys: Seq<Seq<char>>)
    ensures
        forall|k: Seq<char>| distinct(keys).contains(k) <==> keys.contains(k),
        distinct(keys).no_duplicates(),
    decreases keys.len(),
{
    if keys.len() > 0 {
        let front = keys.drop_last();
        let last = keys.last();
        lemma_distinct(front);
        assert forall|k: Seq<char>| distinct(keys).contains(k) <==> keys.contains(k) by {
            if keys.contains(k) {
                let i = choose|i: int| 0 <= i < keys.len() && keys[i] == k;
                if i < front.len() {
                    assert(front[i] == k);
                    assert(front.contains(k));
                }
            }
            if front.contains(k) {
                let i = choose|i: int| 0 <= i < front.len() && front[i] == k;
                assert(keys[i] == k);
            }
            assert(keys[keys.len() - 1] == last);
            if !distinct(front).contains(last) {
                let d = distinct(front).push(last);
                assert(d[d.len() - 1] == last);
                if distinct(front).contains(k) {
                    let i = choose|i: int| 0 <= i < distinct(front).len() && distinct(front)[i] == k;
                    assert(d[i] == k);
                }
            }
        }
    }
}

/// The entries that the user added, of two stores one after the other.
proof fn lemma_unmanaged_concat(a: Seq<KeyView>, b: Seq<KeyView>)
    ensures
        unmanaged(a + b) == unmanaged(a) + unmanaged(b),
    decreases b.len(),
{
    if b.len() == 0 {
        assert(a + b =~= a);
        assert(unmanaged(a) + unmanaged(b) =~= unmanaged(a));
    } else {
        assert((a + b).drop_last() =~= a + b.drop_last());
        lemma_unmanaged_concat(a, b.drop_last());
        assert((a + b).last() == b.last());
        if !b.last().1 {
            assert(unmanaged(a + b) =~= unmanaged(a) + unmanaged(b));
        }
    }
}

/// What `unmanaged` keeps is unmanaged, and is kept when asked again.
proof fn lemma_unmanaged_stable(s: Seq<KeyView>)
    ensures
        forall|i: int| 0 <= i < unmanaged(s).len() ==> !(#[trigger] unmanaged(s)[i]).1,
        unmanaged(unmanaged(s)) == unmanaged(s),
    decreases s.len(),
{
    if s.len() > 0 {
        lemma_unmanaged_stable(s.drop_last());
        if !s.last().1 {
            let u = unmanaged(s.drop_last());
            assert(u.push(s.last()).drop_last() =~= u);
        }
    }
}

/// Managed entries alone leave nothing that the user added.
proof fn lemma_unmanaged_of_managed(keys: Seq<Seq<char>>)
    ensures
        unmanaged(as_managed(keys)) == Seq::<KeyView>::empty(),
    decreases keys.len(),
{
    if keys.len() > 0 {
        assert(as_managed(keys).drop_last() =~= as_managed(keys.drop_last()));
        lemma_unmanaged_of_managed(keys.drop_last());
    }
}

/// A merge leaves every entry that the user added as it was and where it
/// was.
pub proof fn lemma_merge_preserves_unmanaged(s: Seq<KeyView>, keys: Seq<Seq<char>>)
    ensures
        unmanaged(merged(s, keys)) == unmanaged(s),
{
    lemma_unmanaged_concat(unmanaged(s), as_managed(distinct(keys)));
    lemma_unmanaged_stable(s);
    lemma_unmanaged_of_managed(distinct(keys));
    assert(unmanaged(s) + Seq::<KeyView>::empty() =~= unmanaged(s));
}

/// After a merge the managed keys are the keys that were merged, as a set.
pub proof fn lemma_merge_sets_managed(s: Seq<KeyView>, keys: Seq<Seq<char>>)
    ensures
        managed_keys(merged(s, keys)) == keys.to_set(),
{
    lemma_unmanaged_stable(s);
    lemma_distinct(keys);
    let u = unmanaged(s);
    let m = as_managed(distinct(keys));
    assert forall|k: Seq<char>| managed_keys(merged(s, keys)).contains(k) <==> keys.to_set().contains(
        k,
    ) by {
        if merged(s, keys).contains((k, true)) {
            let i = choose|i: int| 0 <= i < (u + m).len() && (u + m)[i] == (k, true);
            if i < u.len() {
                assert(u[i] == (k, true));
            } else {
                assert(m[i - u.len()] == (k, true));
                assert(distinct(keys)[i - u.len()] == k);
                assert(distinct(keys).contains(k));
            }
        }
        if keys.contains(k) {
            assert(distinct(keys).contains(k));
            let j = choose|j: int| 0 <= j < distinct(keys).len() && distinct(keys)[j] == k;
            assert((u + m)[u.len() + j] == (k, true));
        }
    }
    assert(managed_keys(merged(s, keys)) =~= keys.to_set());
}

/// Merging one list and then another leaves what merging the second list
/// alone leaves: the second list replaces the first, and what the user added
/// is there throughout.
pub proof fn lemma_later_merge_replaces(
    s: Seq<KeyView>,
    first: Seq<Seq<char>>,
    second: Seq<Seq<char>>,
)
    ensures
        merged(merged(s, first), second) == merged(s, second),
        managed_keys(merged(merged(s, first), second)) == second.to_set(),
        unmanaged(merged(merged(s, first), second)) == unmanaged(s),
        unmanaged(merged(s, first)) == unmanaged(s),
{
    lemma_merge_preserves_unmanaged(s, first);
    lemma_merge_preserves_unmanaged(s, second);
    lemma_merge_sets_managed(s, second);
}

/// Merging the same list twice changes nothing more.
pub proof fn lemma_merge_idempotent(s: Seq<KeyView>, keys: Seq<Seq<char>>)
    ensures
        merged(merged(s, keys), keys) == merged(s, keys),
{
    lemma_later_merge_replaces(s, keys, keys);
}

/// Whether the entries of `entries` from `from` on hold `key`.
fn holds_key(entries: &Vec<KeyEntry>, from: usize, key: &str) -> (r: bool)
    requires
        from <= entries.len(),
    ensures
        r == exists|i: int| from <= i < entries.len() && (#[trigger] entries@[i]).key@ == key@,
{
    let mut i: usize = from;
    while i < entries.len()
        invariant
            from <= i <= entries.len(),
            forall|j: int| from <= j < i ==> (#[trigger] entries@[j]).key@ != key@,
        decreases entries.len() - i,
    {
        if same_text(entries[i].key.as_str(), key) {
            return true;
        }
        i += 1;
    }
    false
}

/// Merges `keys` into `store`: the entries that the user added stay, the
/// entries that this tool managed are replaced by `keys`, each key once.
pub fn write_ssh_keys(store: &AuthorizedKeys, keys: &Vec<String>) -> (r: AuthorizedKeys)
    ensures
        r@ == merged(store@, key_views(keys@)),
{
    let mut entries: Vec<KeyEntry> = Vec::new();
    let mut i: usize = 0;
    while i < store.entries.len()
        invariant
            i <= store.entries.len(),
            entries@.map_values(|e: KeyEntry| e@) == unmanaged(store@.take(i as int)),
        decreases store.entries.len() - i,
    {
        proof {
            assert(store@.take(i + 1).drop_last() =~= store@.take(i as int));
            assert(store@.take(i + 1).last() == store@[i as int]);
        }
        if !store.entries[i].managed {
            let entry = KeyEntry { key: store.entries[i].key.clone(), managed: false };
            let ghost before = entries@;
            let ghost added = entry@;
            entries.push(entry);
            proof {
                assert(entries@.map_values(|e: KeyEntry| e@) =~= before.map_values(
                    |e: KeyEntry| e@,
                ).push(added));
            }
        }
        i += 1;
    }
    proof {
        assert(store@.take(i as int) =~= store@);
    }
    let kept: usize = entries.len();
    let ghost all = key_views(keys@);
    let mut j: usize = 0;
    while j < keys.len()
        invariant
            j <= keys.len(),
            kept <= entries.len(),
            all == key_views(keys@),
            kept == unmanaged(store@).len(),
            entries@.map_values(|e: KeyEntry| e@) == unmanaged(store@) + as_managed(
                distinct(all.take(j as int)),
            ),
        decreases keys.len() - j,
    {
        let ghost seen = distinct(all.take(j as int));
        let ghost before = entries@;
        proof {
            assert(all.take(j + 1).drop_last() =~= all.take(j as int));
            assert(all.take(j + 1).last() == keys@[j as int]@);
        }
        let present = holds_key(&entries, kept, keys[j].as_str());
        proof {
            let views = before.map_values(|e: KeyEntry| e@);
            assert(views == unmanaged(store@) + as_managed(seen));
            assert(views.len() == before.len());
            assert(as_managed(seen).len() == seen.len());
            if present {
                let i = choose|i: int|
                    kept <= i < before.len() && (#[trigger] before[i]).key@ == keys@[j as int]@;
                assert(views[i] == before[i]@);
                assert(as_managed(seen)[i - kept] == views[i]);
                assert(seen[i - kept] == keys@[j as int]@);
                assert(seen.contains(keys@[j as int]@));
            } else if seen.contains(keys@[j as int]@) {
                let i = choose|i: int| 0 <= i < seen.len() && seen[i] == keys@[j as int]@;
                assert(views[kept + i] == as_managed(seen)[i]);
                assert(views[kept + i] == before[kept + i]@);
                assert(before[kept + i].key@ == keys@[j as int]@);
            }
        }
        if !present {
            let entry = KeyEntry { key: keys[j].clone(), managed: true };
            let ghost added = entry@;
            entries.push(entry);
            proof {
                assert(entries@.map_values(|e: KeyEntry| e@) =~= before.map_values(
                    |e: KeyEntry| e@,
                ).push(added));
                assert(as_managed(seen.push(keys@[j as int]@)) =~= as_managed(seen).push(added));
                assert(entries@.map_values(|e: KeyEntry| e@) =~= unmanaged(store@) + as_managed(
                    seen.push(keys@[j as int]@),
                ));
            }
        }
        j += 1;
    }
    proof {
        assert(all.take(j as int) =~= all);
    }
    AuthorizedKeys { entries }
}

/// Whether `line` ends with `suffix`.
pub open spec fn ends_with(line: Seq<char>, suffix: Seq<char>) -> bool {
    line.len() >= suffix.len() && line.subrange(line.len() - suffix.len(), line.len() as int)
        == suffix
}

/// The entry that a line of the file stands for: a line that ends with the
/// marker is a managed key, the key being what stands before the marker; any
/// other line is a key that the user added.
pub open spec fn parsed_line(line: Seq<char>) -> KeyView {
    if ends_with(line, MANAGED_MARKER@) {
        (line.take(line.len() - MANAGED_MARKER@.len()), true)
    } else {
        (line, false)
    }
}

/// The entries of the lines of `s` that begin at `start` or later. A line
/// ends before a line feed or with the text; empty lines stand for nothing.
pub open spec fn parsed_from(s: Seq<char>, start: int) -> Seq<KeyView>
    decreases s.len() - start,
    when 0 <= start <= s.len()
    via parsed_from_decreases
{
    let end = index_of(s, '\n', start, s.len() as int);
    let rest = if end >= s.len() {
        Seq::empty()
    } else {
        parsed_from(s, end + 1)
    };
    if end == start {
        rest
    } else {
        seq![parsed_line(s.subrange(start, end))] + rest
    }
}

#[via_fn]
proof fn parsed_from_decreases(s: Seq<char>, start: int) {
    lemma_index_of(s, '\n', start, s.len() as int);
}

/// The store that the file contents `s` stand for.
pub open spec fn parsed_store(s: Seq<char>) -> Seq<KeyView> {
    parsed_from(s, 0)
}

/// The line of an entry, with its line feed: the key, and behind a managed
/// key the marker.
pub open spec fn rendered_entry(e: KeyView) -> Seq<char> {
    if e.1 {
        e.0 + MANAGED_MARKER@ + seq!['\n']
    } else {
        e.0 + seq!['\n']
    }
}

/// The file contents of the store `s`: the lines of its entries, in their
/// order.
pub open spec fn rendered_store(s: Seq<KeyView>) -> Seq<char>
    decreases s.len(),
{
    if s.len() == 0 {
        Seq::empty()
    } else {
        rendered_store(s.drop_last()) + rendered_entry(s.last())
    }
}

impl AuthorizedKeys {
    /// The store that the file contents `text` stand for.
    pub fn parse(text: &str) -> (r: AuthorizedKeys)
        ensures
            r@ == parsed_store(text@),
    {
        let cs = chars_of(text);
        let marker = chars_of(MANAGED_MARKER);
        let mut entries: Vec<KeyEntry> = Vec::new();
        let mut start: usize = 0;
        loop
            invariant
                cs@ == text@,
                marker@ == MANAGED_MARKER@,
                start <= cs.len(),
                parsed_store(text@) == entries@.map_values(|e: KeyEntry| e@) + parsed_from(
                    text@,
                    start as int,
                ),
            decreases cs.len() - start,
        {
            let end = find(&cs, '\n', start, cs.len());
            let ghost before = entries@;
            let ghost line = text@.subrange(start as int, end as int);
            if end > start {
                let managed = end - start >= marker.len() && holds(
                    &cs,
                    end - marker.len(),
                    &marker,
                );
                let stop = if managed {
                    end - marker.len()
                } else {
                    end
                };
                proof {
                    if end - start >= marker.len() {
                        assert(line.subrange(line.len() - marker.len(), line.len() as int)
                            =~= cs@.subrange(end - marker.len(), end as int));
                    }
                    assert(managed == ends_with(line, MANAGED_MARKER@));
                    assert(parsed_line(line).0 =~= text@.subrange(start as int, stop as int));
                }
                let entry = KeyEntry {
                    key: String::from_str(text.substring_char(start, stop)),
                    managed,
                };
                let ghost added = entry@;
                entries.push(entry);
                proof {
                    assert(added == parsed_line(line));
                    assert(entries@.map_values(|e: KeyEntry| e@) =~= before.map_values(
                        |e: KeyEntry| e@,
                    ).push(added));
                }
            }
            proof {
                let rest = if end >= cs.len() {
                    Seq::<KeyView>::empty()
                } else {
                    parsed_from(text@, end + 1)
                };
                assert(entries@.map_values(|e: KeyEntry| e@) + rest =~= before.map_values(
                    |e: KeyEntry| e@,
                ) + parsed_from(text@, start as int));
            }
            if end >= cs.len() {
                proof {
                    assert(entries@.map_values(|e: KeyEntry| e@) + Seq::<KeyView>::empty()
                        =~= entries@.map_values(|e: KeyEntry| e@));
                }
                return AuthorizedKeys { entries };
            }
            start = end + 1;
        }
    }

    /// The file contents of this store.
    pub fn render(&self) -> (r: String)
        ensures
            r@ == rendered_store(self@),
    {
        proof {
            reveal_strlit("\n");
            assert("\n"@ =~= seq!['\n']);
        }
        let mut r = String::new();
        let mut i: usize = 0;
        while i < self.entries.len()
            invariant
                i <= self.entries.len(),
                "\n"@ == seq!['\n'],
                r@ == rendered_store(self@.take(i as int)),
            decreases self.entries.len() - i,
        {
            let ghost start = r@;
            r.append(self.entries[i].key.as_str());
            if self.entries[i].managed {
                r.append(MANAGED_MARKER);
            }
            r.append("\n");
            proof {
                let next = self@.take(i + 1);
                assert(next.drop_last() =~= self@.take(i as int));
                assert(next.last() == self@[i as int]);
                assert(r@ =~= start + rendered_entry(next.last()));
            }
            i += 1;
        }
        proof {
            assert(self@.take(i as int) =~= self@);
        }
        r
    }
}

/// Whether an entry can be written to the file and read back: its key is
/// on one line, the line is not empty, and a key that the user added does
/// not end with the marker.
pub open spec fn storable(e: KeyView) -> bool {
    &&& forall|i: int| 0 <= i < e.0.len() ==> e.0[i] != '\n'
    &&& e.1 || e.0.len() > 0
    &&& !e.1 ==> !ends_with(e.0, MANAGED_MARKER@)
}

/// The position that `index_of` gives is the first that holds the
/// character.
proof fn lemma_index_of_is(s: Seq<char>, c: char, from: int, to: int, at: int)
    requires
        from <= at <= to,
        forall|j: int| from <= j < at ==> s[j] != c,
        at < to ==> s[at] == c,
    ensures
        index_of(s, c, from, to) == at,
{
    lemma_index_of(s, c, from, to);
}

/// A line that is added to a text of whole lines adds its entry to those
/// of the text.
proof fn lemma_parse_appended_line(x: Seq<char>, line: Seq<char>, start: int)
    requires
        0 <= start <= x.len(),
        x.len() == 0 || x[x.len() - 1] == '\n',
        line.len() > 0,
        forall|i: int| 0 <= i < line.len() ==> line[i] != '\n',
    ensures
        parsed_from(x + line + seq!['\n'], start) == parsed_from(x, start) + seq![
            parsed_line(line),
        ],
    decreases x.len() - start,
{
    let y = x + line + seq!['\n'];
    if start == x.len() {
        lemma_index_of_is(x, '\n', start, x.len() as int, start);
        assert(parsed_from(x, start) =~= Seq::<KeyView>::empty());
        let end = start + line.len();
        assert forall|j: int| start <= j < end implies y[j] != '\n' by {
            assert(y[j] == line[j - start]);
        }
        assert(y[end] == '\n');
        lemma_index_of_is(y, '\n', start, y.len() as int, end);
        lemma_index_of_is(y, '\n', end + 1, y.len() as int, end + 1);
        assert(parsed_from(y, end + 1) =~= Seq::<KeyView>::empty());
        assert(y.subrange(start, end) =~= line);
        assert(parsed_from(y, start) =~= seq![parsed_line(line)]);
    } else {
        lemma_index_of(x, '\n', start, x.len() as int);
        let end = index_of(x, '\n', start, x.len() as int);
        assert(end < x.len());
        assert forall|j: int| start <= j < end implies y[j] != '\n' by {
            assert(y[j] == x[j]);
        }
        assert(y[end] == x[end]);
        lemma_index_of_is(y, '\n', start, y.len() as int, end);
        lemma_parse_appended_line(x, line, end + 1);
        assert(y.subrange(start, end) =~= x.subrange(start, end));
        let rest = parsed_from(x, end + 1);
        if end == start {
            assert(parsed_from(y, start) == rest + seq![parsed_line(line)]);
        } else {
            let entry = parsed_line(x.subrange(start, end));
            assert(seq![entry] + (rest + seq![parsed_line(line)]) =~= (seq![entry] + rest) + seq![
                parsed_line(line),
            ]);
        }
    }
}

/// The file contents of a store are whole lines.
proof fn lemma_rendered_store_whole_lines(s: Seq<KeyView>)
    ensures
        rendered_store(s).len() == 0 || rendered_store(s)[rendered_store(s).len() - 1] == '\n',
    decreases s.len(),
{
    if s.len() > 0 {
        let t = rendered_store(s);
        let line = rendered_entry(s.last());
        assert(t[t.len() - 1] == line[line.len() - 1]);
    }
}

/// What was written is read back: the file contents of a store of storable
/// entries stand for that store.
pub proof fn lemma_parse_of_render(s: Seq<KeyView>)
    requires
        forall|i: int| 0 <= i < s.len() ==> storable(#[trigger] s[i]),
    ensures
        parsed_store(rendered_store(s)) == s,
    decreases s.len(),
{
    if s.len() == 0 {
        let empty = rendered_store(s);
        lemma_index_of_is(empty, '\n', 0, 0, 0);
        assert(parsed_from(empty, 0) =~= Seq::<KeyView>::empty());
        assert(s =~= Seq::<KeyView>::empty());
    } else {
        let front = s.drop_last();
        let last = s.last();
        assert forall|i: int| 0 <= i < front.len() implies storable(#[trigger] front[i]) by {
            assert(front[i] == s[i]);
        }
        lemma_parse_of_render(front);
        lemma_rendered_store_whole_lines(front);
        assert(storable(s[s.len() - 1]));
        reveal_strlit(" # coreos-metadata");
        let marker = MANAGED_MARKER@;
        let line = if last.1 {
            last.0 + marker
        } else {
            last.0
        };
        assert forall|i: int| 0 <= i < line.len() implies line[i] != '\n' by {
            if i >= last.0.len() {
                assert(line[i] == marker[i - last.0.len()]);
            }
        }
        assert(rendered_store(front) + rendered_entry(last) =~= rendered_store(front) + line
            + seq!['\n']);
        lemma_parse_appended_line(rendered_store(front), line, 0);
        if last.1 {
            assert(line.subrange(line.len() - marker.len(), line.len() as int) =~= marker);
            assert(line.take(line.len() - marker.len()) =~= last.0);
        }
        assert(parsed_line(line) == last);
        assert(front + seq![last] =~= s);
    }
}

/// A second update with the same keys leaves the file as the first update
/// left it, provided that what the file holds and the keys can be written
/// and read back.
pub proof fn lemma_update_twice_gives_same_file(s: Seq<KeyView>, keys: Seq<Seq<char>>)
    requires
        forall|i: int| 0 <= i < merged(s, keys).len() ==> storable(#[trigger] merged(s, keys)[i]),
    ensures
        rendered_store(merged(parsed_store(rendered_store(merged(s, keys))), keys))
            == rendered_store(merged(s, keys)),
{
    lemma_parse_of_render(merged(s, keys));
    lemma_merge_idempotent(s, keys);
}

/// The indices that a listing of keys names, from the line that begins at
/// `start` on. Each line of a listing is `index=name`; its index is what
/// stands before the first `=`, or the whole line where there is none. Empty
/// lines name nothing.
pub open spec fn listed_from(s: Seq<char>, start: int) -> Seq<Seq<char>>
    decreases s.len() - start,
    when 0 <= start <= s.len()
    via listed_from_decreases
{
    let end = index_of(s, '\n', start, s.len() as int);
    let rest = if end >= s.len() {
        Seq::empty()
    } else {
        listed_from(s, end + 1)
    };
    if end == start {
        rest
    } else {
        seq![s.subrange(start, index_of(s, '=', start, end))] + rest
    }
}

#[via_fn]
proof fn listed_from_decreases(s: Seq<char>, start: int) {
    lemma_index_of(s, '\n', start, s.len() as int);
}

/// The indices that the listing `s` names, in the order of its lines.
pub open spec fn listed_indices(s: Seq<char>) -> Seq<Seq<char>> {
    listed_from(s, 0)
}

/// The indices that a listing of keys names, in the order of its lines.
pub fn key_indices(listing: &str) -> (r: Vec<String>)
    ensures
        key_views(r@) == listed_indices(listing@),
{
    let cs = chars_of(listing);
    let mut indices: Vec<String> = Vec::new();
    let mut start: usize = 0;
    loop
        invariant
            cs@ == listing@,
            start <= cs.len(),
            listed_indices(listing@) == key_views(indices@) + listed_from(listing@, start as int),
        decreases cs.len() - start,
    {
        let end = find(&cs, '\n', start, cs.len());
        let ghost before = indices@;
        if end > start {
            let stop = find(&cs, '=', start, end);
            indices.push(String::from_str(listing.substring_char(start, stop)));
            proof {
                assert(key_views(indices@) =~= key_views(before).push(
                    listing@.subrange(start as int, stop as int),
                ));
            }
        }
        proof {
            let rest = if end >= cs.len() {
                Seq::<Seq<char>>::empty()
            } else {
                listed_from(listing@, end + 1)
            };
            assert(key_views(indices@) + rest =~= key_views(before) + listed_from(
                listing@,
                start as int,
            ));
        }
        if end >= cs.len() {
            proof {
                assert(key_views(indices@) + Seq::<Seq<char>>::empty() =~= key_views(indices@));
            }
            return indices;
        }
        start = end + 1;
    }
}

} // verus!
