//! A small byte-string keyed mapping used for request headers and
//! multipart disposition attributes.
//!
//! Entries are kept in a vector with pairwise-distinct keys, and the
//! abstract view is a `Map<Seq<u8>, Seq<u8>>`. Inserting an existing
//! key overwrites its value: last write wins.

use vstd::prelude::*;

verus! {

/// The mapping described by an entry list: later entries override
/// earlier ones with the same key.
pub open spec fn map_of(entries: Seq<(Seq<u8>, Seq<u8>)>) -> Map<Seq<u8>, Seq<u8>>
    decreases entries.len(),
{
    if entries.len() == 0 {
        Map::empty()
    } else {
        map_of(entries.drop_last()).insert(entries.last().0, entries.last().1)
    }
}

/// Header mapping from byte-string names to byte-string values,
/// one entry per name.
pub struct HeaderMap {
    entries: Vec<(Vec<u8>, Vec<u8>)>,
}

impl View for HeaderMap {
    type V = Map<Seq<u8>, Seq<u8>>;

    open spec fn view(&self) -> Map<Seq<u8>, Seq<u8>> {
        map_of(self.entries_view())
    }
}

impl HeaderMap {
    /// The entry list with both components abstracted to sequences.
    pub closed spec fn entries_view(&self) -> Seq<(Seq<u8>, Seq<u8>)> {
        self.entries@.map_values(|p: (Vec<u8>, Vec<u8>)| (p.0@, p.1@))
    }

    /// Well-formed: no key occurs twice.
    pub open spec fn wf(&self) -> bool {
        forall|i: int, j: int|
            0 <= i < j < self.entries_view().len() ==> self.entries_view()[i].0
                != self.entries_view()[j].0
    }

    /// An empty mapping.
    pub fn new() -> (r: HeaderMap)
        ensures
            r.wf(),
            r@ == Map::<Seq<u8>, Seq<u8>>::empty(),
            r.entries_view() == Seq::<(Seq<u8>, Seq<u8>)>::empty(),
    {
        let r = HeaderMap { entries: Vec::new() };
        proof {
            assert(r.entries_view() =~= Seq::<(Seq<u8>, Seq<u8>)>::empty());
        }
        r
    }

    /// Number of distinct header names held.
    pub fn len(&self) -> (r: usize)
        requires
            self.wf(),
        ensures
            r == self@.dom().len(),
    {
        proof {
            lemma_map_of_dom(self.entries_view());
        }
        self.entries.len()
    }

    /// Inserts `key -> value`, overwriting any previous value for
    /// `key`: a repeated name takes the later value.
    pub fn insert(&mut self, key: Vec<u8>, value: Vec<u8>)
        requires
            old(self).wf(),
        ensures
            final(self).wf(),
            final(self)@ == old(self)@.insert(key@, value@),
    {
        let ghost pre = self.entries_view();
        let n = self.entries.len();
        let mut i: usize = 0;
        while i < n
            invariant
                i <= n,
                n == self.entries@.len(),
                pre == self.entries_view(),
                pre.len() == n,
                old(self).wf(),
                *self == *old(self),
                forall|j: int| 0 <= j < i ==> self.entries_view()[j].0 != key@,
            decreases n - i,
        {
            if crate::scan::bytes_eq(self.entries[i].0.as_slice(), key.as_slice()) {
                let ghost idx = i as int;
                proof {
                    assert(pre[idx].0 == key@);
                }
                self.entries[i].1 = value;
                proof {
                    assert(self.entries_view() =~= pre.update(idx, (pre[idx].0, value@)));
                    lemma_map_of_update(pre, idx, value@);
                }
                return ;
            }
            i += 1;
        }
        self.entries.push((key, value));
        proof {
            let post = self.entries_view();
            assert(post =~= pre.push((key@, value@)));
            assert(post.drop_last() =~= pre);
            lemma_map_of_absent(pre, key@);
            assert forall|a: int, b: int| 0 <= a < b < post.len() implies post[a].0 != post[b].0 by {
                if b == pre.len() {
                    assert(post[a].0 == pre[a].0);
                }
            }
        }
    }

    /// Looks `key` up; `Some` exactly when the mapping holds it.
    pub fn get(&self, key: &[u8]) -> (r: Option<&Vec<u8>>)
        requires
            self.wf(),
        ensures
            match r {
                Some(v) => self@.contains_key(key@) && self@[key@] == v@,
                None => !self@.contains_key(key@),
            },
    {
        let n = self.entries.len();
        let mut i: usize = 0;
        while i < n
            invariant
                i <= n,
                n == self.entries@.len(),
                self.wf(),
                forall|j: int| 0 <= j < i ==> self.entries_view()[j].0 != key@,
            decreases n - i,
        {
            if crate::scan::bytes_eq(self.entries[i].0.as_slice(), key) {
                proof {
                    lemma_map_of_present(self.entries_view(), i as int);
                }
                return Some(&self.entries[i].1);
            }
            i += 1;
        }
        proof {
            lemma_map_of_absent(self.entries_view(), key@);
        }
        None
    }
}

/// A key held by no entry is not in the mapping.
proof fn lemma_map_of_absent(entries: Seq<(Seq<u8>, Seq<u8>)>, k: Seq<u8>)
    requires
        forall|i: int| 0 <= i < entries.len() ==> entries[i].0 != k,
    ensures
        !map_of(entries).contains_key(k),
    decreases entries.len(),
{
    if entries.len() > 0 {
        lemma_map_of_absent(entries.drop_last(), k);
    }
}

/// With distinct keys, entry `i` is in the mapping with its value.
proof fn lemma_map_of_present(entries: Seq<(Seq<u8>, Seq<u8>)>, i: int)
    requires
        0 <= i < entries.len(),
        forall|a: int, b: int| 0 <= a < b < entries.len() ==> entries[a].0 != entries[b].0,
    ensures
        map_of(entries).contains_key(entries[i].0),
        map_of(entries)[entries[i].0] == entries[i].1,
    decreases entries.len(),
{
    if i == entries.len() - 1 {
    } else {
        lemma_map_of_present(entries.drop_last(), i);
        assert(entries.last().0 != entries[i].0);
    }
}

/// With distinct keys, the mapping's domain has one key per entry.
proof fn lemma_map_of_dom(entries: Seq<(Seq<u8>, Seq<u8>)>)
    requires
        forall|a: int, b: int| 0 <= a < b < entries.len() ==> entries[a].0 != entries[b].0,
    ensures
        map_of(entries).dom().finite(),
        map_of(entries).dom().len() == entries.len(),
    decreases entries.len(),
{
    if entries.len() == 0 {
        assert(map_of(entries).dom() =~= Set::<Seq<u8>>::empty());
    } else {
        let pre = entries.drop_last();
        lemma_map_of_dom(pre);
        lemma_map_of_absent(pre, entries.last().0);
        assert(map_of(entries).dom() =~= map_of(pre).dom().insert(entries.last().0));
    }
}

/// Replacing the value of entry `i`, whose key is `k`, changes the
/// mapping as an insert of `k` does.
proof fn lemma_map_of_update(entries: Seq<(Seq<u8>, Seq<u8>)>, i: int, v: Seq<u8>)
    requires
        0 <= i < entries.len(),
        forall|a: int, b: int| 0 <= a < b < entries.len() ==> entries[a].0 != entries[b].0,
    ensures
        map_of(entries.update(i, (entries[i].0, v))) == map_of(entries).insert(entries[i].0, v),
    decreases entries.len(),
{
    let upd = entries.update(i, (entries[i].0, v));
    if i == entries.len() - 1 {
        assert(upd.drop_last() =~= entries.drop_last());
        assert(map_of(upd) =~= map_of(entries).insert(entries[i].0, v));
    } else {
        lemma_map_of_update(entries.drop_last(), i, v);
        assert(upd.drop_last() =~= entries.drop_last().update(i, (entries[i].0, v)));
        assert(upd.last() == entries.last());
        assert(entries.last().0 != entries[i].0);
        assert(map_of(upd) =~= map_of(entries).insert(entries[i].0, v));
    }
}

} // verus!
