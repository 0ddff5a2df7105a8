//! Subscriptions: which devices are wanted, and which handle the server gave to each.

use crate::text;
use crate::tracking::config;
use std::collections::HashMap;
use vstd::prelude::*;

verus! {

/// A set of device ids, in the order in which they came.
#[derive(Debug)]
pub struct DeviceSet {
    ids: Vec<String>,
}

impl View for DeviceSet {
    type V = Seq<Seq<char>>;

    closed spec fn view(&self) -> Seq<Seq<char>> {
        config::texts(self.ids@)
    }
}

/// The ids with `id` behind them, unless it is there already.
pub open spec fn with_id(ids: Seq<Seq<char>>, id: Seq<char>) -> Seq<Seq<char>> {
    if ids.contains(id) {
        ids
    } else {
        ids.push(id)
    }
}

/// The ids without `id`.
pub open spec fn without_id(ids: Seq<Seq<char>>, id: Seq<char>) -> Seq<Seq<char>> {
    if ids.contains(id) {
        ids.remove(ids.index_of(id))
    } else {
        ids
    }
}

/// The distinct ids of a list, each at its first place.
pub open spec fn distinct(ids: Seq<Seq<char>>) -> Seq<Seq<char>>
    decreases ids.len(),
{
    if ids.len() == 0 {
        Seq::empty()
    } else {
        with_id(distinct(ids.drop_last()), ids.last())
    }
}

impl DeviceSet {
    pub open spec fn wf(&self) -> bool {
        self@.no_duplicates()
    }

    pub fn new() -> (r: Self)
        ensures
            r.wf(),
            r@ == Seq::<Seq<char>>::empty(),
    {
        let r = DeviceSet { ids: Vec::new() };
        assert(r@ =~= Seq::<Seq<char>>::empty());
        r
    }

    /// The distinct ids of a list.
    pub fn from_list(list: &Vec<String>) -> (r: Self)
        ensures
            r.wf(),
            r@ == distinct(config::texts(list@)),
    {
        let mut r = DeviceSet::new();
        let mut i: usize = 0;
        let ghost all = config::texts(list@);
        while i < list.len()
            invariant
                i <= list@.len(),
                all == config::texts(list@),
                r.wf(),
                r@ == distinct(all.take(i as int)),
            decreases list@.len() - i,
        {
            assert(all.take(i + 1).drop_last() =~= all.take(i as int));
            r.insert(list[i].clone());
            i += 1;
        }
        assert(all.take(i as int) =~= all);
        r
    }

    fn find(&self, id: &str) -> (r: Option<usize>)
        requires
            self.wf(),
        ensures
            r is Some == self@.contains(id@),
            r is Some ==> r->0 < self@.len() && self@[r->0 as int] == id@ && self@.index_of(id@)
                == r->0,
    {
        let mut i: usize = 0;
        while i < self.ids.len()
            invariant
                i <= self.ids@.len(),
                self.wf(),
                forall|j: int| 0 <= j < i ==> self@[j] != id@,
            decreases self.ids@.len() - i,
        {
            if text::str_eq(self.ids[i].as_str(), id) {
                assert(self@[i as int] == id@);
                return Some(i);
            }
            assert(self@[i as int] != id@);
            i += 1;
        }
        None
    }

    pub fn insert(&mut self, id: String)
        requires
            old(self).wf(),
        ensures
            final(self).wf(),
            final(self)@ == with_id(old(self)@, id@),
    {
        if self.find(id.as_str()).is_none() {
            self.ids.push(id);
            assert(self@ =~= old(self)@.push(id@));
        }
    }

    pub fn remove(&mut self, id: &str)
        requires
            old(self).wf(),
        ensures
            final(self).wf(),
            final(self)@ == without_id(old(self)@, id@),
    {
        if let Some(i) = self.find(id) {
            self.ids.remove(i);
            assert(self@ =~= old(self)@.remove(i as int));
        }
    }

    pub fn len(&self) -> (r: usize)
        ensures
            r == self@.len(),
    {
        self.ids.len()
    }

    pub fn get(&self, i: usize) -> (r: &String)
        requires
            i < self@.len(),
        ensures
            r@ == self@[i as int],
    {
        &self.ids[i]
    }
}

/// Handles by device.
#[derive(Debug)]
pub struct HandleTable {
    rows: Vec<(String, u8)>,
}

/// The map that rows with distinct keys make.
pub open spec fn rows_map(rows: Seq<(Seq<char>, u8)>) -> Map<Seq<char>, u8>
    decreases rows.len(),
{
    if rows.len() == 0 {
        Map::empty()
    } else {
        rows_map(rows.drop_last()).insert(rows.last().0, rows.last().1)
    }
}

spec fn row_views(rows: Seq<(String, u8)>) -> Seq<(Seq<char>, u8)> {
    rows.map_values(|r: (String, u8)| (r.0@, r.1))
}

spec fn distinct_rows(rows: Seq<(Seq<char>, u8)>) -> bool {
    forall|i: int, j: int| 0 <= i < j < rows.len() ==> (#[trigger] rows[i]).0 != (#[trigger] rows[j]).0
}

proof fn lemma_rows_map(rows: Seq<(Seq<char>, u8)>)
    requires
        distinct_rows(rows),
    ensures
        forall|k: Seq<char>|
            #[trigger] rows_map(rows).contains_key(k) <==> exists|i: int|
                0 <= i < rows.len() && (#[trigger] rows[i]).0 == k,
        forall|i: int|
            0 <= i < rows.len() ==> rows_map(rows).contains_key((#[trigger] rows[i]).0) && rows_map(
                rows,
            )[rows[i].0] == rows[i].1,
    decreases rows.len(),
{
    if rows.len() > 0 {
        let head = rows.drop_last();
        lemma_rows_map(head);
        assert forall|k: Seq<char>| #[trigger] rows_map(rows).contains_key(k) implies exists|i: int|
            0 <= i < rows.len() && (#[trigger] rows[i]).0 == k by {
            if k == rows.last().0 {
                assert(rows[rows.len() - 1].0 == k);
            } else {
                assert(rows_map(head).contains_key(k));
                let i = choose|i: int| 0 <= i < head.len() && (#[trigger] head[i]).0 == k;
                assert(rows[i].0 == k);
            }
        }
        assert forall|i: int| 0 <= i < rows.len() implies rows_map(rows).contains_key(
            (#[trigger] rows[i]).0,
        ) && rows_map(rows)[rows[i].0] == rows[i].1 by {
            if i < head.len() {
                assert(head[i] == rows[i]);
                assert(rows[i].0 != rows[rows.len() - 1].0);
            }
        }
    }
}

impl View for HandleTable {
    type V = Map<Seq<char>, u8>;

    closed spec fn view(&self) -> Map<Seq<char>, u8> {
        rows_map(row_views(self.rows@))
    }
}

impl HandleTable {
    pub closed spec fn wf(&self) -> bool {
        distinct_rows(row_views(self.rows@))
    }

    pub fn new() -> (r: Self)
        ensures
            r.wf(),
            r@ == Map::<Seq<char>, u8>::empty(),
    {
        let r = HandleTable { rows: Vec::new() };
        assert(row_views(r.rows@).len() == 0);
        r
    }

    fn find(&self, id: &str) -> (r: Option<usize>)
        requires
            self.wf(),
        ensures
            r is Some == self@.contains_key(id@),
            r is Some ==> r->0 < self.rows@.len() && self.rows@[r->0 as int].0@ == id@,
    {
        let mut i: usize = 0;
        let ghost rows = row_views(self.rows@);
        proof {
            lemma_rows_map(rows);
        }
        while i < self.rows.len()
            invariant
                i <= self.rows@.len(),
                rows == row_views(self.rows@),
                forall|k: Seq<char>|
                    #[trigger] self@.contains_key(k) <==> exists|i: int|
                        0 <= i < rows.len() && (#[trigger] rows[i]).0 == k,
                forall|j: int| 0 <= j < i ==> (#[trigger] rows[j]).0 != id@,
            decreases self.rows@.len() - i,
        {
            if text::str_eq(self.rows[i].0.as_str(), id) {
                assert(rows[i as int].0 == id@);
                return Some(i);
            }
            assert(rows[i as int].0 != id@);
            i += 1;
        }
        None
    }

    /// Sets the handle of a device.
    pub fn insert(&mut self, id: String, sub: u8)
        requires
            old(self).wf(),
        ensures
            final(self).wf(),
            final(self)@ == old(self)@.insert(id@, sub),
    {
        let _ = self.remove(id.as_str());
        let ghost before = row_views(self.rows@);
        let ghost key = id@;
        let ghost mid = self@;
        proof {
            lemma_rows_map(before);
        }
        self.rows.push((id, sub));
        proof {
            let after = row_views(self.rows@);
            assert(after =~= before.push((key, sub)));
            assert(after.drop_last() =~= before);
            assert forall|i: int, j: int| 0 <= i < j < after.len() implies (#[trigger] after[i]).0
                != (#[trigger] after[j]).0 by {
                if j == before.len() {
                    assert(before[i].0 != key);
                } else {
                    assert(before[i] == after[i] && before[j] == after[j]);
                }
            }
            assert(mid.insert(key, sub) =~= old(self)@.insert(key, sub));
        }
    }

    /// Forgets a device; gives the handle it had.
    pub fn remove(&mut self, id: &str) -> (r: Option<u8>)
        requires
            old(self).wf(),
        ensures
            final(self).wf(),
            final(self)@ == old(self)@.remove(id@),
            r == (if old(self)@.contains_key(id@) {
                Some(old(self)@[id@])
            } else {
                None
            }),
    {
        let ghost before = row_views(self.rows@);
        proof {
            lemma_rows_map(before);
        }
        match self.find(id) {
            Some(i) => {
                let (_, sub) = self.rows.remove(i);
                proof {
                    let after = row_views(self.rows@);
                    assert(before[i as int].0 == id@);
                    assert(before[i as int].1 == sub);
                    assert(after =~= before.remove(i as int));
                    assert forall|a: int, b: int|
                        0 <= a < b < after.len() implies (#[trigger] after[a]).0 != (
                    #[trigger] after[b]).0 by {
                        let a1 = if a < i {
                            a
                        } else {
                            a + 1
                        };
                        let b1 = if b < i {
                            b
                        } else {
                            b + 1
                        };
                        assert(after[a] == before[a1] && after[b] == before[b1]);
                    }
                    lemma_rows_map(after);
                    assert forall|k: Seq<char>|
                        rows_map(after).contains_key(k) == rows_map(before).remove(
                            id@,
                        ).contains_key(k) by {
                        if rows_map(after).contains_key(k) {
                            let a = choose|a: int| 0 <= a < after.len() && (#[trigger] after[a]).0 == k;
                            let a1 = if a < i {
                                a
                            } else {
                                a + 1
                            };
                            assert(after[a] == before[a1]);
                            assert(before[a1].0 != before[i as int].0);
                        }
                        if rows_map(before).remove(id@).contains_key(k) {
                            let a = choose|a: int|
                                0 <= a < before.len() && (#[trigger] before[a]).0 == k;
                            assert(a != i);
                            let a1 = if a < i {
                                a
                            } else {
                                a - 1
                            };
                            assert(after[a1] == before[a]);
                        }
                    }
                    assert forall|k: Seq<char>| #[trigger] rows_map(after).contains_key(k) implies
                        rows_map(after)[k] == rows_map(before).remove(id@)[k] by {
                        let a = choose|a: int| 0 <= a < after.len() && (#[trigger] after[a]).0 == k;
                        let a1 = if a < i {
                            a
                        } else {
                            a + 1
                        };
                        assert(after[a] == before[a1]);
                        assert(before[a1].0 == k);
                    }
                    assert(rows_map(after) =~= rows_map(before).remove(id@));
                }
                Some(sub)
            },
            None => {
                assert(old(self)@.remove(id@) =~= old(self)@);
                None
            },
        }
    }

    pub fn clear(&mut self)
        ensures
            final(self).wf(),
            final(self)@ == Map::<Seq<char>, u8>::empty(),
    {
        self.rows.clear();
        assert(row_views(self.rows@).len() == 0);
    }
}

/// Devices by handle.
#[derive(Debug)]
pub struct DeviceTable {
    rows: HashMap<u8, String>,
}

impl View for DeviceTable {
    type V = Map<u8, Seq<char>>;

    closed spec fn view(&self) -> Map<u8, Seq<char>> {
        self.rows@.map_values(|s: String| s@)
    }
}

impl DeviceTable {
    pub fn new() -> (r: Self)
        ensures
            r@ == Map::<u8, Seq<char>>::empty(),
    {
        broadcast use vstd::std_specs::hash::group_hash_axioms;

        let r = DeviceTable { rows: HashMap::new() };
        assert(r@ =~= Map::<u8, Seq<char>>::empty());
        r
    }

    /// Sets the device of a handle.
    pub fn insert(&mut self, sub: u8, id: String)
        ensures
            final(self)@ == old(self)@.insert(sub, id@),
    {
        broadcast use vstd::std_specs::hash::group_hash_axioms;

        self.rows.insert(sub, id);
        assert(self@ =~= old(self)@.insert(sub, id@));
    }

    /// The device of a handle; empty if it is not known.
    pub fn get(&self, sub: u8) -> (r: String)
        ensures
            r@ == device_of(self@, sub),
    {
        broadcast use vstd::std_specs::hash::group_hash_axioms;

        match self.rows.get(&sub) {
            Some(s) => s.clone(),
            None => {
                let empty = String::new();
                assert(empty@ =~= Seq::<char>::empty());
                empty
            },
        }
    }

    pub fn clear(&mut self)
        ensures
            final(self)@ == Map::<u8, Seq<char>>::empty(),
    {
        broadcast use vstd::std_specs::hash::group_hash_axioms;

        self.rows.clear();
        assert(self@ =~= Map::<u8, Seq<char>>::empty());
    }
}

/// The device of a handle, empty if it is not known.
pub open spec fn device_of(m: Map<u8, Seq<char>>, sub: u8) -> Seq<char> {
    if m.contains_key(sub) {
        m[sub]
    } else {
        Seq::empty()
    }
}

/// A device that is no longer wanted leaves a gap that closes; the others keep their order. A new
/// one comes last.
pub proof fn law_wanted_devices_keep_their_order(ids: Seq<Seq<char>>, id: Seq<char>)
    ensures
        !ids.contains(id) ==> with_id(ids, id) == ids + seq![id] && without_id(ids, id) == ids,
        ids.contains(id) ==> with_id(ids, id) == ids && exists|k: int|
            0 <= k < ids.len() && #[trigger] ids[k] == id && without_id(ids, id) == ids.take(k)
                + ids.skip(k + 1),
        distinct(ids + seq![id]) == (if distinct(ids).contains(id) {
            distinct(ids)
        } else {
            distinct(ids) + seq![id]
        }),
        distinct(Seq::empty()).len() == 0,
{
    assert(ids.push(id) =~= ids + seq![id]);
    let all = ids + seq![id];
    assert(all.drop_last() =~= ids);
    assert(distinct(ids).push(id) =~= distinct(ids) + seq![id]);
    if ids.contains(id) {
        let k = ids.index_of(id);
        assert(ids[k] == id);
        assert(ids.remove(k) =~= ids.take(k) + ids.skip(k + 1));
    }
}

} // verus!
