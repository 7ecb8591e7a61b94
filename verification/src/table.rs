//! The shared status table: a mapping from contact name to current status,
//! held as a vector of entries sorted by name so that snapshot iteration is
//! deterministic. Keys are inserted during bootstrap and only updated, never
//! added, afterwards.

use vstd::prelude::*;
use crate::message::{SipStatus, StatusModel};
use crate::text::{lemma_seq_lt_connected, lemma_seq_lt_irrefl, lemma_seq_lt_trans, seq_lt, str_eq,
    str_lt};

verus! {

/// Entries are strictly ascending by name.
pub open spec fn entries_sorted(es: Seq<(Seq<char>, StatusModel)>) -> bool {
    forall|i: int, j: int|
        0 <= i < j < es.len() ==> seq_lt((#[trigger] es[i]).0, (#[trigger] es[j]).0)
}

/// Some entry bears the name `k`.
pub open spec fn entries_contain(es: Seq<(Seq<char>, StatusModel)>, k: Seq<char>) -> bool {
    exists|i: int| 0 <= i < es.len() && (#[trigger] es[i]).0 == k
}

/// An index of the entry bearing the name `k`.
pub open spec fn entry_index(es: Seq<(Seq<char>, StatusModel)>, k: Seq<char>) -> int {
    choose|i: int| 0 <= i < es.len() && (#[trigger] es[i]).0 == k
}

/// The mapping the entries denote.
pub open spec fn map_of_entries(es: Seq<(Seq<char>, StatusModel)>) -> Map<Seq<char>, StatusModel> {
    Map::new(|k: Seq<char>| entries_contain(es, k), |k: Seq<char>| es[entry_index(es, k)].1)
}

/// In a sorted entry sequence, a name appears at most once.
pub proof fn lemma_entries_unique(es: Seq<(Seq<char>, StatusModel)>, i: int, j: int)
    requires
        entries_sorted(es),
        0 <= i < es.len(),
        0 <= j < es.len(),
        es[i].0 == es[j].0,
    ensures
        i == j,
{
    if i < j || j < i {
        lemma_seq_lt_irrefl(es[i].0);
    }
}

/// The mapping holds each entry's name with that entry's status.
pub proof fn lemma_map_at(es: Seq<(Seq<char>, StatusModel)>, i: int)
    requires
        entries_sorted(es),
        0 <= i < es.len(),
    ensures
        map_of_entries(es).contains_key(es[i].0),
        map_of_entries(es)[es[i].0] == es[i].1,
{
    let k = es[i].0;
    assert(entries_contain(es, k));
    let j = entry_index(es, k);
    assert(0 <= j < es.len() && es[j].0 == k);
    lemma_entries_unique(es, i, j);
}

/// The mapping of a sorted entry sequence without its first entry is the
/// mapping without the first entry's key.
proof fn lemma_tail_map(es: Seq<(Seq<char>, StatusModel)>)
    requires
        entries_sorted(es),
        es.len() > 0,
    ensures
        entries_sorted(es.drop_first()),
        map_of_entries(es.drop_first()) == map_of_entries(es).remove(es[0].0),
{
    let tail = es.drop_first();
    assert(forall|i: int| 0 <= i < tail.len() ==> #[trigger] tail[i] == es[i + 1]);
    assert(entries_sorted(tail));
    assert(map_of_entries(tail) =~= map_of_entries(es).remove(es[0].0)) by {
        assert forall|k: Seq<char>|
            entries_contain(tail, k) == (entries_contain(es, k) && k != es[0].0) by {
            if entries_contain(tail, k) {
                let w = choose|w: int| 0 <= w < tail.len() && (#[trigger] tail[w]).0 == k;
                assert(es[w + 1].0 == k);
                if k == es[0].0 {
                    lemma_entries_unique(es, 0, w + 1);
                }
            }
            if entries_contain(es, k) && k != es[0].0 {
                let w = choose|w: int| 0 <= w < es.len() && (#[trigger] es[w]).0 == k;
                assert(w != 0);
                assert(tail[w - 1].0 == k);
            }
        }
        assert forall|k: Seq<char>|
            entries_contain(tail, k) implies map_of_entries(tail)[k] == map_of_entries(es).remove(
            es[0].0,
        )[k] by {
            let w = entry_index(tail, k);
            assert(0 <= w < tail.len() && tail[w].0 == k);
            lemma_map_at(tail, w);
            lemma_map_at(es, w + 1);
        }
    }
}

/// A sorted entry sequence is determined by its mapping: two sorted tables
/// that hold the same mapping present the very same snapshot, entry by
/// entry — the order relied on for deterministic display.
pub proof fn law_sorted_snapshot_canonical(
    a: Seq<(Seq<char>, StatusModel)>,
    b: Seq<(Seq<char>, StatusModel)>,
)
    requires
        entries_sorted(a),
        entries_sorted(b),
        map_of_entries(a) == map_of_entries(b),
    ensures
        a == b,
    decreases a.len(),
{
    if a.len() == 0 {
        if b.len() > 0 {
            lemma_map_at(b, 0);
            assert(entries_contain(a, b[0].0));
        }
        assert(a =~= b);
    } else {
        lemma_map_at(a, 0);
        assert(map_of_entries(b).contains_key(a[0].0));
        if b.len() == 0 {
            assert(entries_contain(b, a[0].0));
        }
        lemma_map_at(b, 0);
        assert(map_of_entries(a).contains_key(b[0].0));
        let i = choose|i: int| 0 <= i < b.len() && (#[trigger] b[i]).0 == a[0].0;
        let j = choose|j: int| 0 <= j < a.len() && (#[trigger] a[j]).0 == b[0].0;
        assert(!seq_lt(a[0].0, b[0].0)) by {
            if seq_lt(a[0].0, b[0].0) {
                if j == 0 {
                    lemma_seq_lt_irrefl(a[0].0);
                } else {
                    assert(seq_lt(a[0].0, a[j].0));
                    lemma_seq_lt_trans(b[0].0, a[0].0, a[j].0);
                    lemma_seq_lt_irrefl(b[0].0);
                }
            }
        }
        assert(!seq_lt(b[0].0, a[0].0)) by {
            if seq_lt(b[0].0, a[0].0) {
                if i == 0 {
                    lemma_seq_lt_irrefl(b[0].0);
                } else {
                    assert(seq_lt(b[0].0, b[i].0));
                    lemma_seq_lt_trans(a[0].0, b[0].0, b[i].0);
                    lemma_seq_lt_irrefl(a[0].0);
                }
            }
        }
        lemma_seq_lt_connected(a[0].0, b[0].0);
        assert(a[0].0 == b[0].0);
        assert(a[0].1 == b[0].1) by {
            assert(map_of_entries(a)[a[0].0] == a[0].1);
            assert(map_of_entries(b)[b[0].0] == b[0].1);
        }
        lemma_tail_map(a);
        lemma_tail_map(b);
        law_sorted_snapshot_canonical(a.drop_first(), b.drop_first());
        assert(a =~= b) by {
            assert(forall|k: int|
                1 <= k < a.len() ==> #[trigger] a[k] == a.drop_first()[k - 1]);
            assert(forall|k: int|
                1 <= k < b.len() ==> #[trigger] b[k] == b.drop_first()[k - 1]);
        }
    }
}

/// The effect of one live-phase update on the table's mapping: the status is
/// replaced when the name is already a key, and nothing changes otherwise.
pub open spec fn spec_live_update(
    m: Map<Seq<char>, StatusModel>,
    k: Seq<char>,
    v: StatusModel,
) -> Map<Seq<char>, StatusModel> {
    if m.contains_key(k) {
        m.insert(k, v)
    } else {
        m
    }
}

/// Replaying the same live-phase update a second time leaves the mapping as
/// it stood after the first.
pub proof fn law_live_update_idempotent(m: Map<Seq<char>, StatusModel>, k: Seq<char>, v: StatusModel)
    ensures
        spec_live_update(spec_live_update(m, k, v), k, v) == spec_live_update(m, k, v),
{
    if m.contains_key(k) {
        assert(m.insert(k, v).insert(k, v) =~= m.insert(k, v));
    }
}

/// The shared status table: contact names mapped to their current status,
/// kept sorted by name.
pub struct StatusTable {
    entries: Vec<(String, SipStatus)>,
}

impl View for StatusTable {
    type V = Seq<(Seq<char>, StatusModel)>;

    closed spec fn view(&self) -> Seq<(Seq<char>, StatusModel)> {
        Seq::new(self.entries@.len(), |i: int| (self.entries@[i].0@, self.entries@[i].1@))
    }
}

impl StatusTable {
    /// Entries are strictly ascending by name; constructors establish this
    /// and every method preserves it.
    pub open spec fn wf(&self) -> bool {
        entries_sorted(self@)
    }

    /// The mapping the table holds.
    pub open spec fn as_map(&self) -> Map<Seq<char>, StatusModel> {
        map_of_entries(self@)
    }

    /// An empty table.
    pub fn new() -> (t: StatusTable)
        ensures
            t@ == Seq::<(Seq<char>, StatusModel)>::empty(),
            t.wf(),
            t.as_map() == Map::<Seq<char>, StatusModel>::empty(),
    {
        let t = StatusTable { entries: Vec::new() };
        proof {
            assert(t@ =~= Seq::<(Seq<char>, StatusModel)>::empty());
            assert(t.as_map() =~= Map::<Seq<char>, StatusModel>::empty());
        }
        t
    }

    /// How many contacts the table holds.
    pub fn len(&self) -> (n: usize)
        ensures
            n == self@.len(),
    {
        self.entries.len()
    }

    /// The name at a snapshot position, in ascending name order.
    pub fn name_at(&self, i: usize) -> (r: &String)
        requires
            i < self@.len(),
        ensures
            r@ == self@[i as int].0,
    {
        &self.entries[i].0
    }

    /// The status at a snapshot position, in ascending name order.
    pub fn status_at(&self, i: usize) -> (r: &SipStatus)
        requires
            i < self@.len(),
        ensures
            r@ == self@[i as int].1,
    {
        &self.entries[i].1
    }

    /// The status recorded for `name`, when the table has that key.
    pub fn get(&self, name: &str) -> (r: Option<&SipStatus>)
        requires
            self.wf(),
        ensures
            match r {
                Some(st) => self.as_map().contains_key(name@) && st@ == self.as_map()[name@],
                None => !self.as_map().contains_key(name@),
            },
    {
        let n = self.entries.len();
        let mut i: usize = 0;
        while i < n
            invariant
                0 <= i <= n,
                n == self@.len(),
                self.wf(),
                forall|j: int| 0 <= j < i ==> (#[trigger] self@[j]).0 != name@,
            decreases n - i,
        {
            if str_eq(self.entries[i].0.as_str(), name) {
                proof {
                    lemma_map_at(self@, i as int);
                }
                return Some(&self.entries[i].1);
            }
            i += 1;
        }
        proof {
            if self.as_map().contains_key(name@) {
                let w = entry_index(self@, name@);
                assert((self@[w]).0 == name@);
            }
        }
        None
    }

    /// Record `st` for `name`: replace the status when the name is already a
    /// key, and add the entry at its sorted position otherwise.
    pub fn insert(&mut self, name: String, st: SipStatus)
        requires
            old(self).wf(),
        ensures
            final(self).wf(),
            final(self).as_map() == old(self).as_map().insert(name@, st@),
            old(self).as_map().contains_key(name@) ==> final(self)@.len() == old(self)@.len(),
            !old(self).as_map().contains_key(name@) ==> final(self)@.len() == old(self)@.len() + 1,
    {
        let ghost es0 = self@;
        let n = self.entries.len();
        let mut i: usize = 0;
        while i < n && str_lt(self.entries[i].0.as_str(), name.as_str())
            invariant
                0 <= i <= n,
                n == self@.len(),
                self.wf(),
                self@ == es0,
                es0 == old(self)@,
                forall|j: int| 0 <= j < i ==> seq_lt((#[trigger] self@[j]).0, name@),
            decreases n - i,
        {
            i += 1;
        }
        let ghost ii = i as int;
        if i < n && str_eq(self.entries[i].0.as_str(), name.as_str()) {
            let _replaced = self.entries.remove(i);
            self.entries.insert(i, (name, st));
            proof {
                let es1 = self@;
                assert(es1 =~= es0.update(ii, (es0[ii].0, st@)));
                assert(entries_sorted(es1)) by {
                    assert(forall|a: int|
                        0 <= a < es1.len() ==> (#[trigger] es1[a]).0 == es0[a].0);
                }
                lemma_map_at(es0, ii);
                assert(map_of_entries(es1) =~= map_of_entries(es0).insert(name@, st@)) by {
                    assert forall|k: Seq<char>|
                        entries_contain(es1, k) == entries_contain(es0, k) by {
                        if entries_contain(es1, k) {
                            let w = choose|w: int|
                                0 <= w < es1.len() && (#[trigger] es1[w]).0 == k;
                            assert(es0[w].0 == k);
                        }
                        if entries_contain(es0, k) {
                            let w = choose|w: int|
                                0 <= w < es0.len() && (#[trigger] es0[w]).0 == k;
                            assert(es1[w].0 == k);
                        }
                    }
                    assert forall|k: Seq<char>|
                        entries_contain(es1, k) implies map_of_entries(es1)[k] == map_of_entries(
                        es0,
                    ).insert(name@, st@)[k] by {
                        let w = entry_index(es1, k);
                        assert(0 <= w < es1.len() && es1[w].0 == k);
                        lemma_map_at(es1, w);
                        if k == name@ {
                            lemma_entries_unique(es1, w, ii);
                        } else {
                            assert(w != ii);
                            lemma_map_at(es0, w);
                        }
                    }
                }
            }
        } else {
            proof {
                if ii < es0.len() {
                    lemma_seq_lt_connected(es0[ii].0, name@);
                    assert(seq_lt(name@, es0[ii].0));
                }
                assert(!entries_contain(es0, name@)) by {
                    if entries_contain(es0, name@) {
                        let w = choose|w: int|
                            0 <= w < es0.len() && (#[trigger] es0[w]).0 == name@;
                        if w < ii {
                            lemma_seq_lt_irrefl(name@);
                        } else if w == ii {
                        } else {
                            assert(seq_lt(es0[ii].0, es0[w].0));
                            lemma_seq_lt_trans(name@, es0[ii].0, es0[w].0);
                            lemma_seq_lt_irrefl(name@);
                        }
                    }
                }
            }
            self.entries.insert(i, (name, st));
            proof {
                let es1 = self@;
                assert(es1 =~= es0.insert(ii, (name@, st@)));
                assert(forall|a: int| 0 <= a < ii ==> (#[trigger] es1[a]) == es0[a]);
                assert(es1[ii] == (name@, st@));
                assert(forall|a: int|
                    ii < a < es1.len() ==> (#[trigger] es1[a]) == es0[a - 1]);
                assert(entries_sorted(es1)) by {
                    assert forall|a: int, b: int|
                        0 <= a < b < es1.len() implies seq_lt(
                        (#[trigger] es1[a]).0,
                        (#[trigger] es1[b]).0,
                    ) by {
                        if a < ii && b == ii {
                        } else if a == ii && b > ii {
                            if b - 1 > ii - 1 + 1 {
                                assert(seq_lt(es0[ii].0, es0[b - 1].0));
                                lemma_seq_lt_trans(name@, es0[ii].0, es0[b - 1].0);
                            }
                        } else if a < ii && b > ii {
                            if b - 1 == ii {
                                assert(seq_lt(es1[a].0, name@));
                                lemma_seq_lt_trans(es1[a].0, name@, es0[b - 1].0);
                            }
                        }
                    }
                }
                assert(map_of_entries(es1) =~= map_of_entries(es0).insert(name@, st@)) by {
                    assert forall|k: Seq<char>|
                        entries_contain(es1, k) == (entries_contain(es0, k) || k == name@) by {
                        if entries_contain(es1, k) {
                            let w = choose|w: int|
                                0 <= w < es1.len() && (#[trigger] es1[w]).0 == k;
                            if w < ii {
                                assert(es0[w].0 == k);
                            } else if w > ii {
                                assert(es0[w - 1].0 == k);
                            }
                        }
                        if entries_contain(es0, k) {
                            let w = choose|w: int|
                                0 <= w < es0.len() && (#[trigger] es0[w]).0 == k;
                            if w < ii {
                                assert(es1[w].0 == k);
                            } else {
                                assert(es1[w + 1].0 == k);
                            }
                        }
                        if k == name@ {
                            assert(es1[ii].0 == k);
                        }
                    }
                    assert forall|k: Seq<char>|
                        entries_contain(es1, k) implies map_of_entries(es1)[k] == map_of_entries(
                        es0,
                    ).insert(name@, st@)[k] by {
                        let w = entry_index(es1, k);
                        assert(0 <= w < es1.len() && es1[w].0 == k);
                        lemma_map_at(es1, w);
                        if k == name@ {
                            lemma_entries_unique(es1, w, ii);
                        } else {
                            if w < ii {
                                lemma_map_at(es0, w);
                            } else {
                                assert(w != ii);
                                lemma_map_at(es0, w - 1);
                            }
                        }
                    }
                }
            }
        }
    }

    /// Apply one live-phase status report: replace the status when `name` is
    /// already a key, and change nothing otherwise.
    pub fn update_if_present(&mut self, name: &str, st: SipStatus)
        requires
            old(self).wf(),
        ensures
            final(self).wf(),
            final(self).as_map() == spec_live_update(old(self).as_map(), name@, st@),
            final(self)@.len() == old(self)@.len(),
    {
        let ghost es0 = self@;
        let n = self.entries.len();
        let mut i: usize = 0;
        while i < n
            invariant
                0 <= i <= n,
                n == self@.len(),
                self.wf(),
                self@ == es0,
                es0 == old(self)@,
                forall|j: int| 0 <= j < i ==> (#[trigger] self@[j]).0 != name@,
            decreases n - i,
        {
            if str_eq(self.entries[i].0.as_str(), name) {
                let ghost ii = i as int;
                let key = self.entries.remove(i);
                self.entries.insert(i, (key.0, st));
                proof {
                    let es1 = self@;
                    assert(es1 =~= es0.update(ii, (es0[ii].0, st@)));
                    assert(entries_sorted(es1)) by {
                        assert(forall|a: int|
                            0 <= a < es1.len() ==> (#[trigger] es1[a]).0 == es0[a].0);
                    }
                    lemma_map_at(es0, ii);
                    assert(map_of_entries(es0).contains_key(name@));
                    assert(map_of_entries(es1) =~= map_of_entries(es0).insert(name@, st@)) by {
                        assert forall|k: Seq<char>|
                            entries_contain(es1, k) == entries_contain(es0, k) by {
                            if entries_contain(es1, k) {
                                let w = choose|w: int|
                                    0 <= w < es1.len() && (#[trigger] es1[w]).0 == k;
                                assert(es0[w].0 == k);
                            }
                            if entries_contain(es0, k) {
                                let w = choose|w: int|
                                    0 <= w < es0.len() && (#[trigger] es0[w]).0 == k;
                                assert(es1[w].0 == k);
                            }
                        }
                        assert forall|k: Seq<char>|
                            entries_contain(es1, k) implies map_of_entries(es1)[k]
                            == map_of_entries(es0).insert(name@, st@)[k] by {
                            let w = entry_index(es1, k);
                            assert(0 <= w < es1.len() && es1[w].0 == k);
                            lemma_map_at(es1, w);
                            if k == name@ {
                                lemma_entries_unique(es1, w, ii);
                            } else {
                                assert(w != ii);
                                lemma_map_at(es0, w);
                            }
                        }
                    }
                }
                return ;
            }
            i += 1;
        }
        proof {
            if map_of_entries(es0).contains_key(name@) {
                let w = entry_index(es0, name@);
                assert((es0[w]).0 == name@);
            }
        }
    }
}

} // verus!
