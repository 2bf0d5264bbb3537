//! Withdrawal tables: finite maps from withdrawal id to withdrawal record,
//! backed by a vector of entries with pairwise-distinct ids. The ledger keeps
//! two of them: the withdrawals still outstanding and the ones refunded.
use vstd::prelude::*;

use crate::bytes::bytes_eq;
use crate::bytes::clone_bytes;
use crate::types::Withdrawal;
use crate::types::WithdrawalModel;

verus! {

/// A table of withdrawals, modeled as a map from id to withdrawal record.
pub struct WithdrawalTable {
    pub entries: Vec<(Vec<u8>, Withdrawal)>,
}

/// The ids of a sequence of table entries, in order.
pub open spec fn key_seq(s: Seq<(Seq<u8>, WithdrawalModel)>) -> Seq<Seq<u8>> {
    s.map_values(|e: (Seq<u8>, WithdrawalModel)| e.0)
}

/// The map that a sequence of entries denotes; later entries win.
pub open spec fn wmap_of(s: Seq<(Seq<u8>, WithdrawalModel)>) -> Map<Seq<u8>, WithdrawalModel>
    decreases s.len(),
{
    if s.len() == 0 {
        Map::empty()
    } else {
        wmap_of(s.drop_last()).insert(s.last().0, s.last().1)
    }
}

pub proof fn lemma_key_seq_drop_last(s: Seq<(Seq<u8>, WithdrawalModel)>)
    requires
        s.len() > 0,
    ensures
        key_seq(s.drop_last()) =~= key_seq(s).drop_last(),
        key_seq(s).last() == s.last().0,
        key_seq(s).len() == s.len(),
{
}

/// A key is in the denoted map exactly when some entry carries it.
pub proof fn lemma_wmap_contains(s: Seq<(Seq<u8>, WithdrawalModel)>, k: Seq<u8>)
    ensures
        wmap_of(s).contains_key(k) <==> key_seq(s).contains(k),
    decreases s.len(),
{
    if s.len() == 0 {
    } else {
        lemma_wmap_contains(s.drop_last(), k);
        lemma_key_seq_drop_last(s);
        if wmap_of(s).contains_key(k) {
            if k == s.last().0 {
                assert(key_seq(s)[s.len() - 1] == k);
            } else {
                let i = choose|i: int|
                    0 <= i < key_seq(s.drop_last()).len() && key_seq(s.drop_last())[i] == k;
                assert(key_seq(s)[i] == k);
            }
            assert(key_seq(s).contains(k));
        }
        if key_seq(s).contains(k) {
            let i = choose|i: int| 0 <= i < key_seq(s).len() && key_seq(s)[i] == k;
            if i == s.len() - 1 {
                assert(k == s.last().0);
            } else {
                assert(key_seq(s.drop_last())[i] == k);
                assert(key_seq(s.drop_last()).contains(k));
            }
        }
    }
}

/// With distinct ids, the entry at any index gives the map's value at its id.
pub proof fn lemma_wmap_get(s: Seq<(Seq<u8>, WithdrawalModel)>, i: int)
    requires
        key_seq(s).no_duplicates(),
        0 <= i < s.len(),
    ensures
        wmap_of(s).contains_key(s[i].0),
        wmap_of(s)[s[i].0] == s[i].1,
    decreases s.len(),
{
    lemma_key_seq_drop_last(s);
    if i == s.len() - 1 {
    } else {
        assert(key_seq(s)[i] == s[i].0);
        assert(key_seq(s)[s.len() - 1] == s.last().0);
        assert(s[i].0 != s.last().0);
        assert(key_seq(s.drop_last()).no_duplicates());
        assert(s.drop_last()[i] == s[i]);
        lemma_wmap_get(s.drop_last(), i);
    }
}

/// Appending an entry denotes a map insertion.
pub proof fn lemma_wmap_push(s: Seq<(Seq<u8>, WithdrawalModel)>, e: (Seq<u8>, WithdrawalModel))
    ensures
        wmap_of(s.push(e)) == wmap_of(s).insert(e.0, e.1),
{
    assert(s.push(e).drop_last() =~= s);
    assert(s.push(e).last() == e);
}

/// With distinct ids, removing the entry at an index denotes removing its id.
pub proof fn lemma_wmap_remove(s: Seq<(Seq<u8>, WithdrawalModel)>, i: int)
    requires
        key_seq(s).no_duplicates(),
        0 <= i < s.len(),
    ensures
        wmap_of(s.remove(i)) =~= wmap_of(s).remove(s[i].0),
        key_seq(s.remove(i)) =~= key_seq(s).remove(i),
        key_seq(s.remove(i)).no_duplicates(),
    decreases s.len(),
{
    s.remove_ensures(i);
    assert(key_seq(s.remove(i)) =~= key_seq(s).remove(i)) by {
        key_seq(s).remove_ensures(i);
        assert forall|j: int| 0 <= j < s.remove(i).len() implies key_seq(s.remove(i))[j] == key_seq(
            s,
        ).remove(i)[j] by {
            if j < i {
                assert(s.remove(i)[j] == s[j]);
            } else {
                assert(s.remove(i)[j] == s[j + 1]);
            }
        }
    }
    assert(key_seq(s.remove(i)).no_duplicates()) by {
        key_seq(s).remove_ensures(i);
        assert forall|p: int, q: int|
            0 <= p < key_seq(s.remove(i)).len() && 0 <= q < key_seq(s.remove(i)).len() && p
                != q implies key_seq(s.remove(i))[p] != key_seq(s.remove(i))[q] by {
            let p0: int = if p < i {
                p
            } else {
                p + 1
            };
            let q0: int = if q < i {
                q
            } else {
                q + 1
            };
            assert(key_seq(s)[p0] == key_seq(s.remove(i))[p]);
            assert(key_seq(s)[q0] == key_seq(s.remove(i))[q]);
        }
    }
    lemma_key_seq_drop_last(s);
    if i == s.len() - 1 {
        assert(s.remove(i) =~= s.drop_last());
        assert(wmap_of(s) == wmap_of(s.drop_last()).insert(s.last().0, s.last().1));
        assert(!key_seq(s.drop_last()).contains(s.last().0)) by {
            if key_seq(s.drop_last()).contains(s.last().0) {
                let j = choose|j: int|
                    0 <= j < key_seq(s.drop_last()).len() && key_seq(s.drop_last())[j] == s.last().0;
                assert(key_seq(s)[j] == key_seq(s)[s.len() - 1]);
            }
        }
        lemma_wmap_contains(s.drop_last(), s.last().0);
        assert(wmap_of(s.remove(i)) =~= wmap_of(s).remove(s[i].0));
    } else {
        assert(key_seq(s.drop_last()).no_duplicates());
        lemma_wmap_remove(s.drop_last(), i);
        assert(s.remove(i).len() == s.len() - 1);
        assert(s.remove(i).drop_last() =~= s.drop_last().remove(i)) by {
            s.drop_last().remove_ensures(i);
            assert forall|j: int| 0 <= j < s.len() - 2 implies s.remove(i).drop_last()[j]
                == s.drop_last().remove(i)[j] by {
                if j < i {
                    assert(s.remove(i)[j] == s[j]);
                    assert(s.drop_last()[j] == s[j]);
                } else {
                    assert(s.remove(i)[j] == s[j + 1]);
                    assert(s.drop_last()[j + 1] == s[j + 1]);
                }
            }
        }
        assert(s.remove(i).last() == s.last());
        assert(wmap_of(s.remove(i)) == wmap_of(s.drop_last().remove(i)).insert(
            s.last().0,
            s.last().1,
        ));
        assert(s[i].0 != s.last().0) by {
            assert(key_seq(s)[i] == s[i].0);
            assert(key_seq(s)[s.len() - 1] == s.last().0);
        }
        assert(s.drop_last()[i] == s[i]);
        assert(wmap_of(s.remove(i)) =~= wmap_of(s).remove(s[i].0));
    }
}

impl View for WithdrawalTable {
    type V = Map<Seq<u8>, WithdrawalModel>;

    open spec fn view(&self) -> Map<Seq<u8>, WithdrawalModel> {
        wmap_of(self.sview())
    }
}

impl WithdrawalTable {
    /// The entries in storage order, as id and record models.
    pub open spec fn sview(&self) -> Seq<(Seq<u8>, WithdrawalModel)> {
        self.entries@.map_values(|e: (Vec<u8>, Withdrawal)| (e.0@, e.1@))
    }

    /// Well-formed: no id is recorded twice.
    pub open spec fn wf(&self) -> bool {
        key_seq(self.sview()).no_duplicates()
    }

    /// An empty table.
    pub fn new() -> (r: WithdrawalTable)
        ensures
            r.wf(),
            r@ == Map::<Seq<u8>, WithdrawalModel>::empty(),
            r.sview() == Seq::<(Seq<u8>, WithdrawalModel)>::empty(),
    {
        let r = WithdrawalTable { entries: Vec::new() };
        proof {
            assert(r.sview() =~= Seq::<(Seq<u8>, WithdrawalModel)>::empty());
        }
        r
    }

    /// Index of the entry carrying the id, if any.
    fn find(&self, id: &Vec<u8>) -> (r: Option<usize>)
        ensures
            match r {
                Some(i) => i < self.entries@.len() && self.sview()[i as int].0 == id@,
                None => !key_seq(self.sview()).contains(id@),
            },
    {
        let mut i: usize = 0;
        while i < self.entries.len()
            invariant
                i <= self.entries.len(),
                forall|j: int| 0 <= j < i ==> self.sview()[j].0 != id@,
            decreases self.entries.len() - i,
        {
            if bytes_eq(&self.entries[i].0, id) {
                assert(self.sview()[i as int].0 == id@);
                return Some(i);
            }
            i += 1;
        }
        assert forall|j: int| 0 <= j < key_seq(self.sview()).len() implies key_seq(self.sview())[j]
            != id@ by {
            assert(key_seq(self.sview())[j] == self.sview()[j].0);
        }
        None
    }

    /// Returns whether a withdrawal with this id is in the table.
    pub fn contains_key(&self, id: &Vec<u8>) -> (r: bool)
        ensures
            r == self@.contains_key(id@),
    {
        proof {
            lemma_wmap_contains(self.sview(), id@);
        }
        match self.find(id) {
            Some(i) => {
                proof {
                    assert(key_seq(self.sview())[i as int] == id@);
                    assert(key_seq(self.sview()).contains(id@));
                }
                true
            },
            None => false,
        }
    }

    /// Returns the withdrawal recorded under this id, if any.
    pub fn get(&self, id: &Vec<u8>) -> (r: Option<&Withdrawal>)
        requires
            self.wf(),
        ensures
            match r {
                Some(w) => self@.contains_key(id@) && w@ == self@[id@],
                None => !self@.contains_key(id@),
            },
    {
        proof {
            lemma_wmap_contains(self.sview(), id@);
        }
        match self.find(id) {
            Some(i) => {
                proof {
                    lemma_wmap_get(self.sview(), i as int);
                }
                Some(&self.entries[i].1)
            },
            None => None,
        }
    }

    /// Inserts or updates the withdrawal recorded under this id.
    pub fn insert(&mut self, id: &Vec<u8>, w: Withdrawal)
        requires
            old(self).wf(),
        ensures
            final(self).wf(),
            final(self)@ == old(self)@.insert(id@, w@),
    {
        let ghost s0 = self.sview();
        match self.find(id) {
            Some(i) => {
                self.entries.remove(i);
                proof {
                    assert(self.sview() =~= s0.remove(i as int));
                    lemma_wmap_remove(s0, i as int);
                    assert(!wmap_of(self.sview()).contains_key(id@));
                    lemma_wmap_contains(self.sview(), id@);
                }
            },
            None => {
                proof {
                    assert(self.sview() == s0);
                }
            },
        }
        let ghost s1 = self.sview();
        proof {
            assert(!key_seq(s1).contains(id@));
            assert(wmap_of(s1).insert(id@, w@) =~= wmap_of(s0).insert(id@, w@));
        }
        self.entries.push((clone_bytes(id), w));
        proof {
            assert(self.sview() =~= s1.push((id@, w@)));
            lemma_wmap_push(s1, (id@, w@));
            assert(key_seq(self.sview()) =~= key_seq(s1).push(id@));
            assert forall|p: int, q: int|
                0 <= p < key_seq(self.sview()).len() && 0 <= q < key_seq(self.sview()).len() && p
                    != q implies key_seq(self.sview())[p] != key_seq(self.sview())[q] by {
                assert(key_seq(s1).no_duplicates());
            }
            assert(final(self)@ =~= old(self)@.insert(id@, w@));
        }
    }

    /// Removes and returns the withdrawal recorded under this id, if any.
    pub fn remove(&mut self, id: &Vec<u8>) -> (r: Option<Withdrawal>)
        requires
            old(self).wf(),
        ensures
            final(self).wf(),
            match r {
                Some(w) => old(self)@.contains_key(id@) && w@ == old(self)@[id@] && final(self)@
                    == old(self)@.remove(id@),
                None => !old(self)@.contains_key(id@) && *final(self) == *old(self),
            },
    {
        let ghost s0 = self.sview();
        proof {
            lemma_wmap_contains(s0, id@);
        }
        match self.find(id) {
            Some(i) => {
                proof {
                    assert(key_seq(s0)[i as int] == id@);
                    assert(key_seq(s0).contains(id@));
                    lemma_wmap_get(s0, i as int);
                }
                let e = self.entries.remove(i);
                proof {
                    assert(self.sview() =~= s0.remove(i as int));
                    lemma_wmap_remove(s0, i as int);
                    assert(final(self)@ =~= old(self)@.remove(id@));
                }
                Some(e.1)
            },
            None => None,
        }
    }

    /// Number of withdrawals in the table.
    pub fn len(&self) -> (r: usize)
        ensures
            r == self.sview().len(),
    {
        self.entries.len()
    }

    /// The entries in storage order, as owned pairs of id and record.
    pub fn snapshot(&self) -> (r: Vec<(Vec<u8>, Withdrawal)>)
        ensures
            r@.len() == self.sview().len(),
            forall|j: int|
                0 <= j < r@.len() ==> (#[trigger] r@[j].0@, r@[j].1@) == self.sview()[j],
    {
        let mut out: Vec<(Vec<u8>, Withdrawal)> = Vec::new();
        let mut i: usize = 0;
        while i < self.entries.len()
            invariant
                i <= self.entries.len(),
                out@.len() == i,
                forall|j: int| 0 <= j < i ==> (#[trigger] out@[j].0@, out@[j].1@) == self.sview()[j],
            decreases self.entries.len() - i,
        {
            out.push((clone_bytes(&self.entries[i].0), self.entries[i].1));
            i += 1;
        }
        out
    }

    /// Returns a copy of the table holding the same entries.
    pub fn duplicate(&self) -> (r: WithdrawalTable)
        ensures
            r.sview() == self.sview(),
            r@ == self@,
            r.wf() == self.wf(),
    {
        let entries = self.snapshot();
        let r = WithdrawalTable { entries };
        proof {
            assert forall|j: int| 0 <= j < r.sview().len() implies r.sview()[j]
                == self.sview()[j] by {
                assert((r.entries@[j].0@, r.entries@[j].1@) == self.sview()[j]);
            }
            assert(r.sview() =~= self.sview());
        }
        r
    }
}

} // verus!
