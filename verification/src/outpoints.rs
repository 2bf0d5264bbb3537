//! Outpoint ledger: tracks which mainchain deposit outpoints have already
//! been consumed by the sidechain. An outpoint transitions unspent to spent
//! exactly once; marking a spent outpoint again fails loudly, since that
//! indicates a double-deposit bug upstream.
use vstd::prelude::*;

use crate::Error;
use crate::bytes::bytes_eq;
use crate::bytes::clone_bytes;

verus! {

/// The set of spent deposit outpoints, modeled as a set of byte strings.
pub struct OutpointSet {
    pub entries: Vec<Vec<u8>>,
}

impl View for OutpointSet {
    type V = Set<Seq<u8>>;

    open spec fn view(&self) -> Set<Seq<u8>> {
        self.sview().to_set()
    }
}

pub proof fn lemma_to_set_push(s: Seq<Seq<u8>>, x: Seq<u8>)
    ensures
        s.push(x).to_set() =~= s.to_set().insert(x),
{
    assert forall|o: Seq<u8>| s.push(x).to_set().contains(o) implies s.to_set().insert(x).contains(
        o,
    ) by {
        let i = choose|i: int| 0 <= i < s.push(x).len() && s.push(x)[i] == o;
        if i < s.len() {
            assert(s[i] == o);
            assert(s.contains(o));
        } else {
            assert(o == x);
        }
    }
    assert forall|o: Seq<u8>| s.to_set().insert(x).contains(o) implies s.push(x).to_set().contains(
        o,
    ) by {
        if o == x {
            assert(s.push(x)[s.len() as int] == o);
        } else {
            let i = choose|i: int| 0 <= i < s.len() && s[i] == o;
            assert(s.push(x)[i] == o);
        }
    }
}

pub proof fn lemma_to_set_remove(s: Seq<Seq<u8>>, i: int)
    requires
        s.no_duplicates(),
        0 <= i < s.len(),
    ensures
        s.remove(i).to_set() =~= s.to_set().remove(s[i]),
        s.remove(i).no_duplicates(),
{
    s.remove_ensures(i);
    assert forall|o: Seq<u8>| s.remove(i).to_set().contains(o) implies s.to_set().remove(
        s[i],
    ).contains(o) by {
        let j = choose|j: int| 0 <= j < s.remove(i).len() && s.remove(i)[j] == o;
        if j < i {
            assert(s[j] == o);
            assert(o != s[i]);
            assert(s.contains(o));
        } else {
            assert(s[j + 1] == o);
            assert(o != s[i]);
            assert(s.contains(o));
        }
    }
    assert forall|o: Seq<u8>| s.to_set().remove(s[i]).contains(o) implies s.remove(
        i,
    ).to_set().contains(o) by {
        let j = choose|j: int| 0 <= j < s.len() && s[j] == o;
        if j < i {
            assert(s.remove(i)[j] == o);
        } else {
            assert(j != i);
            assert(s.remove(i)[j - 1] == o);
        }
        assert(s.remove(i).contains(o));
    }
    assert forall|p: int, q: int|
        0 <= p < s.remove(i).len() && 0 <= q < s.remove(i).len() && p != q implies s.remove(i)[p]
        != s.remove(i)[q] by {
        let p0: int = if p < i {
            p
        } else {
            p + 1
        };
        let q0: int = if q < i {
            q
        } else {
            q + 1
        };
        assert(s.remove(i)[p] == s[p0]);
        assert(s.remove(i)[q] == s[q0]);
    }
}

impl OutpointSet {
    /// The outpoints in storage order, as byte strings.
    pub open spec fn sview(&self) -> Seq<Seq<u8>> {
        self.entries@.map_values(|o: Vec<u8>| o@)
    }

    /// Well-formed: no outpoint is recorded twice.
    pub open spec fn wf(&self) -> bool {
        self.sview().no_duplicates()
    }

    /// An empty outpoint ledger: nothing is spent.
    pub fn new() -> (r: OutpointSet)
        ensures
            r.wf(),
            r@ == Set::<Seq<u8>>::empty(),
    {
        let r = OutpointSet { entries: Vec::new() };
        proof {
            assert(r.sview() =~= Seq::<Seq<u8>>::empty());
            assert(r.sview().to_set() =~= Set::<Seq<u8>>::empty());
        }
        r
    }

    /// Returns whether the outpoint has been spent.
    pub fn is_spent(&self, outpoint: &Vec<u8>) -> (r: bool)
        ensures
            r == self@.contains(outpoint@),
    {
        let mut i: usize = 0;
        while i < self.entries.len()
            invariant
                i <= self.entries.len(),
                forall|j: int| 0 <= j < i ==> self.sview()[j] != outpoint@,
            decreases self.entries.len() - i,
        {
            if bytes_eq(&self.entries[i], outpoint) {
                assert(self.sview()[i as int] == outpoint@);
                assert(self.sview().contains(outpoint@));
                return true;
            }
            i += 1;
        }
        assert(!self.sview().contains(outpoint@));
        false
    }

    /// Marks the outpoint spent. Fails with `AlreadySpent` if it already is:
    /// double-marking is a data-integrity violation, never ignored silently.
    pub fn mark_spent(&mut self, outpoint: &Vec<u8>) -> (r: Result<(), Error>)
        requires
            old(self).wf(),
        ensures
            final(self).wf(),
            match r {
                Ok(()) => !old(self)@.contains(outpoint@) && final(self)@ == old(self)@.insert(
                    outpoint@,
                ),
                Err(e) => e == Error::AlreadySpent && old(self)@.contains(outpoint@) && *final(self)
                    == *old(self),
            },
    {
        if self.is_spent(outpoint) {
            return Err(Error::AlreadySpent);
        }
        let ghost s0 = self.sview();
        self.entries.push(clone_bytes(outpoint));
        proof {
            assert(self.sview() =~= s0.push(outpoint@));
            lemma_to_set_push(s0, outpoint@);
        }
        Ok(())
    }

    /// Unmarks a spent outpoint; used only while disconnecting a block. Fails
    /// with `NotSpent` if the outpoint is not currently marked.
    pub fn unmark_spent(&mut self, outpoint: &Vec<u8>) -> (r: Result<(), Error>)
        requires
            old(self).wf(),
        ensures
            final(self).wf(),
            match r {
                Ok(()) => old(self)@.contains(outpoint@) && final(self)@ == old(self)@.remove(
                    outpoint@,
                ),
                Err(e) => e == Error::NotSpent && !old(self)@.contains(outpoint@) && *final(self)
                    == *old(self),
            },
    {
        let ghost s0 = old(self).sview();
        let mut i: usize = 0;
        while i < self.entries.len()
            invariant
                i <= self.entries.len(),
                *self == *old(self),
                s0 == self.sview(),
                s0.no_duplicates(),
                forall|j: int| 0 <= j < i ==> self.sview()[j] != outpoint@,
            decreases self.entries.len() - i,
        {
            if bytes_eq(&self.entries[i], outpoint) {
                assert(self.sview()[i as int] == outpoint@);
                assert(self.sview().contains(outpoint@));
                proof {
                    assert(s0.len() == self.entries@.len());
                }
                self.entries.remove(i);
                proof {
                    assert forall|j: int| 0 <= j < self.entries@.len() implies self.sview()[j]
                        == s0.remove(i as int)[j] by {
                        s0.remove_ensures(i as int);
                    }
                    assert(self.sview() =~= s0.remove(i as int));
                    lemma_to_set_remove(s0, i as int);
                }
                return Ok(());
            }
            i += 1;
        }
        assert(!self.sview().contains(outpoint@));
        Err(Error::NotSpent)
    }

    /// Returns a copy of the ledger holding the same spent outpoints.
    pub fn duplicate(&self) -> (r: OutpointSet)
        ensures
            r.sview() == self.sview(),
            r@ == self@,
            r.wf() == self.wf(),
    {
        let mut entries: Vec<Vec<u8>> = Vec::new();
        let mut i: usize = 0;
        while i < self.entries.len()
            invariant
                i <= self.entries.len(),
                entries@.len() == i,
                forall|j: int| 0 <= j < i ==> entries@[j]@ == self.entries@[j]@,
            decreases self.entries.len() - i,
        {
            entries.push(clone_bytes(&self.entries[i]));
            i += 1;
        }
        let r = OutpointSet { entries };
        proof {
            assert forall|j: int| 0 <= j < r.sview().len() implies r.sview()[j]
                == self.sview()[j] by {
                assert(r.entries@[j]@ == self.entries@[j]@);
            }
            assert(r.sview() =~= self.sview());
        }
        r
    }
}

} // verus!
