//! The set of onion session secrets still outstanding for one payment. Each
//! element stands for one undelivered, unfailed HTLC.

use vstd::prelude::*;
use vstd::seq_lib::*;

verus! {

/// The views of a sequence of 32-byte secrets.
pub open spec fn byte_views(items: Seq<[u8; 32]>) -> Seq<Seq<u8>> {
    items.map_values(|b: [u8; 32]| b@)
}

/// Appending a fresh secret to a duplicate-free sequence keeps it
/// duplicate-free and inserts exactly its view into the denoted set.
pub proof fn lemma_byte_views_push(s: Seq<[u8; 32]>, x: [u8; 32])
    ensures
        byte_views(s.push(x)) =~= byte_views(s).push(x@),
        byte_views(s.push(x)).to_set() =~= byte_views(s).to_set().insert(x@),
        !byte_views(s).contains(x@) && byte_views(s).no_duplicates() ==> byte_views(
            s.push(x),
        ).no_duplicates(),
{
    let old_views = byte_views(s);
    let new_views = byte_views(s.push(x));
    assert(new_views =~= old_views.push(x@));
    assert forall|y: Seq<u8>| new_views.contains(y) implies old_views.contains(y) || y == x@ by {
        let i = choose|i: int| 0 <= i < new_views.len() && new_views[i] == y;
        if i < old_views.len() {
            assert(old_views[i] == y);
        }
    }
    assert forall|y: Seq<u8>| old_views.contains(y) implies new_views.contains(y) by {
        let i = choose|i: int| 0 <= i < old_views.len() && old_views[i] == y;
        assert(new_views[i] == y);
    }
    assert(new_views[new_views.len() - 1] == x@);
    assert(new_views.contains(x@));
    assert(new_views.to_set() =~= old_views.to_set().insert(x@));
    if !old_views.contains(x@) && old_views.no_duplicates() {
        assert forall|p: int, q: int|
            0 <= p < new_views.len() && 0 <= q < new_views.len() && p != q implies new_views[p]
            != new_views[q] by {
            if p < old_views.len() && q < old_views.len() {
            } else if p < old_views.len() {
                assert(old_views.contains(old_views[p]));
            } else if q < old_views.len() {
                assert(old_views.contains(old_views[q]));
            }
        }
    }
}

/// A set of 32-byte session secrets, one per outstanding HTLC.
#[derive(Clone, Debug, PartialEq, Eq)]
pub struct SessionSet {
    items: Vec<[u8; 32]>,
}

impl View for SessionSet {
    type V = Set<Seq<u8>>;

    closed spec fn view(&self) -> Set<Seq<u8>> {
        byte_views(self.items@).to_set()
    }
}

impl SessionSet {
    /// No secret occurs twice.
    pub closed spec fn wf(&self) -> bool {
        byte_views(self.items@).no_duplicates()
    }

    pub open spec fn spec_len(&self) -> nat {
        self@.len()
    }

    pub fn new() -> (r: Self)
        ensures
            r.wf(),
            r@ =~= Set::<Seq<u8>>::empty(),
            r.spec_len() == 0,
    {
        let r = SessionSet { items: Vec::new() };
        proof {
            assert(byte_views(r.items@) =~= Seq::<Seq<u8>>::empty());
            byte_views(r.items@).unique_seq_to_set();
        }
        r
    }

    /// How many HTLCs are still outstanding.
    pub fn len(&self) -> (r: usize)
        requires
            self.wf(),
        ensures
            r == self.spec_len(),
    {
        proof {
            byte_views(self.items@).unique_seq_to_set();
        }
        self.items.len()
    }

    pub fn is_empty(&self) -> (r: bool)
        requires
            self.wf(),
        ensures
            r == (self.spec_len() == 0),
    {
        proof {
            byte_views(self.items@).unique_seq_to_set();
        }
        self.items.len() == 0
    }

    fn find(&self, session_priv: &[u8; 32]) -> (r: Option<usize>)
        ensures
            match r {
                Some(i) => i < self.items@.len() && byte_views(self.items@)[i as int]
                    == session_priv@,
                None => !self@.contains(session_priv@),
            },
    {
        let ghost views = byte_views(self.items@);
        let mut i: usize = 0;
        while i < self.items.len()
            invariant
                0 <= i <= self.items@.len(),
                views == byte_views(self.items@),
                forall|j: int| 0 <= j < i ==> views[j] != session_priv@,
            decreases self.items@.len() - i,
        {
            if crate::bytes_eq(&self.items[i], session_priv) {
                return Some(i);
            }
            i += 1;
        }
        proof {
            assert(forall|j: int| 0 <= j < views.len() ==> views[j] != session_priv@);
            assert(!views.contains(session_priv@));
        }
        None
    }

    pub fn contains(&self, session_priv: &[u8; 32]) -> (r: bool)
        ensures
            r == self@.contains(session_priv@),
    {
        match self.find(session_priv) {
            Some(i) => {
                proof {
                    assert(byte_views(self.items@).contains(session_priv@));
                }
                true
            },
            None => false,
        }
    }

    /// Adds a secret. Returns false, changing nothing, when it is already
    /// present.
    pub fn insert(&mut self, session_priv: [u8; 32]) -> (r: bool)
        requires
            old(self).wf(),
        ensures
            final(self).wf(),
            r == !old(self)@.contains(session_priv@),
            r ==> final(self)@ =~= old(self)@.insert(session_priv@) && final(self).spec_len()
                == old(self).spec_len() + 1,
            !r ==> *final(self) == *old(self),
    {
        match self.find(&session_priv) {
            Some(_) => {
                proof {
                    assert(byte_views(self.items@).contains(session_priv@));
                }
                false
            },
            None => {
                proof {
                    byte_views(self.items@).unique_seq_to_set();
                    lemma_byte_views_push(self.items@, session_priv);
                }
                self.items.push(session_priv);
                proof {
                    assert(self.items@ == old(self).items@.push(session_priv));
                    byte_views(self.items@).unique_seq_to_set();
                }
                true
            },
        }
    }

    /// Removes a secret. Returns false, changing nothing, when it is absent.
    pub fn remove(&mut self, session_priv: &[u8; 32]) -> (r: bool)
        requires
            old(self).wf(),
        ensures
            final(self).wf(),
            r == old(self)@.contains(session_priv@),
            r ==> final(self)@ =~= old(self)@.remove(session_priv@) && final(self).spec_len()
                == old(self).spec_len() - 1,
            !r ==> *final(self) == *old(self),
    {
        match self.find(session_priv) {
            None => false,
            Some(i) => {
                proof {
                    byte_views(self.items@).unique_seq_to_set();
                    assert(byte_views(self.items@).contains(session_priv@));
                }
                let ghost old_views = byte_views(self.items@);
                self.items.swap_remove(i);
                proof {
                    let new_views = byte_views(self.items@);
                    let n = old_views.len() as int;
                    assert(new_views =~= old_views.update(i as int, old_views[n - 1]).drop_last());
                    assert forall|x: Seq<u8>| new_views.contains(x) implies old_views.contains(x)
                        && x != session_priv@ by {
                        let j = choose|j: int|
                            0 <= j < new_views.len() && new_views[j] == x;
                        if j == i {
                            assert(old_views[n - 1] == x);
                        } else {
                            assert(old_views[j] == x);
                        }
                    }
                    assert forall|x: Seq<u8>|
                        old_views.contains(x) && x != session_priv@ implies new_views.contains(
                        x,
                    ) by {
                        let j = choose|j: int|
                            0 <= j < old_views.len() && old_views[j] == x;
                        assert(old_views[i as int] == session_priv@);
                        if j == n - 1 {
                            assert(j != i);
                            assert(new_views[i as int] == x);
                        } else if j != i {
                            assert(new_views[j] == x);
                        }
                    }
                    assert(new_views.no_duplicates()) by {
                        assert forall|p: int, q: int|
                            0 <= p < new_views.len() && 0 <= q < new_views.len() && p
                                != q implies new_views[p] != new_views[q] by {
                            let op: int = if p == i {
                                n - 1
                            } else {
                                p
                            };
                            let oq: int = if q == i {
                                n - 1
                            } else {
                                q
                            };
                            assert(new_views[p] == old_views[op]);
                            assert(new_views[q] == old_views[oq]);
                        }
                    }
                    assert(new_views.to_set() =~= old_views.to_set().remove(session_priv@));
                    new_views.unique_seq_to_set();
                    old_views.unique_seq_to_set();
                }
                true
            },
        }
    }

    /// The secrets as plain values, for resolving them one by one.
    pub fn as_items(&self) -> (r: &Vec<[u8; 32]>)
        ensures
            byte_views(r@).to_set() == self@,
    {
        &self.items
    }
}

} // verus!
