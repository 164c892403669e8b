//! Peer identifiers and sets of peers.
//!
//! A peer is identified by the bytes of its public-key derived identifier.
//! The identifier is opaque to the rest of the library: the logic only ever
//! compares identifiers for equality, collects them in sets and writes them
//! on the wire. A set of peers is kept as a duplicate-free vector and viewed
//! as a `Set<Seq<u8>>` in contracts.

use vstd::prelude::*;

verus! {

/// An opaque peer identifier: the raw identifier bytes.
#[derive(Debug, Clone)]
pub struct PeerId {
    pub bytes: Vec<u8>,
}

impl View for PeerId {
    type V = Seq<u8>;

    open spec fn view(&self) -> Seq<u8> {
        self.bytes@
    }
}

impl PeerId {
    /// Wrap raw identifier bytes.
    pub fn new(bytes: Vec<u8>) -> (r: PeerId)
        ensures
            r@ == bytes@,
    {
        PeerId { bytes }
    }

    /// The raw identifier bytes.
    pub fn as_bytes(&self) -> (r: &Vec<u8>)
        ensures
            r@ == self@,
    {
        &self.bytes
    }
}

impl PeerId {
    /// Deep copy with a contract; the derived `Clone` says nothing to the
    /// verifier about the copied bytes.
    pub fn duplicate(&self) -> (r: PeerId)
        ensures
            r@ == self@,
    {
        PeerId { bytes: copy_bytes(&self.bytes) }
    }
}

/// Byte-for-byte copy of a vector.
pub fn copy_bytes(v: &Vec<u8>) -> (r: Vec<u8>)
    ensures
        r@ == v@,
{
    let mut out: Vec<u8> = Vec::new();
    let n = v.len();
    let mut i: usize = 0;
    while i < n
        invariant
            n == v@.len(),
            0 <= i <= n,
            out@ == v@.subrange(0, i as int),
        decreases n - i,
    {
        out.push(v[i]);
        proof {
            assert(out@ =~= v@.subrange(0, i + 1));
        }
        i = i + 1;
    }
    proof {
        assert(out@ =~= v@);
    }
    out
}

impl PartialEq for PeerId {
    fn eq(&self, other: &PeerId) -> (r: bool) {
        let n = self.bytes.len();
        if n != other.bytes.len() {
            return false;
        }
        let mut i: usize = 0;
        while i < n
            invariant
                n == self.bytes@.len(),
                n == other.bytes@.len(),
                0 <= i <= n,
                forall|k: int| 0 <= k < i ==> self.bytes@[k] == other.bytes@[k],
            decreases n - i,
        {
            if self.bytes[i] != other.bytes[i] {
                return false;
            }
            i = i + 1;
        }
        proof {
            assert(self.bytes@ =~= other.bytes@);
        }
        true
    }
}

impl vstd::std_specs::cmp::PartialEqSpecImpl for PeerId {
    open spec fn obeys_eq_spec() -> bool {
        true
    }

    open spec fn eq_spec(&self, other: &PeerId) -> bool {
        self@ == other@
    }
}

impl Eq for PeerId {}

/// The identifier bytes of each peer in a sequence of peers.
pub open spec fn views(s: Seq<PeerId>) -> Seq<Seq<u8>> {
    s.map_values(|p: PeerId| p@)
}

/// A set of peers, kept as a duplicate-free vector.
#[derive(Debug, Clone)]
pub struct PeerSet {
    pub items: Vec<PeerId>,
}

impl View for PeerSet {
    type V = Set<Seq<u8>>;

    open spec fn view(&self) -> Set<Seq<u8>> {
        views(self.items@).to_set()
    }
}

impl PeerSet {
    /// The vector holds no two peers with the same identifier.
    pub open spec fn wf(&self) -> bool {
        views(self.items@).no_duplicates()
    }

    /// The empty set.
    pub fn new() -> (r: PeerSet)
        ensures
            r@ =~= Set::<Seq<u8>>::empty(),
            r.wf(),
    {
        PeerSet { items: Vec::new() }
    }

    /// Whether `p` is in the set.
    pub fn contains(&self, p: &PeerId) -> (r: bool)
        ensures
            r == self@.contains(p@),
    {
        let n = self.items.len();
        let mut i: usize = 0;
        while i < n
            invariant
                n == self.items@.len(),
                0 <= i <= n,
                forall|k: int| 0 <= k < i ==> views(self.items@)[k] != p@,
            decreases n - i,
        {
            if self.items[i] == *p {
                proof {
                    assert(views(self.items@)[i as int] == p@);
                    assert(views(self.items@).contains(p@));
                }
                return true;
            }
            i = i + 1;
        }
        proof {
            assert(!views(self.items@).contains(p@));
        }
        false
    }

    /// Insert `p`; reports whether the set changed.
    pub fn insert(&mut self, p: PeerId) -> (r: bool)
        requires
            old(self).wf(),
        ensures
            final(self)@ =~= old(self)@.insert(p@),
            final(self).wf(),
            r == !old(self)@.contains(p@),
    {
        if self.contains(&p) {
            proof {
                assert(self@.insert(p@) =~= self@);
            }
            false
        } else {
            let ghost pre = self.items@;
            self.items.push(p);
            proof {
                assert(views(self.items@) =~= views(pre) + seq![p@]);
                Seq::<Seq<u8>>::lemma_to_set_insert_commutes(views(pre), p@);
                assert(views(self.items@).no_duplicates());
            }
            true
        }
    }

    /// Remove `p`; reports whether it was present.
    pub fn remove(&mut self, p: &PeerId) -> (r: bool)
        requires
            old(self).wf(),
        ensures
            final(self)@ =~= old(self)@.remove(p@),
            final(self).wf(),
            r == old(self)@.contains(p@),
    {
        let n = self.items.len();
        let mut i: usize = 0;
        while i < n
            invariant
                *self == *old(self),
                self.wf(),
                n == self.items@.len(),
                0 <= i <= n,
                forall|k: int| 0 <= k < i ==> views(self.items@)[k] != p@,
            decreases n - i,
        {
            if self.items[i] == *p {
                let ghost pre = self.items@;
                let _ = self.items.remove(i);
                proof {
                    assert(views(pre)[i as int] == p@);
                    assert(views(pre).contains(p@));
                    lemma_views_remove(pre, i as int);
                    lemma_no_dup_remove_to_set(views(pre), i as int);
                }
                return true;
            }
            i = i + 1;
        }
        proof {
            assert(!views(self.items@).contains(p@));
            assert(self@.remove(p@) =~= self@);
        }
        false
    }

    /// Remove every peer.
    pub fn clear(&mut self)
        ensures
            final(self)@ =~= Set::<Seq<u8>>::empty(),
            final(self).wf(),
    {
        self.items = Vec::new();
    }

    /// The number of peers in the set.
    pub fn len(&self) -> (r: usize)
        requires
            self.wf(),
        ensures
            r == self@.len(),
    {
        proof {
            views(self.items@).unique_seq_to_set();
        }
        self.items.len()
    }

    /// A copy of the set as a vector of peers, one entry per member.
    pub fn snapshot(&self) -> (r: Vec<PeerId>)
        requires
            self.wf(),
        ensures
            views(r@) =~= views(self.items@),
            views(r@).to_set() =~= self@,
            views(r@).no_duplicates(),
    {
        let n = self.items.len();
        let mut out: Vec<PeerId> = Vec::new();
        let mut i: usize = 0;
        while i < n
            invariant
                n == self.items@.len(),
                0 <= i <= n,
                views(out@) =~= views(self.items@).subrange(0, i as int),
            decreases n - i,
        {
            let ghost outpre = out@;
            out.push(self.items[i].duplicate());
            proof {
                assert(views(out@) =~= views(outpre) + seq![self.items@[i as int]@]);
                assert(views(out@) =~= views(self.items@).subrange(0, i + 1));
            }
            i = i + 1;
        }
        proof {
            assert(views(out@) =~= views(self.items@));
        }
        out
    }
}

/// Removing an entry of the vector removes its identifier from the
/// sequence of identifiers.
proof fn lemma_views_remove(s: Seq<PeerId>, i: int)
    requires
        0 <= i < s.len(),
    ensures
        views(s.remove(i)) =~= views(s).remove(i),
{
    s.remove_ensures(i);
    views(s).remove_ensures(i);
}

/// Removing one occurrence from a duplicate-free sequence removes the
/// element from the set of its members.
proof fn lemma_no_dup_remove_to_set(s: Seq<Seq<u8>>, i: int)
    requires
        s.no_duplicates(),
        0 <= i < s.len(),
    ensures
        s.remove(i).to_set() =~= s.to_set().remove(s[i]),
        s.remove(i).no_duplicates(),
{
    s.remove_ensures(i);
    assert forall|x: Seq<u8>| s.remove(i).to_set().contains(x) implies s.to_set().remove(
        s[i],
    ).contains(x) by {
        let j = choose|j: int| 0 <= j < s.remove(i).len() && s.remove(i)[j] == x;
        if j < i {
            assert(s[j] == x);
        } else {
            assert(s[j + 1] == x);
        }
        assert(s.contains(x));
        assert(x != s[i]);
    };
    assert forall|x: Seq<u8>| s.to_set().remove(s[i]).contains(x) implies s.remove(
        i,
    ).to_set().contains(x) by {
        let j = choose|j: int| 0 <= j < s.len() && s[j] == x;
        if j < i {
            assert(s.remove(i)[j] == x);
        } else {
            assert(s.remove(i)[j - 1] == x);
        }
        assert(s.remove(i).contains(x));
    };
}

} // verus!
