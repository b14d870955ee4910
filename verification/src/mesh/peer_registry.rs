//! The peers this node knows, by id.
//!
//! Records are kept in ascending order of id (the order of `str`), one per
//! id, so that listing them needs no sort.
use crate::mesh::identity::{PeerIdentity, PeerIdentityView};
use crate::text::{
    lemma_text_lt_irreflexive, lemma_text_lt_total,
    lemma_text_lt_transitive, str_eq, str_lt, text_lt,
};
use vstd::prelude::*;

verus! {

#[derive(Debug)]
pub struct PeerRegistry {
    peers: Vec<PeerIdentity>,
}

/// Ids strictly ascend along the records.
pub open spec fn ids_ascending(s: Seq<PeerIdentityView>) -> bool {
    forall|i: int, j: int| 0 <= i < j < s.len() ==> text_lt(#[trigger] s[i].id, #[trigger] s[j].id)
}

/// The records of a listing by id.
pub open spec fn peer_map(s: Seq<PeerIdentityView>) -> Map<Seq<char>, PeerIdentityView> {
    Map::new(
        |k: Seq<char>| exists|i: int| 0 <= i < s.len() && #[trigger] s[i].id == k,
        |k: Seq<char>| s[choose|i: int| 0 <= i < s.len() && #[trigger] s[i].id == k],
    )
}

pub open spec fn peer_views(v: Seq<PeerIdentity>) -> Seq<PeerIdentityView> {
    v.map_values(|p: PeerIdentity| p@)
}

impl View for PeerRegistry {
    type V = Map<Seq<char>, PeerIdentityView>;

    closed spec fn view(&self) -> Map<Seq<char>, PeerIdentityView> {
        peer_map(peer_views(self.peers@))
    }
}

/// In an ascending listing, the record at `i` is the one its id maps to.
pub proof fn lemma_peer_map_at(s: Seq<PeerIdentityView>, i: int)
    requires
        ids_ascending(s),
        0 <= i < s.len(),
    ensures
        peer_map(s).dom().contains(s[i].id),
        peer_map(s)[s[i].id] == s[i],
{
    let k = s[i].id;
    assert(peer_map(s).dom().contains(k));
    let j = choose|j: int| 0 <= j < s.len() && #[trigger] s[j].id == k;
    if j != i {
        if j < i {
            assert(text_lt(s[j].id, s[i].id));
        } else {
            assert(text_lt(s[i].id, s[j].id));
        }
        lemma_text_lt_irreflexive(k);
    }
}

impl PeerRegistry {
    /// Records ascend by id.
    pub closed spec fn wf(&self) -> bool {
        ids_ascending(peer_views(self.peers@))
    }

    /// The records in ascending order of id.
    pub closed spec fn listing(&self) -> Seq<PeerIdentityView> {
        peer_views(self.peers@)
    }

    /// An empty registry.
    pub fn new() -> (r: Self)
        ensures
            r.wf(),
            r@ == Map::<Seq<char>, PeerIdentityView>::empty(),
    {
        let r = PeerRegistry { peers: Vec::new() };
        assert(r@ =~= Map::<Seq<char>, PeerIdentityView>::empty());
        r
    }

    /// Where `id` stands or would stand: the first record whose id is not
    /// below it, and whether that record has it.
    fn position(&self, id: &str) -> (r: (usize, bool))
        requires
            self.wf(),
        ensures
            r.0 <= self.peers@.len(),
            forall|j: int| 0 <= j < r.0 ==> text_lt(#[trigger] self.peers@[j]@.id, id@),
            r.0 < self.peers@.len() ==> !text_lt(self.peers@[r.0 as int]@.id, id@),
            r.1 == (r.0 < self.peers@.len() && self.peers@[r.0 as int]@.id == id@),
    {
        let mut i: usize = 0;
        while i < self.peers.len() && str_lt(self.peers[i].id.as_str(), id)
            invariant
                i <= self.peers@.len(),
                forall|j: int| 0 <= j < i ==> text_lt(#[trigger] self.peers@[j]@.id, id@),
            decreases self.peers@.len() - i,
        {
            i = i + 1;
        }
        let found = i < self.peers.len() && str_eq(self.peers[i].id.as_str(), id);
        (i, found)
    }

    /// Stores `peer` under its id, over any record the id had; returns it.
    pub fn register(&mut self, peer: PeerIdentity) -> (r: PeerIdentity)
        requires
            old(self).wf(),
        ensures
            final(self).wf(),
            final(self)@ == old(self)@.insert(peer@.id, peer@),
            r@ == peer@,
    {
        self.store(peer)
    }

    /// Stores `peer` under its id, over any record the id had; returns it.
    pub fn update(&mut self, peer: PeerIdentity) -> (r: PeerIdentity)
        requires
            old(self).wf(),
        ensures
            final(self).wf(),
            final(self)@ == old(self)@.insert(peer@.id, peer@),
            r@ == peer@,
    {
        self.store(peer)
    }

    fn store(&mut self, peer: PeerIdentity) -> (r: PeerIdentity)
        requires
            old(self).wf(),
        ensures
            final(self).wf(),
            final(self)@ == old(self)@.insert(peer@.id, peer@),
            r@ == peer@,
    {
        let ghost s = peer_views(self.peers@);
        let ghost x = peer@;
        let (p, found) = self.position(peer.id.as_str());
        let copy = peer.clone();
        if found {
            self.peers.set(p, peer);
            proof {
                let t = peer_views(self.peers@);
                assert(t =~= s.update(p as int, x));
                assert forall|i: int, j: int| 0 <= i < j < t.len() implies text_lt(
                    #[trigger] t[i].id,
                    #[trigger] t[j].id,
                ) by {
                    assert(s[i].id == t[i].id && s[j].id == t[j].id);
                }
                self.lemma_map_after_set(s, p as int, x);
            }
        } else {
            proof {
                assert forall|j: int| 0 <= j < s.len() implies s[j].id != x.id by {
                    assert(s[j] == self.peers@[j]@);
                    if j < p {
                        lemma_text_lt_irreflexive(x.id);
                    } else if j > p {
                        assert(text_lt(s[p as int].id, s[j].id));
                    }
                }
            }
            self.peers.insert(p, peer);
            proof {
                let t = peer_views(self.peers@);
                assert(t =~= s.insert(p as int, x));
                if (p as int) < s.len() {
                    lemma_text_lt_total(s[p as int].id, x.id);
                }
                assert forall|i: int, j: int| 0 <= i < j < t.len() implies text_lt(
                    #[trigger] t[i].id,
                    #[trigger] t[j].id,
                ) by {
                    if i < p && j < p {
                        assert(t[i] == s[i] && t[j] == s[j]);
                    } else if i < p && j == p {
                        assert(t[i] == s[i]);
                    } else if i < p {
                        assert(t[i] == s[i] && t[j] == s[j - 1]);
                        assert(text_lt(s[i].id, x.id));
                        if j - 1 > p {
                            assert(text_lt(s[p as int].id, s[j - 1].id));
                            lemma_text_lt_transitive(x.id, s[p as int].id, s[j - 1].id);
                        }
                        lemma_text_lt_transitive(s[i].id, x.id, s[j - 1].id);
                    } else if i == p {
                        assert(t[j] == s[j - 1]);
                        if j - 1 > p {
                            assert(text_lt(s[p as int].id, s[j - 1].id));
                            lemma_text_lt_transitive(x.id, s[p as int].id, s[j - 1].id);
                        }
                    } else {
                        assert(t[i] == s[i - 1] && t[j] == s[j - 1]);
                    }
                }
                self.lemma_map_after_insert(s, p as int, x);
            }
        }
        copy
    }

    proof fn lemma_map_after_set(&self, s: Seq<PeerIdentityView>, p: int, x: PeerIdentityView)
        requires
            ids_ascending(s),
            0 <= p < s.len(),
            s[p].id == x.id,
            peer_views(self.peers@) == s.update(p, x),
            ids_ascending(s.update(p, x)),
        ensures
            self@ == peer_map(s).insert(x.id, x),
    {
        let t = s.update(p, x);
        assert forall|k: Seq<char>| #[trigger] peer_map(t).dom().contains(k) <==> peer_map(
            s,
        ).insert(x.id, x).dom().contains(k) by {
            if peer_map(s).dom().contains(k) {
                let i = choose|i: int| 0 <= i < s.len() && #[trigger] s[i].id == k;
                assert(t[i].id == k);
            }
            if peer_map(t).dom().contains(k) {
                let i = choose|i: int| 0 <= i < t.len() && #[trigger] t[i].id == k;
                assert(s[i].id == k);
            }
        }
        assert forall|k: Seq<char>| #[trigger] peer_map(t).dom().contains(k) implies peer_map(t)[k]
            == peer_map(s).insert(x.id, x)[k] by {
            let i = choose|i: int| 0 <= i < t.len() && #[trigger] t[i].id == k;
            lemma_peer_map_at(t, i);
            if i != p {
                assert(s[i] == t[i]);
                if i < p {
                    assert(text_lt(s[i].id, s[p].id));
                } else {
                    assert(text_lt(s[p].id, s[i].id));
                }
                lemma_text_lt_irreflexive(s[i].id);
                lemma_peer_map_at(s, i);
            }
        }
        assert(peer_map(t) =~= peer_map(s).insert(x.id, x));
    }

    proof fn lemma_map_after_insert(&self, s: Seq<PeerIdentityView>, p: int, x: PeerIdentityView)
        requires
            ids_ascending(s),
            0 <= p <= s.len(),
            forall|j: int| 0 <= j < s.len() ==> s[j].id != x.id,
            peer_views(self.peers@) == s.insert(p, x),
            ids_ascending(s.insert(p, x)),
        ensures
            self@ == peer_map(s).insert(x.id, x),
    {
        let t = s.insert(p, x);
        assert(t[p] == x);
        assert forall|k: Seq<char>| #[trigger] peer_map(t).dom().contains(k) <==> peer_map(
            s,
        ).insert(x.id, x).dom().contains(k) by {
            if peer_map(s).dom().contains(k) {
                let i = choose|i: int| 0 <= i < s.len() && #[trigger] s[i].id == k;
                if i < p {
                    assert(t[i].id == k);
                } else {
                    assert(t[i + 1].id == k);
                }
            }
            if peer_map(t).dom().contains(k) && k != x.id {
                let i = choose|i: int| 0 <= i < t.len() && #[trigger] t[i].id == k;
                if i < p {
                    assert(s[i].id == k);
                } else {
                    assert(s[i - 1].id == k);
                }
            }
        }
        assert forall|k: Seq<char>| #[trigger] peer_map(t).dom().contains(k) implies peer_map(t)[k]
            == peer_map(s).insert(x.id, x)[k] by {
            let i = choose|i: int| 0 <= i < t.len() && #[trigger] t[i].id == k;
            lemma_peer_map_at(t, i);
            if i < p {
                assert(s[i] == t[i]);
                assert(s[i].id != x.id);
                lemma_peer_map_at(s, i);
                assert(peer_map(s).insert(x.id, x)[k] == peer_map(s)[k]);
                assert(peer_map(t)[k] == t[i]);
            } else if i > p {
                assert(s[i - 1] == t[i]);
                assert(s[i - 1].id != x.id);
                lemma_peer_map_at(s, i - 1);
                assert(peer_map(s).insert(x.id, x)[k] == peer_map(s)[k]);
                assert(peer_map(t)[k] == t[i]);
            } else {
                assert(t[i] == x);
                assert(peer_map(t)[k] == t[i]);
                assert(peer_map(s).insert(x.id, x)[k] == x);
            }
            assert(peer_map(t)[k] == peer_map(s).insert(x.id, x)[k]);
        }
        assert(peer_map(t) =~= peer_map(s).insert(x.id, x));
    }

    /// The record of `id`, if there is one.
    pub fn get(&self, id: &str) -> (r: Option<PeerIdentity>)
        requires
            self.wf(),
        ensures
            match r {
                Some(p) => self@.dom().contains(id@) && p@ == self@[id@],
                None => !self@.dom().contains(id@),
            },
    {
        let (p, found) = self.position(id);
        if found {
            proof {
                lemma_peer_map_at(peer_views(self.peers@), p as int);
            }
            Some(self.peers[p].clone())
        } else {
            proof {
                let s = peer_views(self.peers@);
                if self@.dom().contains(id@) {
                    let i = choose|i: int| 0 <= i < s.len() && #[trigger] s[i].id == id@;
                    if i < p {
                        lemma_text_lt_irreflexive(id@);
                    } else if i > p {
                        assert(text_lt(s[p as int].id, s[i].id));
                        lemma_text_lt_total(s[p as int].id, id@);
                    }
                }
            }
            None
        }
    }

    /// Every record, in ascending order of id.
    pub fn list(&self) -> (r: Vec<PeerIdentity>)
        requires
            self.wf(),
        ensures
            peer_views(r@) == self.listing(),
    {
        let mut out: Vec<PeerIdentity> = Vec::new();
        let mut i: usize = 0;
        while i < self.peers.len()
            invariant
                i <= self.peers@.len(),
                out@.len() == i,
                peer_views(out@) == peer_views(self.peers@).subrange(0, i as int),
            decreases self.peers@.len() - i,
        {
            let c = self.peers[i].clone();
            let ghost before = out@;
            out.push(c);
            proof {
                assert(out@ == before.push(c));
                assert forall|k: int| 0 <= k < i + 1 implies #[trigger] peer_views(out@)[k]
                    == peer_views(self.peers@)[k] by {
                    if k < i {
                        assert(out@[k] == before[k]);
                        assert(peer_views(before)[k] == peer_views(self.peers@).subrange(
                            0,
                            i as int,
                        )[k]);
                    }
                }
                assert(peer_views(out@) =~= peer_views(self.peers@).subrange(0, i + 1));
            }
            i = i + 1;
        }
        assert(peer_views(self.peers@).subrange(0, i as int) =~= peer_views(self.peers@));
        out
    }
}

impl Default for PeerRegistry {
    fn default() -> (r: Self)
        ensures
            r.wf(),
            r@ == Map::<Seq<char>, PeerIdentityView>::empty(),
    {
        PeerRegistry::new()
    }
}

/// A listing holds each known peer once, in ascending order of id, as the
/// registry has it.
pub proof fn law_listing_is_sorted_and_complete(reg: &PeerRegistry)
    requires
        reg.wf(),
    ensures
        ids_ascending(reg.listing()),
        forall|i: int|
            0 <= i < reg.listing().len() ==> reg@.dom().contains(#[trigger] reg.listing()[i].id)
                && reg@[reg.listing()[i].id] == reg.listing()[i],
        forall|k: Seq<char>| #[trigger]
            reg@.dom().contains(k) ==> exists|i: int|
                0 <= i < reg.listing().len() && #[trigger] reg.listing()[i].id == k,
{
    assert forall|i: int| 0 <= i < reg.listing().len() implies reg@.dom().contains(
        #[trigger] reg.listing()[i].id,
    ) && reg@[reg.listing()[i].id] == reg.listing()[i] by {
        lemma_peer_map_at(reg.listing(), i);
    }
}

/// A peer registered is found again by its id, and registering it leaves
/// every other id as it was.
pub proof fn law_register_then_get(before: &PeerRegistry, after: &PeerRegistry, peer: PeerIdentityView)
    requires
        after@ == before@.insert(peer.id, peer),
    ensures
        after@.dom().contains(peer.id),
        after@[peer.id] == peer,
        forall|k: Seq<char>|
            k != peer.id ==> (#[trigger] after@.dom().contains(k)) == before@.dom().contains(k)
                && (before@.dom().contains(k) ==> after@[k] == before@[k]),
{
}

} // verus!
