//! The withdrawal registry: which withdrawal ids are in flight for which
//! wallet identity.
//!
//! Abstractly the registry is a finite map from [`Identity`] to the set of
//! in-flight [`WithdrawalId`]s, with the invariant that an identity with no
//! in-flight withdrawals does not appear at all — status queries read the
//! absence of a key as "no withdrawals", so empty sets must never be stored.
//! Concretely it is a duplicate-free list of (identity, id) pairs, which
//! makes that invariant hold by construction.

use vstd::prelude::*;
use crate::types::{Identity, WithdrawalId};

verus! {

broadcast use vstd::seq_lib::lemma_seq_contains_after_push;

/// The in-flight set recorded for `identity`, read as empty when the
/// identity is absent.
pub open spec fn ids_for(m: Map<Identity, Set<WithdrawalId>>, identity: Identity) -> Set<
    WithdrawalId,
> {
    if m.dom().contains(identity) {
        m[identity]
    } else {
        Set::empty()
    }
}

/// The registry map after `record(identity, id)`: `id` joins the identity's
/// set, which is created if absent.
pub open spec fn recorded(
    m: Map<Identity, Set<WithdrawalId>>,
    identity: Identity,
    id: WithdrawalId,
) -> Map<Identity, Set<WithdrawalId>> {
    m.insert(identity, ids_for(m, identity).insert(id))
}

/// The registry map after `release(id)`: `id` leaves every set it was in,
/// and an identity whose set becomes empty leaves the map entirely.
pub open spec fn released(m: Map<Identity, Set<WithdrawalId>>, id: WithdrawalId) -> Map<
    Identity,
    Set<WithdrawalId>,
> {
    Map::new(
        |k: Identity| m.dom().contains(k) && (exists|x: WithdrawalId| m[k].contains(x) && x != id),
        |k: Identity| m[k].remove(id),
    )
}

/// No identity is mapped to an empty set.
pub open spec fn no_empty_sets(m: Map<Identity, Set<WithdrawalId>>) -> bool {
    forall|k: Identity| #[trigger] m.dom().contains(k) ==> exists|x: WithdrawalId| m[k].contains(x)
}

/// The registry of in-flight withdrawals, one entry per (identity, id) pair.
pub struct WithdrawalRegistry {
    pairs: Vec<(Identity, WithdrawalId)>,
}

impl View for WithdrawalRegistry {
    type V = Map<Identity, Set<WithdrawalId>>;

    closed spec fn view(&self) -> Map<Identity, Set<WithdrawalId>> {
        Map::new(
            |k: Identity| exists|id: WithdrawalId| #[trigger] self.pairs@.contains((k, id)),
            |k: Identity| Set::new(|id: WithdrawalId| self.pairs@.contains((k, id))),
        )
    }
}

impl WithdrawalRegistry {
    /// Well-formed: the pair list holds no duplicate (identity, id) pair.
    pub closed spec fn wf(self) -> bool {
        self.pairs@.no_duplicates()
    }

    /// An empty registry: no identity has any withdrawal in flight.
    pub fn new() -> (r: Self)
        ensures
            r.wf(),
            r@ == Map::<Identity, Set<WithdrawalId>>::empty(),
    {
        let r = WithdrawalRegistry { pairs: Vec::new() };
        proof {
            assert(r@ =~~= Map::<Identity, Set<WithdrawalId>>::empty());
        }
        r
    }

    /// Inserts `id` into the set for `identity`, creating the set if absent;
    /// recording the same pair again changes nothing.
    pub fn record(&mut self, identity: Identity, id: WithdrawalId)
        requires
            old(self).wf(),
        ensures
            final(self).wf(),
            final(self)@ == recorded(old(self)@, identity, id),
    {
        let n: usize = self.pairs.len();
        let mut i: usize = 0;
        let mut found: bool = false;
        while i < n
            invariant
                i <= n,
                n == self.pairs.len(),
                self.pairs@ == old(self).pairs@,
                found <==> exists|j: int|
                    0 <= j < i && old(self).pairs@[j] == (identity, id),
            decreases n - i,
        {
            let p = self.pairs[i];
            if p.0 == identity && p.1 == id {
                found = true;
            }
            i += 1;
        }
        if found {
            proof {
                assert(old(self).pairs@.contains((identity, id)));
                lemma_view_unchanged_when_present(*self, identity, id);
            }
        } else {
            proof {
                assert(!old(self).pairs@.contains((identity, id)));
            }
            let ghost before = *self;
            self.pairs.push((identity, id));
            proof {
                lemma_push_wf(before, *self, identity, id);
                lemma_push_view(before, *self, identity, id);
            }
        }
    }
    /// Returns the set of withdrawal ids currently in flight for `identity`,
    /// empty when the identity is absent; querying never mutates the
    /// registry, so it cannot leave a persistent empty entry behind.
    pub fn query(&self, identity: Identity) -> (r: Vec<WithdrawalId>)
        requires
            self.wf(),
        ensures
            r@.no_duplicates(),
            forall|id: WithdrawalId| #[trigger]
                r@.contains(id) <==> ids_for(self@, identity).contains(id),
    {
        let n: usize = self.pairs.len();
        let mut r: Vec<WithdrawalId> = Vec::new();
        let mut i: usize = 0;
        while i < n
            invariant
                i <= n,
                n == self.pairs.len(),
                self.wf(),
                r@.no_duplicates(),
                forall|id: WithdrawalId| #[trigger]
                    r@.contains(id) <==> exists|j: int|
                        0 <= j < i && self.pairs@[j] == (identity, id),
            decreases n - i,
        {
            let p = self.pairs[i];
            if p.0 == identity {
                proof {
                    if r@.contains(p.1) {
                        let j = choose|j: int| 0 <= j < i && self.pairs@[j] == (identity, p.1);
                        assert(self.pairs@[j] == self.pairs@[i as int]);
                        assert(false);
                    }
                }
                r.push(p.1);
            }
            i += 1;
        }
        proof {
            assert forall|id: WithdrawalId| #[trigger]
                r@.contains(id) <==> ids_for(self@, identity).contains(id) by {
                if r@.contains(id) {
                    assert(self.pairs@.contains((identity, id)));
                    assert(self@.dom().contains(identity));
                }
                if ids_for(self@, identity).contains(id) {
                    assert(self@.dom().contains(identity));
                    assert(self.pairs@.contains((identity, id)));
                    let j = choose|j: int|
                        0 <= j < self.pairs@.len() && self.pairs@[j] == (identity, id);
                    assert(0 <= j < n && self.pairs@[j] == (identity, id));
                }
            }
        }
        r
    }

    /// Whether `identity` currently appears as a key at all — queries read
    /// `false` here as "no withdrawals in flight".
    pub fn contains_identity(&self, identity: Identity) -> (r: bool)
        ensures
            r == self@.dom().contains(identity),
    {
        let n: usize = self.pairs.len();
        let mut i: usize = 0;
        let mut found: bool = false;
        while i < n
            invariant
                i <= n,
                n == self.pairs.len(),
                found <==> exists|j: int| 0 <= j < i && self.pairs@[j].0 == identity,
            decreases n - i,
        {
            if self.pairs[i].0 == identity {
                found = true;
            }
            i += 1;
        }
        proof {
            if found {
                let j = choose|j: int| 0 <= j < n && self.pairs@[j].0 == identity;
                assert(self.pairs@.contains((identity, self.pairs@[j].1)));
            }
            if self@.dom().contains(identity) {
                let x = choose|x: WithdrawalId| self.pairs@.contains((identity, x));
                let j = choose|j: int|
                    0 <= j < self.pairs@.len() && self.pairs@[j] == (identity, x);
                assert(0 <= j < n && self.pairs@[j].0 == identity);
            }
        }
        found
    }

    /// Removes `id` from whichever identity holds it; an identity whose set
    /// becomes empty is deleted entirely. Releasing an id that is not
    /// present changes nothing.
    pub fn release(&mut self, id: WithdrawalId)
        requires
            old(self).wf(),
        ensures
            final(self).wf(),
            final(self)@ == released(old(self)@, id),
    {
        let n: usize = self.pairs.len();
        let mut kept: Vec<(Identity, WithdrawalId)> = Vec::new();
        let mut i: usize = 0;
        while i < n
            invariant
                i <= n,
                n == self.pairs.len(),
                self.pairs@ == old(self).pairs@,
                self.wf(),
                kept@.no_duplicates(),
                forall|p: (Identity, WithdrawalId)| #[trigger]
                    kept@.contains(p) <==> (exists|j: int|
                        0 <= j < i && self.pairs@[j] == p) && p.1 != id,
            decreases n - i,
        {
            let p = self.pairs[i];
            if !(p.1 == id) {
                proof {
                    if kept@.contains(p) {
                        let j = choose|j: int| 0 <= j < i && self.pairs@[j] == p;
                        assert(self.pairs@[j] == self.pairs@[i as int]);
                        assert(false);
                    }
                }
                kept.push(p);
            }
            i += 1;
        }
        let ghost before = *self;
        self.pairs = kept;
        proof {
            lemma_release_view(before, *self, id);
        }
    }
}

/// A pair list holding exactly the pairs of `before` whose id differs from
/// `id` has the `released` view.
proof fn lemma_release_view(before: WithdrawalRegistry, after: WithdrawalRegistry, id: WithdrawalId)
    requires
        forall|p: (Identity, WithdrawalId)| #[trigger]
            after.pairs@.contains(p) <==> before.pairs@.contains(p) && p.1 != id,
    ensures
        after@ == released(before@, id),
{
    let m = before@;
    let r = released(m, id);
    assert forall|k: Identity| after@.dom().contains(k) <==> r.dom().contains(k) by {
        if after@.dom().contains(k) {
            let x = choose|x: WithdrawalId| after.pairs@.contains((k, x));
            assert(before.pairs@.contains((k, x)) && x != id);
            assert(m.dom().contains(k));
            assert(m[k].contains(x));
        }
        if r.dom().contains(k) {
            let x = choose|x: WithdrawalId| m[k].contains(x) && x != id;
            assert(before.pairs@.contains((k, x)));
            assert(after.pairs@.contains((k, x)));
        }
    }
    assert forall|k: Identity| #[trigger]
        r.dom().contains(k) implies after@[k] =~= r[k] by {
        assert forall|x: WithdrawalId| after@[k].contains(x) <==> r[k].contains(x) by {
            assert(after@[k].contains(x) <==> after.pairs@.contains((k, x)));
            assert(m[k].contains(x) <==> before.pairs@.contains((k, x)));
        }
    }
    assert(after@ =~~= r);
}

/// However a registry was built, its view never maps an identity to an
/// empty set: an identity is in the domain only because some pair carries
/// it, and that pair's id is in its set.
pub proof fn lemma_registry_no_empty_sets(reg: WithdrawalRegistry)
    ensures
        no_empty_sets(reg@),
{
    assert forall|k: Identity| #[trigger]
        reg@.dom().contains(k) implies exists|x: WithdrawalId| reg@[k].contains(x) by {
        let x = choose|x: WithdrawalId| reg.pairs@.contains((k, x));
        assert(reg@[k].contains(x));
    }
}

/// Recording keeps every set non-empty: the touched identity's set gains a
/// member and no other set changes.
pub proof fn lemma_recorded_no_empty_sets(
    m: Map<Identity, Set<WithdrawalId>>,
    identity: Identity,
    id: WithdrawalId,
)
    requires
        no_empty_sets(m),
    ensures
        no_empty_sets(recorded(m, identity, id)),
{
    let r = recorded(m, identity, id);
    assert forall|k: Identity| #[trigger]
        r.dom().contains(k) implies exists|x: WithdrawalId| r[k].contains(x) by {
        if k == identity {
            assert(r[k].contains(id));
        } else {
            let x = choose|x: WithdrawalId| m[k].contains(x);
            assert(r[k].contains(x));
        }
    }
}

/// Releasing keeps every set non-empty: an identity survives a release only
/// if some other id of its remains, and that id witnesses the set.
pub proof fn lemma_released_no_empty_sets(m: Map<Identity, Set<WithdrawalId>>, id: WithdrawalId)
    ensures
        no_empty_sets(released(m, id)),
{
    let r = released(m, id);
    assert forall|k: Identity| #[trigger]
        r.dom().contains(k) implies exists|x: WithdrawalId| r[k].contains(x) by {
        let x = choose|x: WithdrawalId| m[k].contains(x) && x != id;
        assert(r[k].contains(x));
    }
}

/// Right after `record(identity, id)`, a query for `identity` includes `id`.
pub proof fn lemma_record_then_query(
    m: Map<Identity, Set<WithdrawalId>>,
    identity: Identity,
    id: WithdrawalId,
)
    ensures
        ids_for(recorded(m, identity, id), identity).contains(id),
{
}

/// A recorded id stays visible across any later `record`, whatever identity
/// and id that later call carries.
pub proof fn lemma_record_preserves_membership(
    m: Map<Identity, Set<WithdrawalId>>,
    identity: Identity,
    id: WithdrawalId,
    other_identity: Identity,
    other_id: WithdrawalId,
)
    requires
        ids_for(m, identity).contains(id),
    ensures
        ids_for(recorded(m, other_identity, other_id), identity).contains(id),
{
}

/// A recorded id stays visible across the release of any different id; with
/// the two lemmas above, a query between `record(identity, id)` and the
/// first `release(id)` always includes `id`.
pub proof fn lemma_release_preserves_others(
    m: Map<Identity, Set<WithdrawalId>>,
    identity: Identity,
    id: WithdrawalId,
    released_id: WithdrawalId,
)
    requires
        ids_for(m, identity).contains(id),
        released_id != id,
    ensures
        ids_for(released(m, released_id), identity).contains(id),
{
    let r = released(m, released_id);
    assert(m.dom().contains(identity));
    assert(m[identity].contains(id) && id != released_id);
    assert(r.dom().contains(identity));
    assert(r[identity].contains(id));
}

/// Releasing is idempotent: a second `release` of the same id finds nothing
/// left to remove and changes nothing.
pub proof fn lemma_release_idempotent(m: Map<Identity, Set<WithdrawalId>>, id: WithdrawalId)
    ensures
        released(released(m, id), id) == released(m, id),
{
    let once = released(m, id);
    let twice = released(once, id);
    assert forall|k: Identity| twice.dom().contains(k) <==> once.dom().contains(k) by {
        if once.dom().contains(k) {
            let x = choose|x: WithdrawalId| m[k].contains(x) && x != id;
            assert(once[k].contains(x));
        }
    }
    assert forall|k: Identity| #[trigger]
        once.dom().contains(k) implies twice[k] =~= once[k] by {}
    assert(twice =~~= once);
}

/// Releasing an id that no identity holds is a no-op on a registry map with
/// no empty sets — the confirmation callback may thus fire for an unknown
/// or already-released id without effect.
pub proof fn lemma_release_absent(m: Map<Identity, Set<WithdrawalId>>, id: WithdrawalId)
    requires
        no_empty_sets(m),
        forall|k: Identity| #[trigger] m.dom().contains(k) ==> !m[k].contains(id),
    ensures
        released(m, id) == m,
{
    let r = released(m, id);
    assert forall|k: Identity| r.dom().contains(k) <==> m.dom().contains(k) by {
        if m.dom().contains(k) {
            let x = choose|x: WithdrawalId| m[k].contains(x);
            assert(m[k].contains(x) && x != id);
        }
    }
    assert forall|k: Identity| #[trigger] m.dom().contains(k) implies r[k] =~= m[k] by {}
    assert(r =~~= m);
}

/// When the pair is already present, recording it is a no-op on the view.
proof fn lemma_view_unchanged_when_present(
    reg: WithdrawalRegistry,
    identity: Identity,
    id: WithdrawalId,
)
    requires
        reg.pairs@.contains((identity, id)),
    ensures
        reg@ == recorded(reg@, identity, id),
{
    assert(reg@.dom().contains(identity));
    assert(reg@[identity].contains(id));
    assert(reg@ =~~= recorded(reg@, identity, id));
}

/// Pushing a pair that is not yet present keeps the list duplicate-free.
proof fn lemma_push_wf(
    before: WithdrawalRegistry,
    after: WithdrawalRegistry,
    identity: Identity,
    id: WithdrawalId,
)
    requires
        before.wf(),
        !before.pairs@.contains((identity, id)),
        after.pairs@ == before.pairs@.push((identity, id)),
    ensures
        after.wf(),
{
    let s = before.pairs@;
    let t = after.pairs@;
    assert forall|a: int, b: int| 0 <= a < b < t.len() implies t[a] != t[b] by {
        if b < s.len() {
        } else {
            assert(t[b] == (identity, id));
            assert(t[a] == s[a]);
            if t[a] == (identity, id) {
                assert(s.contains((identity, id)));
            }
        }
    }
}

/// Pushing a pair performs exactly `recorded` on the view.
proof fn lemma_push_view(
    before: WithdrawalRegistry,
    after: WithdrawalRegistry,
    identity: Identity,
    id: WithdrawalId,
)
    requires
        after.pairs@ == before.pairs@.push((identity, id)),
    ensures
        after@ == recorded(before@, identity, id),
{
    let m = before@;
    let r = recorded(m, identity, id);
    assert(after.pairs@.contains((identity, id)));
    assert forall|k: Identity| after@.dom().contains(k) <==> r.dom().contains(k) by {
        if after@.dom().contains(k) {
            let x = choose|x: WithdrawalId| after.pairs@.contains((k, x));
            if (k, x) == (identity, id) {
                assert(r.dom().contains(identity));
            } else {
                assert(before.pairs@.contains((k, x)));
                assert(m.dom().contains(k));
            }
        }
        if r.dom().contains(k) {
            if k == identity {
                assert(after.pairs@.contains((identity, id)));
            } else {
                assert(m.dom().contains(k));
                let x = choose|x: WithdrawalId| before.pairs@.contains((k, x));
                assert(after.pairs@.contains((k, x)));
            }
        }
    }
    assert forall|k: Identity, x: WithdrawalId|
        after.pairs@.contains((k, x)) <==> (before.pairs@.contains((k, x)) || (k, x) == (
            identity,
            id,
        )) by {}
    assert(after@ =~~= r);
}

} // verus!
