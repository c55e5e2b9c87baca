//! The per-client identity translation layer.
//!
//! A client never sees the server's entity identifiers directly: every
//! server-global id it learns of is bound to exactly one client-local
//! handle, and every handle this layer created maps back to exactly one
//! server-global id.  This module is the single owner of that
//! relationship; the bidirectional map itself comes from the `bimap`
//! crate and is used through the trusted declarations below.

use vstd::prelude::*;

verus! {

#[verifier::external_type_specification]
#[verifier::external_body]
#[verifier::reject_recursive_types(L)]
#[verifier::reject_recursive_types(R)]
#[verifier::reject_recursive_types(LS)]
#[verifier::reject_recursive_types(RS)]
pub struct ExBiHashMap<L, R, LS, RS>(bimap::BiHashMap<L, R, LS, RS>);

/// The concrete bidirectional map this layer owns: server-global id on
/// the left, client-local handle on the right.
pub type IdBimap = bimap::BiHashMap<u32, u32>;

/// What a bidirectional id map holds: the finite partial map from
/// server-global id (the left values) to client-local handle (the right
/// values).
pub uninterp spec fn bimap_pairs(m: bimap::BiHashMap<u32, u32>) -> Map<u32, u32>;

/// Relies on bimap::BiHashMap::new: a fresh bimap holds no pairs.
#[verifier::external_body]
fn bimap_new() -> (r: IdBimap)
    ensures
        forall|k: u32| !bimap_pairs(r).dom().contains(k),
{
    bimap::BiHashMap::new()
}

/// Relies on bimap::BiHashMap::insert_no_overwrite: the pair goes in
/// exactly when neither the left nor the right value is already present;
/// otherwise the map is unchanged and the call reports failure.
#[verifier::external_body]
fn bimap_insert_no_overwrite(m: &mut bimap::BiHashMap<u32, u32>, l: u32, r: u32) -> (ok: bool)
    ensures
        ok == (!bimap_pairs(*old(m)).dom().contains(l) && forall|k: u32|
            bimap_pairs(*old(m)).dom().contains(k) ==> #[trigger] bimap_pairs(*old(m))[k] != r),
        ok ==> bimap_pairs(*final(m)) == bimap_pairs(*old(m)).insert(l, r),
        !ok ==> bimap_pairs(*final(m)) == bimap_pairs(*old(m)),
{
    m.insert_no_overwrite(l, r).is_ok()
}

/// Relies on bimap::BiHashMap::get_by_left: the right value paired with
/// the given left value, if the pair exists.
#[verifier::external_body]
fn bimap_get_by_left(m: &bimap::BiHashMap<u32, u32>, l: u32) -> (r: Option<u32>)
    ensures
        match r {
            Some(v) => bimap_pairs(*m).dom().contains(l) && bimap_pairs(*m)[l] == v,
            None => !bimap_pairs(*m).dom().contains(l),
        },
{
    m.get_by_left(&l).copied()
}

/// Relies on bimap::BiHashMap::get_by_right: the left value paired with
/// the given right value, if the pair exists.
#[verifier::external_body]
fn bimap_get_by_right(m: &bimap::BiHashMap<u32, u32>, r: u32) -> (l: Option<u32>)
    ensures
        match l {
            Some(v) => bimap_pairs(*m).dom().contains(v) && bimap_pairs(*m)[v] == r,
            None => forall|k: u32|
                bimap_pairs(*m).dom().contains(k) ==> #[trigger] bimap_pairs(*m)[k] != r,
        },
{
    m.get_by_right(&r).copied()
}

/// Relies on bimap::BiHashMap::remove_by_right: removes the pair holding
/// the given right value, if one exists, and returns its left value.
#[verifier::external_body]
fn bimap_remove_by_right(m: &mut bimap::BiHashMap<u32, u32>, r: u32) -> (removed: Option<u32>)
    ensures
        match removed {
            Some(sid) => bimap_pairs(*old(m)).dom().contains(sid) && bimap_pairs(*old(m))[sid]
                == r && bimap_pairs(*final(m)) == bimap_pairs(*old(m)).remove(sid),
            None => bimap_pairs(*final(m)) == bimap_pairs(*old(m)) && forall|k: u32|
                bimap_pairs(*old(m)).dom().contains(k) ==> #[trigger] bimap_pairs(*old(m))[k] != r,
        },
{
    m.remove_by_right(&r).map(|p| p.0)
}

/// The client's bidirectional mapping between server-global entity ids
/// and client-local entity handles.
pub struct ServerToLocalIds(pub bimap::BiHashMap<u32, u32>);

impl View for ServerToLocalIds {
    type V = Map<u32, u32>;

    open spec fn view(&self) -> Map<u32, u32> {
        bimap_pairs(self.0)
    }
}

impl ServerToLocalIds {
    /// At most one local handle per server id and vice versa: the map
    /// never sends two server ids to the same handle.
    pub open spec fn wf(self) -> bool {
        forall|k1: u32, k2: u32|
            self@.dom().contains(k1) && self@.dom().contains(k2) && k1 != k2 ==> #[trigger] self@[
                k1
            ] != #[trigger] self@[k2]
    }

    pub fn new() -> (r: ServerToLocalIds)
        ensures
            forall|k: u32| !r@.dom().contains(k),
            r.wf(),
    {
        ServerToLocalIds(bimap_new())
    }

    /// Look up the local handle bound to a server-global id.
    pub fn resolve(&self, server_id: u32) -> (r: Option<u32>)
        ensures
            match r {
                Some(h) => self@.dom().contains(server_id) && self@[server_id] == h,
                None => !self@.dom().contains(server_id),
            },
    {
        bimap_get_by_left(&self.0, server_id)
    }

    /// Look up the server-global id bound to a local handle.
    pub fn resolve_local(&self, local: u32) -> (r: Option<u32>)
        ensures
            match r {
                Some(sid) => self@.dom().contains(sid) && self@[sid] == local,
                None => forall|k: u32|
                    self@.dom().contains(k) ==> #[trigger] self@[k] != local,
            },
    {
        bimap_get_by_right(&self.0, local)
    }

    /// Bind a fresh bijective pair.  Fails — leaving the map unchanged —
    /// when the server id is already bound or the handle is already in
    /// use, since a duplicate for a live pair marks a protocol violation.
    pub fn bind(&mut self, server_id: u32, local: u32) -> (ok: bool)
        requires
            old(self).wf(),
        ensures
            final(self).wf(),
            ok == (!old(self)@.dom().contains(server_id) && forall|k: u32|
                old(self)@.dom().contains(k) ==> #[trigger] old(self)@[k] != local),
            ok ==> final(self)@ == old(self)@.insert(server_id, local),
            !ok ==> final(self)@ == old(self)@,
    {
        let ok = bimap_insert_no_overwrite(&mut self.0, server_id, local);
        proof {
            assert forall|k1: u32, k2: u32|
                self@.dom().contains(k1) && self@.dom().contains(k2) && k1 != k2 implies #[trigger] self@[
                k1
            ] != #[trigger] self@[k2] by {
                if ok && k1 == server_id {
                    assert(old(self)@[k2] != local);
                } else if ok && k2 == server_id {
                    assert(old(self)@[k1] != local);
                } else {
                    assert(old(self)@[k1] != old(self)@[k2]);
                }
            }
        }
        ok
    }

    /// Remove both directions of the pair holding a local handle; called
    /// when the entity is destroyed.  Returns the server id it was bound
    /// to, if any.
    pub fn unbind(&mut self, local: u32) -> (r: Option<u32>)
        requires
            old(self).wf(),
        ensures
            final(self).wf(),
            match r {
                Some(sid) => old(self)@.dom().contains(sid) && old(self)@[sid] == local
                    && final(self)@ == old(self)@.remove(sid),
                None => final(self)@ == old(self)@ && forall|k: u32|
                    old(self)@.dom().contains(k) ==> #[trigger] old(self)@[k] != local,
            },
    {
        let r = bimap_remove_by_right(&mut self.0, local);
        proof {
            assert forall|k1: u32, k2: u32|
                self@.dom().contains(k1) && self@.dom().contains(k2) && k1 != k2 implies #[trigger] self@[
                k1
            ] != #[trigger] self@[k2] by {
                assert(old(self)@[k1] != old(self)@[k2]);
            }
        }
        r
    }
}

/// The bijection invariant: a bound pair can be read back in both
/// directions, and no other server id shares its handle.  Together with
/// the contracts of `bind` and `unbind` — which keep `wf` through any
/// call sequence — this is the two-way agreement of every bound pair.
pub proof fn lemma_bijection(t: &ServerToLocalIds, server_id: u32, local: u32)
    requires
        t.wf(),
        t@.dom().contains(server_id),
        t@[server_id] == local,
    ensures
        forall|k: u32| t@.dom().contains(k) && #[trigger] t@[k] == local ==> k == server_id,
{
}

} // verus!
