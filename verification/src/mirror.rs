//! The client's local mirror of the replicated world.
//!
//! Each entity the client has learned of holds at most one component per
//! kind; an upsert overwrites the previous value of the same kind.  The
//! mirror is modelled as a finite map from local handle to a map from
//! component kind to component value.

use crate::components::ComponentView;
use crate::components::NetComponent;
use vstd::prelude::*;

verus! {

/// The kind-keyed contents of one component list.  A later entry of the
/// same kind wins, so on lists with unique kinds this is plain lookup.
pub open spec fn comps_map(s: Seq<ComponentView>) -> Map<u8, ComponentView>
    decreases s.len(),
{
    if s.len() == 0 {
        Map::empty()
    } else {
        comps_map(s.drop_last()).insert(s.last().kind(), s.last())
    }
}

/// Every component kind occurs at most once.
pub open spec fn kinds_unique(s: Seq<ComponentView>) -> bool {
    forall|i: int, j: int|
        0 <= i < j < s.len() ==> (#[trigger] s[i]).kind() != (#[trigger] s[j]).kind()
}

/// On a kind-unique list, the kind-keyed map holds exactly the kinds of
/// the list, each at its own value.
pub proof fn lemma_comps_map_index(s: Seq<ComponentView>, i: int)
    requires
        kinds_unique(s),
        0 <= i < s.len(),
    ensures
        comps_map(s).dom().contains(s[i].kind()),
        comps_map(s)[s[i].kind()] == s[i],
    decreases s.len(),
{
    if i == s.len() - 1 {
    } else {
        lemma_comps_map_index(s.drop_last(), i);
        assert(s.drop_last()[i] == s[i]);
    }
}

/// A kind absent from a kind-unique list is absent from its map.
pub proof fn lemma_comps_map_absent(s: Seq<ComponentView>, k: u8)
    requires
        forall|i: int| 0 <= i < s.len() ==> (#[trigger] s[i]).kind() != k,
    ensures
        !comps_map(s).dom().contains(k),
    decreases s.len(),
{
    if s.len() > 0 {
        lemma_comps_map_absent(s.drop_last(), k);
    }
}

/// Overwriting the entry at `i` with a value of the same kind updates the
/// map at that kind alone.
pub proof fn lemma_comps_map_update(s: Seq<ComponentView>, i: int, c: ComponentView)
    requires
        kinds_unique(s),
        0 <= i < s.len(),
        s[i].kind() == c.kind(),
    ensures
        comps_map(s.update(i, c)) =~= comps_map(s).insert(c.kind(), c),
    decreases s.len(),
{
    let t = s.update(i, c);
    if i == s.len() - 1 {
        assert(t.drop_last() =~= s.drop_last());
    } else {
        lemma_comps_map_update(s.drop_last(), i, c);
        assert(t.drop_last() =~= s.drop_last().update(i, c));
        assert(t.last() == s.last());
        assert(s.last().kind() != c.kind());
    }
}

/// One entity of the mirror: its local handle and its components, one per
/// kind.
pub struct MirrorEntity {
    pub handle: u32,
    pub components: Vec<NetComponent>,
}

impl View for MirrorEntity {
    type V = Map<u8, ComponentView>;

    open spec fn view(&self) -> Map<u8, ComponentView> {
        comps_map(self.comp_views())
    }
}

impl MirrorEntity {
    /// The views of the component list, in order.
    pub open spec fn comp_views(self) -> Seq<ComponentView> {
        self.components@.map_values(|c: NetComponent| c@)
    }

    /// One component per kind, every one well formed.
    pub open spec fn wf(self) -> bool {
        kinds_unique(self.comp_views()) && forall|i: int|
            0 <= i < self.comp_views().len() ==> (#[trigger] self.comp_views()[i]).wf()
    }
}

/// The handle-keyed contents of an entity list; later entries win.
pub open spec fn ents_map(s: Seq<MirrorEntity>) -> Map<u32, Map<u8, ComponentView>>
    decreases s.len(),
{
    if s.len() == 0 {
        Map::empty()
    } else {
        ents_map(s.drop_last()).insert(s.last().handle, s.last()@)
    }
}

/// Every handle occurs at most once.
pub open spec fn handles_unique(s: Seq<MirrorEntity>) -> bool {
    forall|i: int, j: int|
        0 <= i < j < s.len() ==> (#[trigger] s[i]).handle != (#[trigger] s[j]).handle
}

/// On a handle-unique list, the handle-keyed map holds each entity at its
/// own handle.
pub proof fn lemma_ents_map_index(s: Seq<MirrorEntity>, i: int)
    requires
        handles_unique(s),
        0 <= i < s.len(),
    ensures
        ents_map(s).dom().contains(s[i].handle),
        ents_map(s)[s[i].handle] == s[i]@,
    decreases s.len(),
{
    if i == s.len() - 1 {
    } else {
        lemma_ents_map_index(s.drop_last(), i);
        assert(s.drop_last()[i] == s[i]);
    }
}

/// A handle absent from a handle-unique list is absent from its map.
pub proof fn lemma_ents_map_absent(s: Seq<MirrorEntity>, h: u32)
    requires
        forall|i: int| 0 <= i < s.len() ==> (#[trigger] s[i]).handle != h,
    ensures
        !ents_map(s).dom().contains(h),
    decreases s.len(),
{
    if s.len() > 0 {
        lemma_ents_map_absent(s.drop_last(), h);
    }
}

/// Replacing the entity at `i` by one with the same handle updates the
/// map at that handle alone.
pub proof fn lemma_ents_map_update(s: Seq<MirrorEntity>, i: int, e: MirrorEntity)
    requires
        handles_unique(s),
        0 <= i < s.len(),
        s[i].handle == e.handle,
    ensures
        ents_map(s.update(i, e)) =~= ents_map(s).insert(e.handle, e@),
    decreases s.len(),
{
    let t = s.update(i, e);
    if i == s.len() - 1 {
        assert(t.drop_last() =~= s.drop_last());
    } else {
        lemma_ents_map_update(s.drop_last(), i, e);
        assert(t.drop_last() =~= s.drop_last().update(i, e));
        assert(t.last() == s.last());
        assert(s.last().handle != e.handle);
    }
}

/// The client's local mirror: locally allocated entities and their
/// components.
pub struct Mirror {
    pub next_handle: u32,
    pub entities: Vec<MirrorEntity>,
}

impl View for Mirror {
    type V = Map<u32, Map<u8, ComponentView>>;

    open spec fn view(&self) -> Map<u32, Map<u8, ComponentView>> {
        ents_map(self.entities@)
    }
}

impl Mirror {
    /// Handles are unique, below the allocator's next handle, and every
    /// entity is well formed.
    pub open spec fn wf(self) -> bool {
        &&& handles_unique(self.entities@)
        &&& forall|i: int|
            0 <= i < self.entities@.len() ==> (#[trigger] self.entities@[i]).handle
                < self.next_handle
        &&& forall|i: int| 0 <= i < self.entities@.len() ==> (#[trigger] self.entities@[i]).wf()
    }

    /// The handles of the entities, in storage order.
    pub open spec fn handles(self) -> Seq<u32> {
        self.entities@.map_values(|e: MirrorEntity| e.handle)
    }

    /// Where the entity with the given handle stands, if it is live and
    /// has a position.
    pub open spec fn spec_pos_of(self, h: u32) -> Option<crate::geom::Vec2> {
        if self@.dom().contains(h) && self@[h].dom().contains(crate::components::KIND_POS) {
            match self@[h][crate::components::KIND_POS] {
                ComponentView::Pos(p) => Some(p.at),
                _ => None,
            }
        } else {
            None
        }
    }

    pub fn new() -> (r: Mirror)
        ensures
            r.wf(),
            r@ =~= Map::<u32, Map<u8, ComponentView>>::empty(),
            r.next_handle == 0,
    {
        Mirror { next_handle: 0, entities: Vec::new() }
    }

    /// Allocate a fresh local entity with no components yet.
    pub fn create_entity(&mut self) -> (h: u32)
        requires
            old(self).wf(),
            old(self).next_handle < u32::MAX,
        ensures
            final(self).wf(),
            h == old(self).next_handle,
            !old(self)@.dom().contains(h),
            final(self)@ == old(self)@.insert(h, Map::empty()),
            final(self).next_handle == old(self).next_handle + 1,
            final(self).entities@.len() == old(self).entities@.len() + 1,
            final(self).entities@.drop_last() == old(self).entities@,
            final(self).entities@.last().handle == h,
            final(self).entities@.last().comp_views() == Seq::<ComponentView>::empty(),
    {
        let h = self.next_handle;
        proof {
            lemma_ents_map_absent(self.entities@, h);
        }
        let e = MirrorEntity { handle: h, components: Vec::new() };
        proof {
            assert(e.comp_views() =~= Seq::<ComponentView>::empty());
            assert(e@ =~= Map::<u8, ComponentView>::empty());
        }
        self.entities.push(e);
        self.next_handle = h + 1;
        proof {
            assert(self.entities@.drop_last() =~= old(self).entities@);
        }
        h
    }

    /// Find the index of the entity with the given handle.
    fn find(&self, h: u32) -> (r: Option<usize>)
        requires
            self.wf(),
        ensures
            match r {
                Some(i) => i < self.entities@.len() && self.entities@[i as int].handle == h
                    && self@.dom().contains(h) && self@[h] == self.entities@[i as int]@,
                None => !self@.dom().contains(h),
            },
    {
        let mut i: usize = 0;
        while i < self.entities.len()
            invariant
                self.wf(),
                i <= self.entities@.len(),
                forall|j: int| 0 <= j < i ==> (#[trigger] self.entities@[j]).handle != h,
            decreases self.entities@.len() - i,
        {
            if self.entities[i].handle == h {
                proof {
                    lemma_ents_map_index(self.entities@, i as int);
                }
                return Some(i);
            }
            i = i + 1;
        }
        proof {
            lemma_ents_map_absent(self.entities@, h);
        }
        None
    }

    /// Whether a handle is live in the mirror.
    pub fn contains(&self, h: u32) -> (r: bool)
        requires
            self.wf(),
        ensures
            r == self@.dom().contains(h),
    {
        match self.find(h) {
            Some(_) => true,
            None => false,
        }
    }

    /// Find the index of the component with the given kind.
    fn find_kind(v: &Vec<NetComponent>, k: u8) -> (r: Option<usize>)
        ensures
            match r {
                Some(i) => i < v@.len() && (v@[i as int])@.kind() == k,
                None => forall|t: int| 0 <= t < v@.len() ==> (#[trigger] v@[t])@.kind() != k,
            },
    {
        let mut j: usize = 0;
        while j < v.len()
            invariant
                j <= v@.len(),
                forall|t: int| 0 <= t < j ==> (#[trigger] v@[t])@.kind() != k,
            decreases v@.len() - j,
        {
            if v[j].kind_tag() == k {
                return Some(j);
            }
            j = j + 1;
        }
        None
    }

    /// Insert one component on the entity with the given handle,
    /// overwriting any existing component of the same kind.
    pub fn upsert(&mut self, h: u32, c: NetComponent) -> (hit: bool)
        requires
            old(self).wf(),
            c@.wf(),
        ensures
            final(self).wf(),
            hit == old(self)@.dom().contains(h),
            hit ==> final(self)@ == old(self)@.insert(h, old(self)@[h].insert(c@.kind(), c@)),
            !hit ==> final(self)@ == old(self)@,
            final(self).next_handle == old(self).next_handle,
            final(self).handles() == old(self).handles(),
    {
        let idx = match self.find(h) {
            Some(i) => i,
            None => {
                return false;
            },
        };
        let ghost old_ents = self.entities@;
        let ghost old_entity = self.entities@[idx as int];
        let ghost old_comps = old_entity.comp_views();
        let k = c.kind_tag();
        let n = self.entities[idx].components.len();
        let found = Self::find_kind(&self.entities[idx].components, k);
        proof {
            assert(old_entity.wf());
            match found {
                Some(t) => {
                    assert(old_comps[t as int].kind() == c@.kind());
                },
                None => {
                    assert(forall|t: int|
                        0 <= t < n ==> (#[trigger] old_comps[t]).kind() != c@.kind());
                },
            }
        }
        let mut comps: Vec<NetComponent> = Vec::new();
        let mut t: usize = 0;
        while t < n
            invariant
                t <= n,
                idx < self.entities@.len(),
                self.entities@[idx as int] == old_entity,
                n == old_entity.components@.len(),
                old_comps == old_entity.comp_views(),
                comps@.len() == t,
                forall|i: int| 0 <= i < t ==> (#[trigger] comps@[i])@ == old_comps[i],
            decreases n - t,
        {
            let cl = self.entities[idx].components[t].clone_component();
            proof {
                assert(cl@ == old_comps[t as int]);
            }
            comps.push(cl);
            t = t + 1;
        }
        proof {
            let f = |x: NetComponent| x@;
            assert forall|i: int| 0 <= i < comps@.len() implies comps@.map_values(f)[i]
                == old_comps[i] by {
                assert(comps@.map_values(f)[i] == f(comps@[i]));
            }
            assert(comps@.map_values(f) =~= old_comps);
        }
        match found {
            Some(i) => {
                comps.set(i, c);
                proof {
                    assert(comps@.map_values(|x: NetComponent| x@) =~= old_comps.update(
                        i as int,
                        c@,
                    ));
                }
            },
            None => {
                comps.push(c);
                proof {
                    assert(comps@.map_values(|x: NetComponent| x@) =~= old_comps.push(c@));
                }
            },
        }
        let e = MirrorEntity { handle: h, components: comps };
        proof {
            let new_comps = e.comp_views();
            match found {
                Some(i) => {
                    lemma_comps_map_update(old_comps, i as int, c@);
                    assert forall|a: int, b: int|
                        0 <= a < b < new_comps.len() implies (#[trigger] new_comps[a]).kind() != (
                    #[trigger] new_comps[b]).kind() by {
                        assert(old_comps[a].kind() != old_comps[b].kind());
                    }
                },
                None => {
                    assert(new_comps.drop_last() =~= old_comps);
                    assert forall|a: int, b: int|
                        0 <= a < b < new_comps.len() implies (#[trigger] new_comps[a]).kind() != (
                    #[trigger] new_comps[b]).kind() by {
                        if b < new_comps.len() - 1 {
                            assert(old_comps[a].kind() != old_comps[b].kind());
                        }
                    }
                },
            }
            assert(e@ == old_entity@.insert(c@.kind(), c@));
            assert(old_entity.handle == h) by {
                lemma_ents_map_index(old_ents, idx as int);
            }
        }
        self.entities.set(idx, e);
        proof {
            lemma_ents_map_update(old_ents, idx as int, e);
            assert(self.handles() =~= old(self).handles());
        }
        true
    }

    /// Remove the component of one kind from the entity with the given
    /// handle, if either exists.
    pub fn remove_kind(&mut self, h: u32, k: u8) -> (hit: bool)
        requires
            old(self).wf(),
        ensures
            final(self).wf(),
            hit == old(self)@.dom().contains(h),
            hit ==> final(self)@ == old(self)@.insert(h, old(self)@[h].remove(k)),
            !hit ==> final(self)@ == old(self)@,
            final(self).next_handle == old(self).next_handle,
            final(self).handles() == old(self).handles(),
    {
        let idx = match self.find(h) {
            Some(i) => i,
            None => {
                return false;
            },
        };
        let ghost old_ents = self.entities@;
        let ghost old_entity = self.entities@[idx as int];
        let ghost old_comps = old_entity.comp_views();
        let mut out: Vec<NetComponent> = Vec::new();
        let n = self.entities[idx].components.len();
        let mut j: usize = 0;
        while j < n
            invariant
                j <= n,
                idx < self.entities@.len(),
                self.entities@[idx as int] == old_entity,
                n == old_entity.components@.len(),
                old_comps == old_entity.comp_views(),
                out@.map_values(|c: NetComponent| c@) =~= drop_kind(
                    old_comps.subrange(0, j as int),
                    k,
                ),
            decreases n - j,
        {
            proof {
                assert(old_comps.subrange(0, j as int + 1).drop_last() =~= old_comps.subrange(
                    0,
                    j as int,
                ));
            }
            if self.entities[idx].components[j].kind_tag() != k {
                out.push(self.entities[idx].components[j].clone_component());
            }
            j = j + 1;
            proof {
                assert(out@.map_values(|c: NetComponent| c@) =~= drop_kind(
                    old_comps.subrange(0, j as int),
                    k,
                ));
            }
        }
        proof {
            assert(old_comps.subrange(0, n as int) =~= old_comps);
        }
        let e = MirrorEntity { handle: h, components: out };
        proof {
            let new_comps = e.comp_views();
            assert(new_comps =~= drop_kind(old_comps, k));
            lemma_drop_kind_unique(old_comps, k);
            lemma_comps_map_drop_kind(old_comps, k);
            assert(e@ == old_entity@.remove(k));
            assert(old_entity.handle == h) by {
                lemma_ents_map_index(old_ents, idx as int);
            }
        }
        self.entities.set(idx, e);
        proof {
            lemma_ents_map_update(old_ents, idx as int, e);
            assert(self.handles() =~= old(self).handles());
        }
        true
    }

    /// Read the component of one kind on the entity with the given
    /// handle, if either exists.
    pub fn get_kind(&self, h: u32, k: u8) -> (r: Option<NetComponent>)
        requires
            self.wf(),
        ensures
            match r {
                Some(c) => self@.dom().contains(h) && self@[h].dom().contains(k) && self@[h][k]
                    == c@ && c@.wf() && c@.kind() == k,
                None => !self@.dom().contains(h) || !self@[h].dom().contains(k),
            },
    {
        let idx = match self.find(h) {
            Some(i) => i,
            None => {
                return None;
            },
        };
        let ghost cvs = self.entities@[idx as int].comp_views();
        match Self::find_kind(&self.entities[idx].components, k) {
            Some(j) => {
                let c = self.entities[idx].components[j].clone_component();
                proof {
                    lemma_comps_map_index(cvs, j as int);
                }
                Some(c)
            },
            None => {
                proof {
                    lemma_comps_map_absent(cvs, k);
                }
                None
            },
        }
    }
}

/// The list with every component of one kind left out, order kept.
pub open spec fn drop_kind(s: Seq<ComponentView>, k: u8) -> Seq<ComponentView>
    decreases s.len(),
{
    if s.len() == 0 {
        Seq::empty()
    } else {
        let rest = drop_kind(s.drop_last(), k);
        if s.last().kind() == k {
            rest
        } else {
            rest.push(s.last())
        }
    }
}

/// Every element of the dropped list stands somewhere in the original.
proof fn lemma_drop_kind_elems(s: Seq<ComponentView>, k: u8, i: int)
    requires
        0 <= i < drop_kind(s, k).len(),
    ensures
        exists|j: int| 0 <= j < s.len() && drop_kind(s, k)[i] == s[j],
    decreases s.len(),
{
    let dk = drop_kind(s, k);
    let rest = drop_kind(s.drop_last(), k);
    if s.last().kind() == k || i < dk.len() - 1 {
        lemma_drop_kind_elems(s.drop_last(), k, i);
        let j = choose|j: int| 0 <= j < s.drop_last().len() && rest[i] == s.drop_last()[j];
        assert(0 <= j < s.len() && dk[i] == s[j]);
    } else {
        assert(dk[i] == s[s.len() - 1]);
    }
}

/// Dropping a kind from a kind-unique, well-formed list keeps it
/// kind-unique and well formed.
proof fn lemma_drop_kind_unique(s: Seq<ComponentView>, k: u8)
    requires
        kinds_unique(s),
        forall|i: int| 0 <= i < s.len() ==> (#[trigger] s[i]).wf(),
    ensures
        kinds_unique(drop_kind(s, k)),
        forall|i: int| 0 <= i < drop_kind(s, k).len() ==> (#[trigger] drop_kind(s, k)[i]).wf(),
    decreases s.len(),
{
    let dk = drop_kind(s, k);
    if s.len() == 0 {
    } else {
        lemma_drop_kind_unique(s.drop_last(), k);
        let rest = drop_kind(s.drop_last(), k);
        assert forall|i: int| 0 <= i < dk.len() implies (#[trigger] dk[i]).wf() by {
            lemma_drop_kind_elems(s, k, i);
        }
        if s.last().kind() != k {
            assert forall|a: int, b: int|
                0 <= a < b < dk.len() implies (#[trigger] dk[a]).kind() != (
            #[trigger] dk[b]).kind() by {
                if b == dk.len() - 1 {
                    lemma_drop_kind_elems(s.drop_last(), k, a);
                    let j = choose|j: int|
                        0 <= j < s.drop_last().len() && rest[a] == s.drop_last()[j];
                    assert(s[j].kind() != s.last().kind());
                } else {
                    assert(rest[a].kind() != rest[b].kind());
                }
            }
        }
    }
}

/// Dropping a kind from a kind-unique list removes exactly that kind from
/// its map.
proof fn lemma_comps_map_drop_kind(s: Seq<ComponentView>, k: u8)
    requires
        kinds_unique(s),
    ensures
        comps_map(drop_kind(s, k)) =~= comps_map(s).remove(k),
    decreases s.len(),
{
    if s.len() == 0 {
    } else {
        lemma_comps_map_drop_kind(s.drop_last(), k);
        if s.last().kind() == k {
            assert forall|i: int|
                0 <= i < s.drop_last().len() implies (#[trigger] s.drop_last()[i]).kind()
                != k by {
                assert(s[i].kind() != s.last().kind());
            }
            lemma_comps_map_absent(s.drop_last(), k);
        } else {
            assert(drop_kind(s, k).drop_last() =~= drop_kind(s.drop_last(), k));
        }
    }
}

} // verus!
