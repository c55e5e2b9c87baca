//! Team alignment.
//!
//! `All` counts as on the same team as anything, `Neither` as on no
//! team at all — not even its own.  Health and attack requests live with
//! the component set; combat resolution itself is outside this core.

use crate::art::bytes_eq;
use vstd::prelude::*;

verus! {

/// The alignment of an entity: which team it is on.
#[derive(Debug, Clone, Copy)]
pub enum Alignment {
    Players,
    Enemies,
    All,
    Neither,
}

/// What alignment equivalence means: `All` matches everything, `Neither`
/// matches nothing (itself included), and the named teams match
/// themselves.
pub open spec fn align_eq(a: Alignment, b: Alignment) -> bool {
    match a {
        Alignment::All => true,
        Alignment::Neither => false,
        _ => match b {
            Alignment::All => true,
            Alignment::Neither => false,
            _ => (a is Players && b is Players) || (a is Enemies && b is Enemies),
        },
    }
}

impl PartialEq for Alignment {
    fn eq(&self, other: &Alignment) -> (r: bool) {
        match self {
            Alignment::All => true,
            Alignment::Neither => false,
            _ => match other {
                Alignment::All => true,
                Alignment::Neither => false,
                _ => matches!((self, other), (Alignment::Players, Alignment::Players))
                    || matches!((self, other), (Alignment::Enemies, Alignment::Enemies)),
            },
        }
    }
}

impl vstd::std_specs::cmp::PartialEqSpecImpl for Alignment {
    open spec fn obeys_eq_spec() -> bool {
        true
    }

    open spec fn eq_spec(&self, other: &Alignment) -> bool {
        align_eq(*self, *other)
    }
}

/// The catalog name of each alignment, as bytes.
pub open spec fn spec_align_name(a: Alignment) -> Seq<u8> {
    match a {
        Alignment::Players => seq![80u8, 108u8, 97u8, 121u8, 101u8, 114u8, 115u8],
        Alignment::Enemies => seq![69u8, 110u8, 101u8, 109u8, 105u8, 101u8, 115u8],
        Alignment::All => seq![65u8, 108u8, 108u8],
        Alignment::Neither => seq![78u8, 101u8, 105u8, 116u8, 104u8, 101u8, 114u8],
    }
}

impl Alignment {
    /// This alignment's name, as bytes.
    pub fn name(&self) -> (r: Vec<u8>)
        ensures
            r@ == spec_align_name(*self),
    {
        let mut v: Vec<u8> = Vec::new();
        match self {
            Alignment::Players => {
                v.push(80);
                v.push(108);
                v.push(97);
                v.push(121);
                v.push(101);
                v.push(114);
                v.push(115);
            },
            Alignment::Enemies => {
                v.push(69);
                v.push(110);
                v.push(101);
                v.push(109);
                v.push(105);
                v.push(101);
                v.push(115);
            },
            Alignment::All => {
                v.push(65);
                v.push(108);
                v.push(108);
            },
            Alignment::Neither => {
                v.push(78);
                v.push(101);
                v.push(105);
                v.push(116);
                v.push(104);
                v.push(101);
                v.push(114);
            },
        }
        proof {
            assert(v@ =~= spec_align_name(*self));
        }
        v
    }

    /// Parse an alignment from its name; fails on anything else.
    pub fn str(s: &[u8]) -> (r: Result<Alignment, ()>)
        ensures
            match r {
                Ok(a) => s@ == spec_align_name(a),
                Err(_) => forall|a: Alignment| s@ != spec_align_name(a),
            },
    {
        let players = Alignment::Players.name();
        let enemies = Alignment::Enemies.name();
        let all = Alignment::All.name();
        let neither = Alignment::Neither.name();
        if bytes_eq(s, players.as_slice()) {
            Ok(Alignment::Players)
        } else if bytes_eq(s, enemies.as_slice()) {
            Ok(Alignment::Enemies)
        } else if bytes_eq(s, all.as_slice()) {
            Ok(Alignment::All)
        } else if bytes_eq(s, neither.as_slice()) {
            Ok(Alignment::Neither)
        } else {
            proof {
                assert forall|a: Alignment| s@ != spec_align_name(a) by {
                    match a {
                        Alignment::Players => assert(s@ != players@),
                        Alignment::Enemies => assert(s@ != enemies@),
                        Alignment::All => assert(s@ != all@),
                        Alignment::Neither => assert(s@ != neither@),
                    }
                }
            }
            Err(())
        }
    }
}

} // verus!
