//! The sessions by the ids that they receive under.

use std::collections::HashMap;
use vstd::prelude::*;

use crate::application::ApplicationLayer;
use crate::zeta::{Zeta, ZetaView};

verus! {

/// The places of the sessions by the ids that they receive under.
pub struct SessionMap {
    map: HashMap<u32, usize>,
}

impl View for SessionMap {
    type V = Map<u32, usize>;

    closed spec fn view(&self) -> Map<u32, usize> {
        self.map@
    }
}

/// The map without an id.
pub open spec fn unmapped(map: Map<u32, usize>, kid: Option<u32>) -> Map<u32, usize> {
    match kid {
        Some(kid) => map.remove(kid),
        None => map,
    }
}

/// The map with an id that leads to the session at place `i`.
pub open spec fn mapped(map: Map<u32, usize>, kid: Option<u32>, i: usize) -> Map<u32, usize> {
    match kid {
        Some(kid) => map.insert(kid, i),
        None => map,
    }
}

/// The map without the ids of a session.
pub open spec fn kids_unmapped<App: ApplicationLayer>(
    map: Map<u32, usize>,
    zeta: ZetaView<App>,
) -> Map<u32, usize> {
    unmapped(unmapped(map, zeta.key(true).recv.kid), zeta.key(false).recv.kid)
}

/// The map with the ids of a session at place `i`.
pub open spec fn kids_mapped<App: ApplicationLayer>(
    map: Map<u32, usize>,
    zeta: ZetaView<App>,
    i: usize,
) -> Map<u32, usize> {
    mapped(mapped(map, zeta.key(true).recv.kid, i), zeta.key(false).recv.kid, i)
}

impl SessionMap {
    /// A map of no session.
    pub fn new() -> (r: SessionMap)
        ensures
            r@ == Map::<u32, usize>::empty(),
    {
        broadcast use vstd::std_specs::hash::group_hash_axioms;

        SessionMap { map: HashMap::new() }
    }

    /// The place of the session that receives under the id `kid`.
    pub fn get(&self, kid: u32) -> (r: Option<usize>)
        ensures
            r == if self@.contains_key(kid) {
                Some(self@[kid])
            } else {
                None
            },
    {
        broadcast use vstd::std_specs::hash::group_hash_axioms;

        match self.map.get(&kid) {
            Some(i) => Some(*i),
            None => None,
        }
    }

    /// Adds an id that leads to the session at place `i`.
    fn insert(&mut self, kid: Option<u32>, i: usize)
        ensures
            final(self)@ == mapped(old(self)@, kid, i),
    {
        broadcast use vstd::std_specs::hash::group_hash_axioms;

        if let Some(kid) = kid {
            self.map.insert(kid, i);
        }
    }

    /// Takes an id out.
    fn remove(&mut self, kid: Option<u32>)
        ensures
            final(self)@ == unmapped(old(self)@, kid),
    {
        broadcast use vstd::std_specs::hash::group_hash_axioms;

        if let Some(kid) = kid {
            self.map.remove(&kid);
            assert(self@ =~= old(self)@.remove(kid));
        }
    }

    /// Adds the ids of the session at place `i`.
    pub fn add_kids<App: ApplicationLayer>(&mut self, zeta: &Zeta<App>, i: usize)
        ensures
            final(self)@ == kids_mapped(old(self)@, zeta@, i),
    {
        self.insert(zeta.key_ref(true).recv.kid, i);
        self.insert(zeta.key_ref(false).recv.kid, i);
    }

    /// Takes the ids of a session out.
    pub fn remove_kids<App: ApplicationLayer>(&mut self, zeta: &Zeta<App>)
        ensures
            final(self)@ == kids_unmapped(old(self)@, zeta@),
    {
        self.remove(zeta.key_ref(true).recv.kid);
        self.remove(zeta.key_ref(false).recv.kid);
    }
}

} // verus!
