//! Souls: the server-side binding of a connected client to the creature it
//! controls, and the routing of that client's input to the creature.
use vstd::prelude::*;

use crate::items::EntityId;
use crate::network::{ClientId, NetId, Server};

verus! {

/// A client bound to a creature.
pub struct Soul {
    /// Display name sent by the client in its `Hello`.
    pub name: String,
    pub client_id: ClientId,
    /// The creature the soul controls, if any.
    pub bound_to: Option<EntityId>,
}

/// The souls of the connected clients, in the order they were bound.
pub struct Souls {
    souls: Vec<Soul>,
}

/// The first of `ss` (client, creature) that belongs to `client`.
pub open spec fn first_soul_of(ss: Seq<(ClientId, Option<EntityId>)>, client: ClientId) -> Option<int> {
    if exists|i: int| 0 <= i < ss.len() && ss[i].0 == client {
        Some(
            choose|i: int|
                0 <= i < ss.len() && ss[i].0 == client && forall|j: int|
                    0 <= j < i ==> ss[j].0 != client,
        )
    } else {
        None
    }
}

/// What a new soul is announced with: the creature's network id, the
/// template kind of a creature, and the client that owns it.
#[derive(Debug, Clone, Copy, PartialEq, Eq, Structural)]
pub struct BindPlan {
    pub net_id: NetId,
    pub kind: u16,
    pub owner: ClientId,
}

/// Template kind of a player creature.
pub const CREATURE_KIND: u16 = 0;

impl Souls {
    /// Each soul as (client, creature), in order.
    pub closed spec fn bindings(&self) -> Seq<(ClientId, Option<EntityId>)> {
        self.souls@.map_values(|s: Soul| (s.client_id, s.bound_to))
    }

    /// The display names, in order.
    pub closed spec fn names(&self) -> Seq<Seq<char>> {
        self.souls@.map_values(|s: Soul| s.name@)
    }

    pub fn new() -> (r: Souls)
        ensures
            r.bindings() == Seq::<(ClientId, Option<EntityId>)>::empty(),
            r.names() == Seq::<Seq<char>>::empty(),
    {
        let r = Souls { souls: Vec::new() };
        assert(r.bindings() =~= Seq::<(ClientId, Option<EntityId>)>::empty());
        assert(r.names() =~= Seq::<Seq<char>>::empty());
        r
    }

    /// Position of the first soul of `client`.
    fn position_of(&self, client: ClientId) -> (r: Option<usize>)
        ensures
            r == match first_soul_of(self.bindings(), client) {
                Some(i) => Some(i as usize),
                None => None::<usize>,
            },
            r matches Some(i) ==> i < self.souls@.len() && first_soul_of(self.bindings(), client)
                == Some(i as int),
    {
        let ghost b = self.bindings();
        let mut i: usize = 0;
        while i < self.souls.len()
            invariant
                b == self.bindings(),
                i <= b.len(),
                forall|j: int| 0 <= j < i ==> b[j].0 != client,
            decreases b.len() - i,
        {
            if self.souls[i].client_id == client {
                proof {
                    assert(b[i as int].0 == client);
                    let c = choose|k: int|
                        0 <= k < b.len() && b[k].0 == client && forall|j: int|
                            0 <= j < k ==> b[j].0 != client;
                    assert(c == i) by {
                        if c < i {
                            assert(b[c].0 != client);
                        }
                        if c > i {
                            assert(b[i as int].0 != client);
                        }
                    }
                }
                return Some(i);
            }
            i = i + 1;
        }
        None
    }

    /// A client joined: allocates the network id of its creature, which the
    /// caller spawns and announces to everyone as owned by the client.
    pub fn plan_bind(server: &mut Server, client: ClientId) -> (r: BindPlan)
        requires
            old(server).upcoming() < u64::MAX,
        ensures
            r.net_id == NetId(old(server).upcoming()),
            final(server).upcoming() == old(server).upcoming() + 1,
            r.kind == CREATURE_KIND,
            r.owner == client,
    {
        let net_id = server.next_net_id();
        BindPlan { net_id, kind: CREATURE_KIND, owner: client }
    }

    /// Records the soul of `client`, called `name`, bound to `creature`.
    pub fn bind(&mut self, name: String, client: ClientId, creature: EntityId)
        ensures
            final(self).bindings() == old(self).bindings().push((client, Some(creature))),
            final(self).names() == old(self).names().push(name@),
    {
        let ghost b = self.bindings();
        let ghost n = self.names();
        let ghost nm = name@;
        self.souls.push(Soul { name, client_id: client, bound_to: Some(creature) });
        assert(self.bindings() =~= b.push((client, Some(creature))));
        assert(self.names() =~= n.push(nm));
    }

    /// A client left: removes its first soul and returns the creature it was
    /// bound to (whose input the caller clears), or `None` when the client
    /// has no soul.
    pub fn unbind(&mut self, client: ClientId) -> (r: Option<Option<EntityId>>)
        ensures
            match first_soul_of(old(self).bindings(), client) {
                Some(i) => r == Some(old(self).bindings()[i].1) && final(self).bindings()
                    == old(self).bindings().remove(i) && final(self).names() == old(
                    self,
                ).names().remove(i),
                None => r is None && final(self).bindings() == old(self).bindings()
                    && final(self).names() == old(self).names(),
            },
    {
        match self.position_of(client) {
            Some(i) => {
                let ghost b = self.bindings();
                let ghost n = self.names();
                let soul = self.souls.remove(i);
                assert(self.bindings() =~= b.remove(i as int));
                assert(self.names() =~= n.remove(i as int));
                Some(soul.bound_to)
            },
            None => None,
        }
    }

    /// The creature that input from `client` steers: the one bound to its
    /// first soul, if any.
    pub fn route_input(&self, client: ClientId) -> (r: Option<EntityId>)
        ensures
            r == match first_soul_of(self.bindings(), client) {
                Some(i) => self.bindings()[i].1,
                None => None::<EntityId>,
            },
    {
        match self.position_of(client) {
            Some(i) => self.souls[i].bound_to,
            None => None,
        }
    }
}

/// A client without a soul that is bound to a creature has its input
/// routed to that creature; once it leaves, its input goes nowhere.
pub proof fn lemma_bind_route_unbind(
    before: Seq<(ClientId, Option<EntityId>)>,
    client: ClientId,
    creature: EntityId,
)
    requires
        first_soul_of(before, client) is None,
    ensures
        ({
            let bound = before.push((client, Some(creature)));
            &&& first_soul_of(bound, client) == Some(before.len() as int)
            &&& bound[before.len() as int].1 == Some(creature)
            &&& first_soul_of(bound.remove(before.len() as int), client) is None
        }),
{
    let bound = before.push((client, Some(creature)));
    let n = before.len() as int;
    assert(bound[n].0 == client);
    assert forall|j: int| 0 <= j < n implies bound[j].0 != client by {
        assert(bound[j] == before[j]);
    }
    let c = choose|i: int|
        0 <= i < bound.len() && bound[i].0 == client && forall|j: int|
            0 <= j < i ==> bound[j].0 != client;
    assert(c == n) by {
        if c < n {
            assert(bound[c].0 != client);
        }
    }
    assert(bound.remove(n) =~= before);
}

} // verus!
