//! Items: containers with slots, and the rules by which actors pick up, drop,
//! store and take items.
//!
//! The ECS world is represented by plain values: an entity is its `u64` bit
//! pattern, the facts the rules read about an item are an [`ItemFacts`], and
//! every entity that carries a container is an entry of a [`Containers`] map.
//! Distances are measured by the caller; the rules receive the verdict as a
//! [`Reach`].
use std::collections::HashMap;
use std::collections::HashSet;
use vstd::prelude::*;
use vstd::std_specs::hash::spec_keys_iter;
use vstd::std_specs::iter::IteratorSpec;

use crate::network::NetId;
use crate::things::{ItemEvent, NetIdIndex};

verus! {

broadcast use vstd::std_specs::hash::group_hash_axioms;

/// An entity of the world, by its bit pattern.
#[derive(Debug, Clone, Copy, PartialEq, Eq, Hash, Structural)]
pub struct EntityId(pub u64);

/// Position of the first occurrence of `x` in `s`, or `s.len()` when `x`
/// does not occur.
pub open spec fn first_index(s: Seq<Option<EntityId>>, x: Option<EntityId>) -> nat
    decreases s.len(),
{
    if s.len() == 0 {
        0
    } else if s[0] == x {
        0
    } else {
        1 + first_index(s.drop_first(), x)
    }
}

/// Whether `x` occurs in `s`.
pub open spec fn occurs(s: Seq<Option<EntityId>>, x: Option<EntityId>) -> bool {
    first_index(s, x) < s.len()
}

/// The slots after `e` went into the first free slot (unchanged when full).
pub open spec fn slots_with(s: Seq<Option<EntityId>>, e: EntityId) -> Seq<Option<EntityId>> {
    if occurs(s, None) {
        s.update(first_index(s, None) as int, Some(e))
    } else {
        s
    }
}

/// The slots after the first slot holding `e` was emptied (unchanged when
/// `e` is not held).
pub open spec fn slots_without(s: Seq<Option<EntityId>>, e: EntityId) -> Seq<Option<EntityId>> {
    if occurs(s, Some(e)) {
        s.update(first_index(s, Some(e)) as int, None)
    } else {
        s
    }
}

/// `first_index` is the first position holding `x`.
pub proof fn lemma_first_index(s: Seq<Option<EntityId>>, x: Option<EntityId>)
    ensures
        first_index(s, x) <= s.len(),
        forall|j: int| 0 <= j < first_index(s, x) ==> s[j] != x,
        first_index(s, x) < s.len() ==> s[first_index(s, x) as int] == x,
        occurs(s, x) <==> exists|j: int| 0 <= j < s.len() && s[j] == x,
    decreases s.len(),
{
    if s.len() > 0 && s[0] != x {
        lemma_first_index(s.drop_first(), x);
        assert forall|j: int| 0 <= j < first_index(s, x) implies s[j] != x by {
            if j > 0 {
                assert(s[j] == s.drop_first()[j - 1]);
            }
        }
        if exists|j: int| 0 <= j < s.len() && s[j] == x {
            let j = choose|j: int| 0 <= j < s.len() && s[j] == x;
            assert(s.drop_first()[j - 1] == x);
        }
    }
}

/// The first position holding `x` is `i` when no earlier position does.
proof fn lemma_first_index_at(s: Seq<Option<EntityId>>, x: Option<EntityId>, i: int)
    requires
        0 <= i <= s.len(),
        forall|j: int| 0 <= j < i ==> s[j] != x,
        i == s.len() || s[i] == x,
    ensures
        first_index(s, x) == i,
{
    lemma_first_index(s, x);
}

/// Inventory container: a fixed list of slots, each empty or holding one
/// entity.  The number of slots is the capacity.
#[derive(Debug)]
pub struct Container {
    pub slots: Vec<Option<EntityId>>,
}

impl View for Container {
    type V = Seq<Option<EntityId>>;

    open spec fn view(&self) -> Seq<Option<EntityId>> {
        self.slots@
    }
}

impl Clone for Container {
    fn clone(&self) -> (r: Container)
        ensures
            r@ == self@,
    {
        Container { slots: self.slots.clone() }
    }
}

impl Container {
    /// An empty container with `capacity` slots.
    pub fn with_capacity(capacity: usize) -> (r: Container)
        ensures
            r@ == Seq::new(capacity as nat, |i: int| None::<EntityId>),
    {
        let mut slots: Vec<Option<EntityId>> = Vec::new();
        let mut i: usize = 0;
        while i < capacity
            invariant
                i <= capacity,
                slots@ == Seq::new(i as nat, |k: int| None::<EntityId>),
            decreases capacity - i,
        {
            slots.push(None);
            i = i + 1;
        }
        Container { slots }
    }

    /// The number of slots.
    pub fn capacity(&self) -> (r: usize)
        ensures
            r == self@.len(),
    {
        self.slots.len()
    }

    /// Position of the first slot equal to `x`, or the capacity.
    fn position_of(&self, x: Option<EntityId>) -> (r: usize)
        ensures
            r == first_index(self@, x),
    {
        let mut i: usize = 0;
        while i < self.slots.len()
            invariant
                i <= self.slots@.len(),
                forall|j: int| 0 <= j < i ==> self.slots@[j] != x,
            decreases self.slots@.len() - i,
        {
            if self.slots[i] == x {
                proof {
                    lemma_first_index_at(self@, x, i as int);
                }
                return i;
            }
            i = i + 1;
        }
        proof {
            lemma_first_index_at(self@, x, i as int);
        }
        i
    }

    /// Whether at least one slot is empty.
    pub fn has_space(&self) -> (r: bool)
        ensures
            r == occurs(self@, None),
            r <==> exists|j: int| 0 <= j < self@.len() && self@[j] is None,
    {
        proof {
            lemma_first_index(self@, None);
        }
        self.position_of(None) < self.slots.len()
    }

    /// Puts `entity` into the first free slot and returns that slot's index,
    /// or returns `None` (and changes nothing) when every slot is taken.
    pub fn insert(&mut self, entity: EntityId) -> (r: Option<usize>)
        ensures
            final(self)@ == slots_with(old(self)@, entity),
            r == if occurs(old(self)@, None) {
                Some(first_index(old(self)@, None) as usize)
            } else {
                None::<usize>
            },
    {
        proof {
            lemma_first_index(self@, None);
        }
        let i = self.position_of(None);
        if i < self.slots.len() {
            self.slots.set(i, Some(entity));
            Some(i)
        } else {
            None
        }
    }

    /// Empties the first slot holding `entity`; returns whether there was one.
    pub fn remove(&mut self, entity: EntityId) -> (r: bool)
        ensures
            final(self)@ == slots_without(old(self)@, entity),
            r == occurs(old(self)@, Some(entity)),
    {
        proof {
            lemma_first_index(self@, Some(entity));
        }
        let i = self.position_of(Some(entity));
        if i < self.slots.len() {
            self.slots.set(i, None);
            true
        } else {
            false
        }
    }

    /// Whether some slot holds `entity`.
    pub fn contains(&self, entity: EntityId) -> (r: bool)
        ensures
            r == occurs(self@, Some(entity)),
            r <==> exists|j: int| 0 <= j < self@.len() && self@[j] == Some(entity),
    {
        proof {
            lemma_first_index(self@, Some(entity));
        }
        self.position_of(Some(entity)) < self.slots.len()
    }
}

/// Putting an entity that a container does not hold into it, and then
/// removing it again, gives back the container as it was.
pub proof fn lemma_insert_then_remove(s: Seq<Option<EntityId>>, e: EntityId)
    requires
        !occurs(s, Some(e)),
    ensures
        slots_without(slots_with(s, e), e) == s,
{
    lemma_first_index(s, None);
    lemma_first_index(s, Some(e));
    if occurs(s, None) {
        let i = first_index(s, None) as int;
        let t = s.update(i, Some(e));
        lemma_first_index(t, Some(e));
        assert forall|j: int| 0 <= j < i implies t[j] != Some(e) by {
            assert(t[j] == s[j]);
        }
        lemma_first_index_at(t, Some(e), i);
        assert(t.update(i, None) =~= s);
    }
}

/// Inserting never changes the capacity, and an entity that was inserted
/// is held afterwards exactly when there was room.
pub proof fn lemma_insert_holds(s: Seq<Option<EntityId>>, e: EntityId)
    ensures
        slots_with(s, e).len() == s.len(),
        occurs(slots_with(s, e), Some(e)) <== occurs(s, None),
        slots_without(s, e).len() == s.len(),
        !occurs(s, Some(e)) ==> slots_without(s, e) == s,
{
    lemma_first_index(s, None);
    if occurs(s, None) {
        let i = first_index(s, None) as int;
        let t = s.update(i, Some(e));
        lemma_first_index(t, Some(e));
        assert(t[i] == Some(e));
    }
}

/// Where the item rules last put an item's transform.
#[derive(Debug, Clone, Copy, PartialEq, Eq, Structural)]
pub enum Placement {
    /// As it was: the item rules have not moved it.
    Kept,
    /// The identity transform, which aligns the item with the hand anchor
    /// it is parented to.
    HandAnchor,
    /// At the world position carried by drop number `n` of the pass that
    /// moved it: the index of the drop request among the drops, or of the
    /// item event among the events.
    DropPoint(u64),
}

/// The components of an entity with the item marker that the item rules
/// read and write.
#[derive(Debug, Clone, Copy, PartialEq, Eq, Structural)]
pub struct ItemFacts {
    /// It has a collider of its own.
    pub has_collider: bool,
    /// It has a gravity scale of its own.
    pub has_gravity: bool,
    /// Its physics is stashed away (it is held or stored).
    pub stashed: bool,
    /// The entity it is parented to, if any.
    pub parent: Option<EntityId>,
    /// It is a dynamic rigid body with a linear velocity.
    pub rigid_body: bool,
    /// It is hidden.
    pub hidden: bool,
    /// Where its transform was last put.
    pub placement: Placement,
}

/// The item with its physics stashed: the stash is there, and the collider,
/// gravity scale, rigid body and velocity are gone.
pub open spec fn stash_physics(g: ItemFacts) -> ItemFacts {
    ItemFacts { stashed: true, has_collider: false, has_gravity: false, rigid_body: false, ..g }
}

/// The item with its stashed physics put back: the stash is gone, and it is
/// a dynamic rigid body again with the stashed collider and gravity scale
/// and a zero velocity.
pub open spec fn restore_physics(g: ItemFacts) -> ItemFacts {
    ItemFacts { stashed: false, has_collider: true, has_gravity: true, rigid_body: true, ..g }
}

/// The item parented to `hand` at the hand anchor.
pub open spec fn into_hand(g: ItemFacts, hand: EntityId) -> ItemFacts {
    ItemFacts { parent: Some(hand), placement: Placement::HandAnchor, ..g }
}

/// The item without a parent, at the position of drop `at`.
pub open spec fn released_at(g: ItemFacts, at: u64) -> ItemFacts {
    ItemFacts { parent: None, placement: Placement::DropPoint(at), ..g }
}

/// The item without a parent, hidden inside a container.
pub open spec fn put_away(g: ItemFacts) -> ItemFacts {
    ItemFacts { parent: None, hidden: true, ..g }
}

/// The item after a server pickup into `hand`.
pub open spec fn picked_up_facts(g: ItemFacts, hand: EntityId) -> ItemFacts {
    into_hand(stash_physics(g), hand)
}

/// The item after a server drop at drop `at`.
pub open spec fn dropped_facts(g: ItemFacts, at: u64) -> ItemFacts {
    released_at(restore_physics(g), at)
}

/// The item after a server take into `hand`: held like a pickup, and shown.
pub open spec fn taken_facts(g: ItemFacts, hand: EntityId) -> ItemFacts {
    ItemFacts { hidden: false, ..picked_up_facts(g, hand) }
}

/// `states` with the entry of `item`, if it has one, replaced by `g`.
pub open spec fn set_item(states: Map<u64, ItemFacts>, item: EntityId, g: ItemFacts) -> Map<u64, ItemFacts> {
    if states.contains_key(item.0) {
        states.insert(item.0, g)
    } else {
        states
    }
}

/// Replaces the entry of `item`, if it has one, by `g`.
fn set_item_facts(states: &mut HashMap<u64, ItemFacts>, item: EntityId, g: ItemFacts)
    ensures
        final(states)@ == set_item(old(states)@, item, g),
{
    if states.contains_key(&item.0) {
        states.insert(item.0, g);
    }
}

/// The entry of `item`, or the facts of an item with none of the
/// components when there is none.
fn item_facts_of(states: &HashMap<u64, ItemFacts>, item: EntityId) -> (r: ItemFacts)
    ensures
        states@.contains_key(item.0) ==> r == states@[item.0],
{
    match states.get(&item.0) {
        Some(g) => *g,
        None => ItemFacts {
            has_collider: false,
            has_gravity: false,
            stashed: false,
            parent: None,
            rigid_body: false,
            hidden: false,
            placement: Placement::Kept,
        },
    }
}

/// The parts of the world that the item rules read: which entities are
/// items and their components, which are hand slots, and the children of
/// each entity in order.
pub struct ItemScene {
    pub items: HashMap<u64, ItemFacts>,
    pub hand_slots: HashSet<u64>,
    pub children: HashMap<u64, Vec<EntityId>>,
}

impl ItemScene {
    /// The children of `e` in order (none when it has no children list).
    pub open spec fn children_of(&self, e: EntityId) -> Seq<EntityId> {
        if self.children@.contains_key(e.0) {
            self.children@[e.0]@
        } else {
            Seq::empty()
        }
    }

    /// Whether `e` carries the item marker.
    pub open spec fn is_item(&self, e: EntityId) -> bool {
        self.items@.contains_key(e.0)
    }

    /// The facts of item `e`.
    pub open spec fn facts(&self, e: EntityId) -> ItemFacts {
        self.items@[e.0]
    }
}

/// Every entity that carries a container, by entity.
pub struct Containers {
    pub by_entity: HashMap<u64, Container>,
}

impl Containers {
    /// The slots of every container, by entity.
    pub open spec fn slots(&self) -> Map<u64, Seq<Option<EntityId>>> {
        self.by_entity@.map_values(|c: Container| c@)
    }
}

/// The first of `cs` that is a hand slot whose container has a slot equal
/// to `want`: an empty one for `None`, one holding the item for `Some`.
pub open spec fn first_hand(
    cs: Seq<EntityId>,
    hands: Set<u64>,
    slots: Map<u64, Seq<Option<EntityId>>>,
    want: Option<EntityId>,
) -> Option<EntityId>
    decreases cs.len(),
{
    if cs.len() == 0 {
        None
    } else if hands.contains(cs[0].0) && slots.contains_key(cs[0].0) && occurs(
        slots[cs[0].0],
        want,
    ) {
        Some(cs[0])
    } else {
        first_hand(cs.drop_first(), hands, slots, want)
    }
}

/// `first_hand` of a suffix steps over a child that does not qualify.
proof fn lemma_first_hand_step(
    cs: Seq<EntityId>,
    i: int,
    hands: Set<u64>,
    slots: Map<u64, Seq<Option<EntityId>>>,
    want: Option<EntityId>,
)
    requires
        0 <= i < cs.len(),
    ensures
        first_hand(cs.subrange(i, cs.len() as int), hands, slots, want) == if hands.contains(
            cs[i].0,
        ) && slots.contains_key(cs[i].0) && occurs(slots[cs[i].0], want) {
            Some(cs[i])
        } else {
            first_hand(cs.subrange(i + 1, cs.len() as int), hands, slots, want)
        },
{
    let t = cs.subrange(i, cs.len() as int);
    assert(t.drop_first() =~= cs.subrange(i + 1, cs.len() as int));
    assert(t[0] == cs[i]);
}

/// The hand a `first_hand` search returns is a hand slot with a container
/// that has a slot equal to `want`.
pub proof fn lemma_first_hand_qualifies(
    cs: Seq<EntityId>,
    hands: Set<u64>,
    slots: Map<u64, Seq<Option<EntityId>>>,
    want: Option<EntityId>,
)
    ensures
        first_hand(cs, hands, slots, want) matches Some(h) ==> hands.contains(h.0)
            && slots.contains_key(h.0) && occurs(slots[h.0], want) && cs.contains(h),
    decreases cs.len(),
{
    if cs.len() > 0 {
        lemma_first_hand_qualifies(cs.drop_first(), hands, slots, want);
        if let Some(h) = first_hand(cs, hands, slots, want) {
            if h != cs[0] {
                let j = choose|j: int| 0 <= j < cs.drop_first().len() && cs.drop_first()[j] == h;
                assert(cs[j + 1] == h);
            }
        }
    }
}

impl Containers {
    /// The first child of `actor` that is a hand slot whose container has a
    /// slot equal to `want`.
    fn find_hand(&self, scene: &ItemScene, actor: EntityId, want: Option<EntityId>) -> (r: Option<
        EntityId,
    >)
        ensures
            r == first_hand(scene.children_of(actor), scene.hand_slots@, self.slots(), want),
    {
        let cs = match scene.children.get(&actor.0) {
            Some(cs) => cs,
            None => {
                return None;
            },
        };
        let ghost all = cs@;
        assert(all.subrange(0, all.len() as int) =~= all);
        let mut i: usize = 0;
        while i < cs.len()
            invariant
                all == cs@,
                all == scene.children_of(actor),
                i <= cs.len(),
                first_hand(all, scene.hand_slots@, self.slots(), want) == first_hand(
                    all.subrange(i as int, all.len() as int),
                    scene.hand_slots@,
                    self.slots(),
                    want,
                ),
            decreases cs.len() - i,
        {
            let child = cs[i];
            proof {
                lemma_first_hand_step(all, i as int, scene.hand_slots@, self.slots(), want);
            }
            if scene.hand_slots.contains(&child.0) {
                match self.by_entity.get(&child.0) {
                    Some(c) => {
                        let found = match want {
                            None => c.has_space(),
                            Some(item) => c.contains(item),
                        };
                        if found {
                            return Some(child);
                        }
                    },
                    None => {},
                }
            }
            i = i + 1;
        }
        proof {
            assert(all.subrange(i as int, all.len() as int).len() == 0);
        }
        None
    }

    /// The first hand slot of `actor` whose container has a free slot.
    pub fn find_hand_slot_with_space(&self, scene: &ItemScene, actor: EntityId) -> (r: Option<
        EntityId,
    >)
        ensures
            r == first_hand(scene.children_of(actor), scene.hand_slots@, self.slots(), None),
    {
        self.find_hand(scene, actor, None)
    }

    /// The first hand slot of `actor` whose container holds `item`.
    pub fn find_hand_slot_containing(
        &self,
        scene: &ItemScene,
        actor: EntityId,
        item: EntityId,
    ) -> (r: Option<EntityId>)
        ensures
            r == first_hand(
                scene.children_of(actor),
                scene.hand_slots@,
                self.slots(),
                Some(item),
            ),
    {
        self.find_hand(scene, actor, Some(item))
    }
}

/// The slots after `item` went into the container of `at`, if `at` has one.
pub open spec fn put(slots: Map<u64, Seq<Option<EntityId>>>, at: EntityId, item: EntityId) -> Map<
    u64,
    Seq<Option<EntityId>>,
> {
    if slots.contains_key(at.0) {
        slots.insert(at.0, slots_with(slots[at.0], item))
    } else {
        slots
    }
}

/// The slots after `item` left the container of `at`, if `at` has one.
pub open spec fn take_out(
    slots: Map<u64, Seq<Option<EntityId>>>,
    at: EntityId,
    item: EntityId,
) -> Map<u64, Seq<Option<EntityId>>> {
    if slots.contains_key(at.0) {
        slots.insert(at.0, slots_without(slots[at.0], item))
    } else {
        slots
    }
}

impl Containers {
    /// Puts `item` into the container of `at`, if `at` has one.
    pub fn put_item(&mut self, at: EntityId, item: EntityId)
        ensures
            final(self).slots() == put(old(self).slots(), at, item),
    {
        match self.by_entity.remove(&at.0) {
            Some(c) => {
                let mut c = c;
                c.insert(item);
                self.by_entity.insert(at.0, c);
                assert(self.slots() =~= put(old(self).slots(), at, item));
            },
            None => {},
        }
    }

    /// Takes `item` out of the container of `at`, if `at` has one.
    pub fn take_item(&mut self, at: EntityId, item: EntityId)
        ensures
            final(self).slots() == take_out(old(self).slots(), at, item),
    {
        match self.by_entity.remove(&at.0) {
            Some(c) => {
                let mut c = c;
                c.remove(item);
                self.by_entity.insert(at.0, c);
                assert(self.slots() =~= take_out(old(self).slots(), at, item));
            },
            None => {},
        }
    }
}

/// The caller's verdict on the distance that a request must bridge.
#[derive(Debug, Clone, Copy, PartialEq, Eq, Structural)]
pub enum Reach {
    /// An entity whose position the range test needs has no transform.
    Missing,
    /// Within the interaction range.
    Within,
    /// Farther than the interaction range.
    Beyond,
}

/// An actor picks up an item from the world.
#[derive(Debug, Clone, Copy, PartialEq, Eq, Structural)]
pub struct ItemPickupRequest {
    pub actor: EntityId,
    pub item: EntityId,
}

/// An actor drops a held item.
#[derive(Debug, Clone, Copy, PartialEq, Eq, Structural)]
pub struct ItemDropRequest {
    pub actor: EntityId,
    pub item: EntityId,
}

/// An actor stores a held item into a container.
#[derive(Debug, Clone, Copy, PartialEq, Eq, Structural)]
pub struct ItemStoreRequest {
    pub actor: EntityId,
    pub item: EntityId,
    pub container: EntityId,
}

/// An actor takes an item out of a container into a hand.
#[derive(Debug, Clone, Copy, PartialEq, Eq, Structural)]
pub struct ItemTakeRequest {
    pub actor: EntityId,
    pub item: EntityId,
    pub container: EntityId,
}

/// Why a pickup was refused.
#[derive(Debug, Clone, Copy, PartialEq, Eq, Structural)]
pub enum PickupRejection {
    NotAnItem,
    AlreadyHeld,
    MissingPhysics,
    NoTransform,
    OutOfRange,
    NoFreeHand,
}

/// Why a drop was refused.
#[derive(Debug, Clone, Copy, PartialEq, Eq, Structural)]
pub enum DropRejection {
    NotAnItem,
    NotHeld,
    NoTransform,
    OutOfRange,
    NotInHand,
}

/// Why a store was refused.
#[derive(Debug, Clone, Copy, PartialEq, Eq, Structural)]
pub enum StoreRejection {
    NotAnItem,
    NotInHand,
    NoTransform,
    OutOfRange,
    ContainerFull,
}

/// Why a take was refused.
#[derive(Debug, Clone, Copy, PartialEq, Eq, Structural)]
pub enum TakeRejection {
    NotAnItem,
    NoContainer,
    NotInContainer,
    NoFreeHand,
    NoTransform,
    OutOfRange,
    MissingPhysics,
}

/// The hand that receives a pickup, or why there is none.
pub open spec fn pickup_outcome(
    scene: ItemScene,
    slots: Map<u64, Seq<Option<EntityId>>>,
    r: ItemPickupRequest,
    reach: Reach,
) -> Result<EntityId, PickupRejection> {
    if !scene.is_item(r.item) {
        Err(PickupRejection::NotAnItem)
    } else if scene.facts(r.item).stashed || scene.facts(r.item).parent is Some {
        Err(PickupRejection::AlreadyHeld)
    } else if !(scene.facts(r.item).has_collider && scene.facts(r.item).has_gravity) {
        Err(PickupRejection::MissingPhysics)
    } else {
        match reach {
            Reach::Missing => Err(PickupRejection::NoTransform),
            Reach::Beyond => Err(PickupRejection::OutOfRange),
            Reach::Within => match first_hand(
                scene.children_of(r.actor),
                scene.hand_slots@,
                slots,
                None,
            ) {
                Some(h) => Ok(h),
                None => Err(PickupRejection::NoFreeHand),
            },
        }
    }
}

/// The hand a drop empties, or why the drop is refused.
pub open spec fn drop_outcome(
    scene: ItemScene,
    slots: Map<u64, Seq<Option<EntityId>>>,
    r: ItemDropRequest,
    reach: Reach,
) -> Result<EntityId, DropRejection> {
    if !scene.is_item(r.item) {
        Err(DropRejection::NotAnItem)
    } else if !scene.facts(r.item).stashed {
        Err(DropRejection::NotHeld)
    } else {
        match reach {
            Reach::Missing => Err(DropRejection::NoTransform),
            Reach::Beyond => Err(DropRejection::OutOfRange),
            Reach::Within => match first_hand(
                scene.children_of(r.actor),
                scene.hand_slots@,
                slots,
                Some(r.item),
            ) {
                Some(h) => Ok(h),
                None => Err(DropRejection::NotInHand),
            },
        }
    }
}

/// The hand a store empties, or why the store is refused.
pub open spec fn store_outcome(
    scene: ItemScene,
    slots: Map<u64, Seq<Option<EntityId>>>,
    r: ItemStoreRequest,
    reach: Reach,
) -> Result<EntityId, StoreRejection> {
    if !scene.is_item(r.item) {
        Err(StoreRejection::NotAnItem)
    } else {
        match first_hand(scene.children_of(r.actor), scene.hand_slots@, slots, Some(r.item)) {
            None => Err(StoreRejection::NotInHand),
            Some(h) => match reach {
                Reach::Missing => Err(StoreRejection::NoTransform),
                Reach::Beyond => Err(StoreRejection::OutOfRange),
                Reach::Within => if slots.contains_key(r.container.0) && occurs(
                    slots[r.container.0],
                    None,
                ) {
                    Ok(h)
                } else {
                    Err(StoreRejection::ContainerFull)
                },
            },
        }
    }
}

/// The hand a take fills, or why the take is refused.
pub open spec fn take_outcome(
    scene: ItemScene,
    slots: Map<u64, Seq<Option<EntityId>>>,
    r: ItemTakeRequest,
    reach: Reach,
) -> Result<EntityId, TakeRejection> {
    if !scene.is_item(r.item) {
        Err(TakeRejection::NotAnItem)
    } else if !slots.contains_key(r.container.0) {
        Err(TakeRejection::NoContainer)
    } else if !occurs(slots[r.container.0], Some(r.item)) {
        Err(TakeRejection::NotInContainer)
    } else {
        match first_hand(scene.children_of(r.actor), scene.hand_slots@, slots, None) {
            None => Err(TakeRejection::NoFreeHand),
            Some(h) => match reach {
                Reach::Missing => Err(TakeRejection::NoTransform),
                Reach::Beyond => Err(TakeRejection::OutOfRange),
                Reach::Within => if scene.facts(r.item).has_collider && scene.facts(
                    r.item,
                ).has_gravity {
                    Ok(h)
                } else {
                    Err(TakeRejection::MissingPhysics)
                },
            },
        }
    }
}

/// The containers after a pickup with outcome `o`.
pub open spec fn after_pickup(
    slots: Map<u64, Seq<Option<EntityId>>>,
    r: ItemPickupRequest,
    o: Result<EntityId, PickupRejection>,
) -> Map<u64, Seq<Option<EntityId>>> {
    match o {
        Ok(h) => put(slots, h, r.item),
        Err(_) => slots,
    }
}

/// The containers after a drop with outcome `o`.
pub open spec fn after_drop(
    slots: Map<u64, Seq<Option<EntityId>>>,
    r: ItemDropRequest,
    o: Result<EntityId, DropRejection>,
) -> Map<u64, Seq<Option<EntityId>>> {
    match o {
        Ok(h) => take_out(slots, h, r.item),
        Err(_) => slots,
    }
}

/// The containers after a store with outcome `o`.
pub open spec fn after_store(
    slots: Map<u64, Seq<Option<EntityId>>>,
    r: ItemStoreRequest,
    o: Result<EntityId, StoreRejection>,
) -> Map<u64, Seq<Option<EntityId>>> {
    match o {
        Ok(h) => put(take_out(slots, h, r.item), r.container, r.item),
        Err(_) => slots,
    }
}

/// The containers after a take with outcome `o`.
pub open spec fn after_take(
    slots: Map<u64, Seq<Option<EntityId>>>,
    r: ItemTakeRequest,
    o: Result<EntityId, TakeRejection>,
) -> Map<u64, Seq<Option<EntityId>>> {
    match o {
        Ok(h) => put(take_out(slots, r.container, r.item), h, r.item),
        Err(_) => slots,
    }
}

impl Containers {
    /// Validates a pickup and, when it is allowed, puts the item into the
    /// first hand of the actor with a free slot.  Returns that hand.
    fn pickup(&mut self, scene: &ItemScene, req: ItemPickupRequest, reach: Reach) -> (r: Result<
        EntityId,
        PickupRejection,
    >)
        ensures
            r == pickup_outcome(*scene, old(self).slots(), req, reach),
            final(self).slots() == after_pickup(old(self).slots(), req, r),
    {
        let facts = match scene.items.get(&req.item.0) {
            Some(f) => *f,
            None => {
                return Err(PickupRejection::NotAnItem);
            },
        };
        if facts.stashed || facts.parent.is_some() {
            return Err(PickupRejection::AlreadyHeld);
        }
        if !(facts.has_collider && facts.has_gravity) {
            return Err(PickupRejection::MissingPhysics);
        }
        match reach {
            Reach::Missing => {
                return Err(PickupRejection::NoTransform);
            },
            Reach::Beyond => {
                return Err(PickupRejection::OutOfRange);
            },
            Reach::Within => {},
        }
        match self.find_hand_slot_with_space(scene, req.actor) {
            Some(hand) => {
                self.put_item(hand, req.item);
                Ok(hand)
            },
            None => Err(PickupRejection::NoFreeHand),
        }
    }

    /// Validates a drop and, when it is allowed, takes the item out of the
    /// actor's hand that holds it.  Returns that hand.
    fn drop_item(&mut self, scene: &ItemScene, req: ItemDropRequest, reach: Reach) -> (r: Result<
        EntityId,
        DropRejection,
    >)
        ensures
            r == drop_outcome(*scene, old(self).slots(), req, reach),
            final(self).slots() == after_drop(old(self).slots(), req, r),
    {
        let facts = match scene.items.get(&req.item.0) {
            Some(f) => *f,
            None => {
                return Err(DropRejection::NotAnItem);
            },
        };
        if !facts.stashed {
            return Err(DropRejection::NotHeld);
        }
        match reach {
            Reach::Missing => {
                return Err(DropRejection::NoTransform);
            },
            Reach::Beyond => {
                return Err(DropRejection::OutOfRange);
            },
            Reach::Within => {},
        }
        match self.find_hand_slot_containing(scene, req.actor, req.item) {
            Some(hand) => {
                self.take_item(hand, req.item);
                Ok(hand)
            },
            None => Err(DropRejection::NotInHand),
        }
    }

    /// Validates a store and, when it is allowed, moves the item from the
    /// actor's hand into the target container.  Returns the emptied hand.
    fn store(&mut self, scene: &ItemScene, req: ItemStoreRequest, reach: Reach) -> (r: Result<
        EntityId,
        StoreRejection,
    >)
        ensures
            r == store_outcome(*scene, old(self).slots(), req, reach),
            final(self).slots() == after_store(old(self).slots(), req, r),
    {
        if !scene.items.contains_key(&req.item.0) {
            return Err(StoreRejection::NotAnItem);
        }
        let hand = match self.find_hand_slot_containing(scene, req.actor, req.item) {
            Some(h) => h,
            None => {
                return Err(StoreRejection::NotInHand);
            },
        };
        match reach {
            Reach::Missing => {
                return Err(StoreRejection::NoTransform);
            },
            Reach::Beyond => {
                return Err(StoreRejection::OutOfRange);
            },
            Reach::Within => {},
        }
        let has_space = match self.by_entity.get(&req.container.0) {
            Some(c) => c.has_space(),
            None => false,
        };
        if !has_space {
            return Err(StoreRejection::ContainerFull);
        }
        self.take_item(hand, req.item);
        self.put_item(req.container, req.item);
        Ok(hand)
    }

    /// Validates a take and, when it is allowed, moves the item from the
    /// container into the actor's first hand with a free slot.  Returns that
    /// hand.
    fn take(&mut self, scene: &ItemScene, req: ItemTakeRequest, reach: Reach) -> (r: Result<
        EntityId,
        TakeRejection,
    >)
        ensures
            r == take_outcome(*scene, old(self).slots(), req, reach),
            final(self).slots() == after_take(old(self).slots(), req, r),
    {
        let facts = match scene.items.get(&req.item.0) {
            Some(f) => *f,
            None => {
                return Err(TakeRejection::NotAnItem);
            },
        };
        match self.by_entity.get(&req.container.0) {
            Some(c) => {
                if !c.contains(req.item) {
                    return Err(TakeRejection::NotInContainer);
                }
            },
            None => {
                return Err(TakeRejection::NoContainer);
            },
        }
        let hand = match self.find_hand_slot_with_space(scene, req.actor) {
            Some(h) => h,
            None => {
                return Err(TakeRejection::NoFreeHand);
            },
        };
        match reach {
            Reach::Missing => {
                return Err(TakeRejection::NoTransform);
            },
            Reach::Beyond => {
                return Err(TakeRejection::OutOfRange);
            },
            Reach::Within => {},
        }
        if !(facts.has_collider && facts.has_gravity) {
            return Err(TakeRejection::MissingPhysics);
        }
        self.take_item(req.container, req.item);
        self.put_item(hand, req.item);
        Ok(hand)
    }
}

/// Pickups applied one after another from `slots`: the containers after
/// them and the outcome of each.
pub open spec fn run_pickups(
    scene: ItemScene,
    slots: Map<u64, Seq<Option<EntityId>>>,
    reqs: Seq<(ItemPickupRequest, Reach)>,
) -> (Map<u64, Seq<Option<EntityId>>>, Seq<Result<EntityId, PickupRejection>>)
    decreases reqs.len(),
{
    if reqs.len() == 0 {
        (slots, Seq::empty())
    } else {
        let prev = run_pickups(scene, slots, reqs.drop_last());
        let o = pickup_outcome(scene, prev.0, reqs.last().0, reqs.last().1);
        (after_pickup(prev.0, reqs.last().0, o), prev.1.push(o))
    }
}

/// Drops applied one after another from `slots`.
pub open spec fn run_drops(
    scene: ItemScene,
    slots: Map<u64, Seq<Option<EntityId>>>,
    reqs: Seq<(ItemDropRequest, Reach)>,
) -> (Map<u64, Seq<Option<EntityId>>>, Seq<Result<EntityId, DropRejection>>)
    decreases reqs.len(),
{
    if reqs.len() == 0 {
        (slots, Seq::empty())
    } else {
        let prev = run_drops(scene, slots, reqs.drop_last());
        let o = drop_outcome(scene, prev.0, reqs.last().0, reqs.last().1);
        (after_drop(prev.0, reqs.last().0, o), prev.1.push(o))
    }
}

/// Stores applied one after another from `slots`.
pub open spec fn run_stores(
    scene: ItemScene,
    slots: Map<u64, Seq<Option<EntityId>>>,
    reqs: Seq<(ItemStoreRequest, Reach)>,
) -> (Map<u64, Seq<Option<EntityId>>>, Seq<Result<EntityId, StoreRejection>>)
    decreases reqs.len(),
{
    if reqs.len() == 0 {
        (slots, Seq::empty())
    } else {
        let prev = run_stores(scene, slots, reqs.drop_last());
        let o = store_outcome(scene, prev.0, reqs.last().0, reqs.last().1);
        (after_store(prev.0, reqs.last().0, o), prev.1.push(o))
    }
}

/// Takes applied one after another from `slots`.
pub open spec fn run_takes(
    scene: ItemScene,
    slots: Map<u64, Seq<Option<EntityId>>>,
    reqs: Seq<(ItemTakeRequest, Reach)>,
) -> (Map<u64, Seq<Option<EntityId>>>, Seq<Result<EntityId, TakeRejection>>)
    decreases reqs.len(),
{
    if reqs.len() == 0 {
        (slots, Seq::empty())
    } else {
        let prev = run_takes(scene, slots, reqs.drop_last());
        let o = take_outcome(scene, prev.0, reqs.last().0, reqs.last().1);
        (after_take(prev.0, reqs.last().0, o), prev.1.push(o))
    }
}

/// The item states after a pickup with outcome `o`.
pub open spec fn states_after_pickup(
    states: Map<u64, ItemFacts>,
    r: ItemPickupRequest,
    o: Result<EntityId, PickupRejection>,
) -> Map<u64, ItemFacts> {
    match o {
        Ok(h) => set_item(states, r.item, picked_up_facts(states[r.item.0], h)),
        Err(_) => states,
    }
}

/// The item states after a drop with outcome `o`, the drop numbered `at`.
pub open spec fn states_after_drop(
    states: Map<u64, ItemFacts>,
    r: ItemDropRequest,
    o: Result<EntityId, DropRejection>,
    at: u64,
) -> Map<u64, ItemFacts> {
    match o {
        Ok(_) => set_item(states, r.item, dropped_facts(states[r.item.0], at)),
        Err(_) => states,
    }
}

/// The item states after a store with outcome `o`.
pub open spec fn states_after_store(
    states: Map<u64, ItemFacts>,
    r: ItemStoreRequest,
    o: Result<EntityId, StoreRejection>,
) -> Map<u64, ItemFacts> {
    match o {
        Ok(_) => set_item(states, r.item, put_away(states[r.item.0])),
        Err(_) => states,
    }
}

/// The item states after a take with outcome `o`.
pub open spec fn states_after_take(
    states: Map<u64, ItemFacts>,
    r: ItemTakeRequest,
    o: Result<EntityId, TakeRejection>,
) -> Map<u64, ItemFacts> {
    match o {
        Ok(h) => set_item(states, r.item, taken_facts(states[r.item.0], h)),
        Err(_) => states,
    }
}

/// The item states after the pickups of one pass with outcomes `os`, each
/// applied to the states the ones before it left.
pub open spec fn pickup_states(
    states: Map<u64, ItemFacts>,
    reqs: Seq<(ItemPickupRequest, Reach)>,
    os: Seq<Result<EntityId, PickupRejection>>,
) -> Map<u64, ItemFacts>
    decreases reqs.len(),
{
    if reqs.len() == 0 {
        states
    } else {
        states_after_pickup(
            pickup_states(states, reqs.drop_last(), os.drop_last()),
            reqs.last().0,
            os[reqs.len() - 1],
        )
    }
}

/// The item states after the drops of one pass with outcomes `os`, each
/// applied to the states the ones before it left.
pub open spec fn drop_states(
    states: Map<u64, ItemFacts>,
    reqs: Seq<(ItemDropRequest, Reach)>,
    os: Seq<Result<EntityId, DropRejection>>,
) -> Map<u64, ItemFacts>
    decreases reqs.len(),
{
    if reqs.len() == 0 {
        states
    } else {
        states_after_drop(
            drop_states(states, reqs.drop_last(), os.drop_last()),
            reqs.last().0,
            os[reqs.len() - 1], (reqs.len() - 1) as u64,
        )
    }
}

/// The item states after the stores of one pass with outcomes `os`, each
/// applied to the states the ones before it left.
pub open spec fn store_states(
    states: Map<u64, ItemFacts>,
    reqs: Seq<(ItemStoreRequest, Reach)>,
    os: Seq<Result<EntityId, StoreRejection>>,
) -> Map<u64, ItemFacts>
    decreases reqs.len(),
{
    if reqs.len() == 0 {
        states
    } else {
        states_after_store(
            store_states(states, reqs.drop_last(), os.drop_last()),
            reqs.last().0,
            os[reqs.len() - 1],
        )
    }
}

/// The item states after the takes of one pass with outcomes `os`, each
/// applied to the states the ones before it left.
pub open spec fn take_states(
    states: Map<u64, ItemFacts>,
    reqs: Seq<(ItemTakeRequest, Reach)>,
    os: Seq<Result<EntityId, TakeRejection>>,
) -> Map<u64, ItemFacts>
    decreases reqs.len(),
{
    if reqs.len() == 0 {
        states
    } else {
        states_after_take(
            take_states(states, reqs.drop_last(), os.drop_last()),
            reqs.last().0,
            os[reqs.len() - 1],
        )
    }
}

/// The outcome of every request of one pass, in request order.
pub struct ItemOutcomes {
    pub pickups: Vec<Result<EntityId, PickupRejection>>,
    pub drops: Vec<Result<EntityId, DropRejection>>,
    pub stores: Vec<Result<EntityId, StoreRejection>>,
    pub takes: Vec<Result<EntityId, TakeRejection>>,
}

impl Containers {
    /// Applies every pickup request in order, deciding on the item components of `scene` and
    /// writing the effects on the items into `states`.
    fn run_pickup_requests(
        &mut self,
        scene: &ItemScene,
        states: &mut HashMap<u64, ItemFacts>,
        reqs: &Vec<(ItemPickupRequest, Reach)>,
    ) -> (r: Vec<Result<EntityId, PickupRejection>>)
        ensures
            (final(self).slots(), r@) == run_pickups(*scene, old(self).slots(), reqs@),
            final(states)@ == pickup_states(old(states)@, reqs@, r@),
    {
        let ghost start = self.slots();
        let ghost st0 = states@;
        let mut out: Vec<Result<EntityId, PickupRejection>> = Vec::new();
        let mut i: usize = 0;
        while i < reqs.len()
            invariant
                i <= reqs.len(),
                out@.len() == i,
                (self.slots(), out@) == run_pickups(*scene, start, reqs@.take(i as int)),
                states@ == pickup_states(st0, reqs@.take(i as int), out@),
            decreases reqs.len() - i,
        {
            let (req, reach) = reqs[i];
            let o = self.pickup(scene, req, reach);
            match o {
                Ok(h) => {
                    let g = item_facts_of(states, req.item);
                    set_item_facts(
                        states,
                        req.item,
                        ItemFacts {
                            stashed: true,
                            has_collider: false,
                            has_gravity: false,
                            rigid_body: false,
                            parent: Some(h),
                            placement: Placement::HandAnchor,
                            ..g
                        },
                    );
                },
                Err(_) => {},
            }
            let ghost prev = out@;
            out.push(o);
            proof {
                let t = reqs@.take(i as int + 1);
                assert(t.drop_last() =~= reqs@.take(i as int));
                assert(t.last() == reqs@[i as int]);
                assert(out@.drop_last() =~= prev);
            }
            i = i + 1;
        }
        assert(reqs@.take(i as int) =~= reqs@);
        out
    }

    /// Applies every drop request in order, deciding on the item components of `scene` and
    /// writing the effects on the items into `states`.
    fn run_drop_requests(
        &mut self,
        scene: &ItemScene,
        states: &mut HashMap<u64, ItemFacts>,
        reqs: &Vec<(ItemDropRequest, Reach)>,
    ) -> (r: Vec<Result<EntityId, DropRejection>>)
        ensures
            (final(self).slots(), r@) == run_drops(*scene, old(self).slots(), reqs@),
            final(states)@ == drop_states(old(states)@, reqs@, r@),
    {
        let ghost start = self.slots();
        let ghost st0 = states@;
        let mut out: Vec<Result<EntityId, DropRejection>> = Vec::new();
        let mut i: usize = 0;
        while i < reqs.len()
            invariant
                i <= reqs.len(),
                out@.len() == i,
                (self.slots(), out@) == run_drops(*scene, start, reqs@.take(i as int)),
                states@ == drop_states(st0, reqs@.take(i as int), out@),
            decreases reqs.len() - i,
        {
            let (req, reach) = reqs[i];
            let o = self.drop_item(scene, req, reach);
            match o {
                Ok(_) => {
                    let g = item_facts_of(states, req.item);
                    set_item_facts(
                        states,
                        req.item,
                        ItemFacts {
                            stashed: false,
                            has_collider: true,
                            has_gravity: true,
                            rigid_body: true,
                            parent: None,
                            placement: Placement::DropPoint(i as u64),
                            ..g
                        },
                    );
                },
                Err(_) => {},
            }
            let ghost prev = out@;
            out.push(o);
            proof {
                let t = reqs@.take(i as int + 1);
                assert(t.drop_last() =~= reqs@.take(i as int));
                assert(t.last() == reqs@[i as int]);
                assert(out@.drop_last() =~= prev);
            }
            i = i + 1;
        }
        assert(reqs@.take(i as int) =~= reqs@);
        out
    }

    /// Applies every store request in order, deciding on the item components of `scene` and
    /// writing the effects on the items into `states`.
    fn run_store_requests(
        &mut self,
        scene: &ItemScene,
        states: &mut HashMap<u64, ItemFacts>,
        reqs: &Vec<(ItemStoreRequest, Reach)>,
    ) -> (r: Vec<Result<EntityId, StoreRejection>>)
        ensures
            (final(self).slots(), r@) == run_stores(*scene, old(self).slots(), reqs@),
            final(states)@ == store_states(old(states)@, reqs@, r@),
    {
        let ghost start = self.slots();
        let ghost st0 = states@;
        let mut out: Vec<Result<EntityId, StoreRejection>> = Vec::new();
        let mut i: usize = 0;
        while i < reqs.len()
            invariant
                i <= reqs.len(),
                out@.len() == i,
                (self.slots(), out@) == run_stores(*scene, start, reqs@.take(i as int)),
                states@ == store_states(st0, reqs@.take(i as int), out@),
            decreases reqs.len() - i,
        {
            let (req, reach) = reqs[i];
            let o = self.store(scene, req, reach);
            match o {
                Ok(_) => {
                    let g = item_facts_of(states, req.item);
                    set_item_facts(states, req.item, ItemFacts { parent: None, hidden: true, ..g });
                },
                Err(_) => {},
            }
            let ghost prev = out@;
            out.push(o);
            proof {
                let t = reqs@.take(i as int + 1);
                assert(t.drop_last() =~= reqs@.take(i as int));
                assert(t.last() == reqs@[i as int]);
                assert(out@.drop_last() =~= prev);
            }
            i = i + 1;
        }
        assert(reqs@.take(i as int) =~= reqs@);
        out
    }

    /// Applies every take request in order, deciding on the item components of `scene` and
    /// writing the effects on the items into `states`.
    fn run_take_requests(
        &mut self,
        scene: &ItemScene,
        states: &mut HashMap<u64, ItemFacts>,
        reqs: &Vec<(ItemTakeRequest, Reach)>,
    ) -> (r: Vec<Result<EntityId, TakeRejection>>)
        ensures
            (final(self).slots(), r@) == run_takes(*scene, old(self).slots(), reqs@),
            final(states)@ == take_states(old(states)@, reqs@, r@),
    {
        let ghost start = self.slots();
        let ghost st0 = states@;
        let mut out: Vec<Result<EntityId, TakeRejection>> = Vec::new();
        let mut i: usize = 0;
        while i < reqs.len()
            invariant
                i <= reqs.len(),
                out@.len() == i,
                (self.slots(), out@) == run_takes(*scene, start, reqs@.take(i as int)),
                states@ == take_states(st0, reqs@.take(i as int), out@),
            decreases reqs.len() - i,
        {
            let (req, reach) = reqs[i];
            let o = self.take(scene, req, reach);
            match o {
                Ok(h) => {
                    let g = item_facts_of(states, req.item);
                    set_item_facts(
                        states,
                        req.item,
                        ItemFacts {
                            stashed: true,
                            has_collider: false,
                            has_gravity: false,
                            rigid_body: false,
                            parent: Some(h),
                            placement: Placement::HandAnchor,
                            hidden: false,
                            ..g
                        },
                    );
                },
                Err(_) => {},
            }
            let ghost prev = out@;
            out.push(o);
            proof {
                let t = reqs@.take(i as int + 1);
                assert(t.drop_last() =~= reqs@.take(i as int));
                assert(t.last() == reqs@[i as int]);
                assert(out@.drop_last() =~= prev);
            }
            i = i + 1;
        }
        assert(reqs@.take(i as int) =~= reqs@);
        out
    }

    /// One server pass over the item requests of a frame: all pickups, then
    /// all drops, then all stores, then all takes, each in arrival order.
    /// Each request is decided on the containers as the ones before it left
    /// them and on the item components as they were when the pass began;
    /// the effects on the items are applied in the same order, and the
    /// scene's items end as they leave them:
    /// - a pickup stashes the item's physics and parents it to the hand at
    ///   the hand anchor;
    /// - a drop restores its physics, unparents it and places it at the
    ///   drop's position (`DropPoint` with the drop's index);
    /// - a store unparents and hides it;
    /// - a take stashes its physics, shows it and parents it to the hand at
    ///   the hand anchor.
    pub fn handle_item_interaction(
        &mut self,
        scene: &mut ItemScene,
        pickups: &Vec<(ItemPickupRequest, Reach)>,
        drops: &Vec<(ItemDropRequest, Reach)>,
        stores: &Vec<(ItemStoreRequest, Reach)>,
        takes: &Vec<(ItemTakeRequest, Reach)>,
    ) -> (r: ItemOutcomes)
        ensures
            ({
                let p = run_pickups(*old(scene), old(self).slots(), pickups@);
                let d = run_drops(*old(scene), p.0, drops@);
                let s = run_stores(*old(scene), d.0, stores@);
                let t = run_takes(*old(scene), s.0, takes@);
                &&& r.pickups@ == p.1
                &&& r.drops@ == d.1
                &&& r.stores@ == s.1
                &&& r.takes@ == t.1
                &&& final(self).slots() == t.0
                &&& final(scene).items@ == take_states(
                    store_states(
                        drop_states(pickup_states(old(scene).items@, pickups@, p.1), drops@, d.1),
                        stores@,
                        s.1,
                    ),
                    takes@,
                    t.1,
                )
            }),
            final(scene).hand_slots@ == old(scene).hand_slots@,
            final(scene).children@ == old(scene).children@,
    {
        let mut states = scene.items.clone();
        let p = self.run_pickup_requests(scene, &mut states, pickups);
        let d = self.run_drop_requests(scene, &mut states, drops);
        let s = self.run_store_requests(scene, &mut states, stores);
        let t = self.run_take_requests(scene, &mut states, takes);
        scene.items = states;
        ItemOutcomes { pickups: p, drops: d, stores: s, takes: t }
    }
}

/// The item as world setup leaves it when it puts it away in a container:
/// its physics is stashed, it is no longer a dynamic rigid body, and it is
/// hidden; it keeps its collider and gravity scale, so that a later take
/// finds them.
pub open spec fn preloaded_facts(g: ItemFacts) -> ItemFacts {
    ItemFacts { stashed: true, rigid_body: false, hidden: true, ..g }
}

impl Containers {
    /// World setup: puts `item` away in the first slot of the container of
    /// `container`, stashed and hidden (see `preloaded_facts`).  The
    /// container must exist and have a slot, and the item must have its
    /// collider and gravity scale.
    pub fn preload_stashed(&mut self, scene: &mut ItemScene, container: EntityId, item: EntityId)
        requires
            old(self).slots().contains_key(container.0),
            old(self).slots()[container.0].len() > 0,
            old(scene).is_item(item),
            old(scene).facts(item).has_collider,
            old(scene).facts(item).has_gravity,
        ensures
            final(self).slots() == old(self).slots().insert(
                container.0,
                old(self).slots()[container.0].update(0, Some(item)),
            ),
            final(scene).items@ == old(scene).items@.insert(
                item.0,
                preloaded_facts(old(scene).facts(item)),
            ),
            final(scene).hand_slots@ == old(scene).hand_slots@,
            final(scene).children@ == old(scene).children@,
    {
        let g = item_facts_of(&scene.items, item);
        set_item_facts(&mut scene.items, item, ItemFacts { stashed: true, rigid_body: false, hidden: true, ..g });
        match self.by_entity.remove(&container.0) {
            Some(c) => {
                let mut c = c;
                c.slots.set(0, Some(item));
                self.by_entity.insert(container.0, c);
                assert(self.slots() =~= old(self).slots().insert(
                    container.0,
                    old(self).slots()[container.0].update(0, Some(item)),
                ));
            },
            None => {},
        }
    }
}

/// A request that is refused changes nothing: the containers and the item
/// states after it are the ones before it, for each of the four kinds.
/// (Within a pass, requests run pickups first, then drops, stores and
/// takes, each in arrival order; see `handle_item_interaction`.)
pub proof fn lemma_refused_requests_change_nothing(
    scene: ItemScene,
    slots: Map<u64, Seq<Option<EntityId>>>,
    states: Map<u64, ItemFacts>,
    p: ItemPickupRequest,
    d: ItemDropRequest,
    s: ItemStoreRequest,
    t: ItemTakeRequest,
    reach: Reach,
    at: u64,
)
    ensures
        pickup_outcome(scene, slots, p, reach) is Err ==> {
            &&& after_pickup(slots, p, pickup_outcome(scene, slots, p, reach)) == slots
            &&& states_after_pickup(states, p, pickup_outcome(scene, slots, p, reach)) == states
        },
        drop_outcome(scene, slots, d, reach) is Err ==> {
            &&& after_drop(slots, d, drop_outcome(scene, slots, d, reach)) == slots
            &&& states_after_drop(states, d, drop_outcome(scene, slots, d, reach), at) == states
        },
        store_outcome(scene, slots, s, reach) is Err ==> {
            &&& after_store(slots, s, store_outcome(scene, slots, s, reach)) == slots
            &&& states_after_store(states, s, store_outcome(scene, slots, s, reach)) == states
        },
        take_outcome(scene, slots, t, reach) is Err ==> {
            &&& after_take(slots, t, take_outcome(scene, slots, t, reach)) == slots
            &&& states_after_take(states, t, take_outcome(scene, slots, t, reach)) == states
        },
{
}

/// Running a prefix of the pickups gives the containers and outcomes of
/// that prefix, which are the first outcomes of the whole run.
proof fn lemma_run_pickups_prefix(
    scene: ItemScene,
    slots: Map<u64, Seq<Option<EntityId>>>,
    reqs: Seq<(ItemPickupRequest, Reach)>,
    k: int,
)
    requires
        0 <= k <= reqs.len(),
    ensures
        run_pickups(scene, slots, reqs).1.len() == reqs.len(),
        run_pickups(scene, slots, reqs.take(k)).1 == run_pickups(scene, slots, reqs).1.take(k),
    decreases reqs.len(),
{
    if reqs.len() > 0 {
        lemma_run_pickups_prefix(scene, slots, reqs.drop_last(), if k == reqs.len() { 0 } else { k });
    }
    if k == reqs.len() {
        assert(reqs.take(k) =~= reqs);
    } else {
        assert(reqs.drop_last().take(k) =~= reqs.take(k));
    }
}

proof fn lemma_run_drops_prefix(
    scene: ItemScene,
    slots: Map<u64, Seq<Option<EntityId>>>,
    reqs: Seq<(ItemDropRequest, Reach)>,
    k: int,
)
    requires
        0 <= k <= reqs.len(),
    ensures
        run_drops(scene, slots, reqs).1.len() == reqs.len(),
        run_drops(scene, slots, reqs.take(k)).1 == run_drops(scene, slots, reqs).1.take(k),
    decreases reqs.len(),
{
    if reqs.len() > 0 {
        lemma_run_drops_prefix(scene, slots, reqs.drop_last(), if k == reqs.len() { 0 } else { k });
    }
    if k == reqs.len() {
        assert(reqs.take(k) =~= reqs);
    } else {
        assert(reqs.drop_last().take(k) =~= reqs.take(k));
    }
}

proof fn lemma_run_stores_prefix(
    scene: ItemScene,
    slots: Map<u64, Seq<Option<EntityId>>>,
    reqs: Seq<(ItemStoreRequest, Reach)>,
    k: int,
)
    requires
        0 <= k <= reqs.len(),
    ensures
        run_stores(scene, slots, reqs).1.len() == reqs.len(),
        run_stores(scene, slots, reqs.take(k)).1 == run_stores(scene, slots, reqs).1.take(k),
    decreases reqs.len(),
{
    if reqs.len() > 0 {
        lemma_run_stores_prefix(scene, slots, reqs.drop_last(), if k == reqs.len() { 0 } else { k });
    }
    if k == reqs.len() {
        assert(reqs.take(k) =~= reqs);
    } else {
        assert(reqs.drop_last().take(k) =~= reqs.take(k));
    }
}

proof fn lemma_run_takes_prefix(
    scene: ItemScene,
    slots: Map<u64, Seq<Option<EntityId>>>,
    reqs: Seq<(ItemTakeRequest, Reach)>,
    k: int,
)
    requires
        0 <= k <= reqs.len(),
    ensures
        run_takes(scene, slots, reqs).1.len() == reqs.len(),
        run_takes(scene, slots, reqs.take(k)).1 == run_takes(scene, slots, reqs).1.take(k),
    decreases reqs.len(),
{
    if reqs.len() > 0 {
        lemma_run_takes_prefix(scene, slots, reqs.drop_last(), if k == reqs.len() { 0 } else { k });
    }
    if k == reqs.len() {
        assert(reqs.take(k) =~= reqs);
    } else {
        assert(reqs.drop_last().take(k) =~= reqs.take(k));
    }
}

/// Within a pass, a refused request changes nothing: when the `i`-th
/// request of a kind is refused, the containers and the item states after
/// the first `i + 1` requests of that kind are those after the first `i`,
/// whatever the containers and states the kind's requests start from
/// (in `handle_item_interaction`, the ones the kinds before it left).
pub proof fn lemma_refused_request_in_pass_changes_nothing(
    scene: ItemScene,
    slots: Map<u64, Seq<Option<EntityId>>>,
    states: Map<u64, ItemFacts>,
    pickups: Seq<(ItemPickupRequest, Reach)>,
    drops: Seq<(ItemDropRequest, Reach)>,
    stores: Seq<(ItemStoreRequest, Reach)>,
    takes: Seq<(ItemTakeRequest, Reach)>,
    i: int,
)
    ensures
        ({
            let os = run_pickups(scene, slots, pickups).1;
            0 <= i < pickups.len() && os[i] is Err ==> {
                &&& run_pickups(scene, slots, pickups.take(i + 1)).0 == run_pickups(
                    scene,
                    slots,
                    pickups.take(i),
                ).0
                &&& pickup_states(states, pickups.take(i + 1), os.take(i + 1)) == pickup_states(
                    states,
                    pickups.take(i),
                    os.take(i),
                )
            }
        }),
        ({
            let os = run_drops(scene, slots, drops).1;
            0 <= i < drops.len() && os[i] is Err ==> {
                &&& run_drops(scene, slots, drops.take(i + 1)).0 == run_drops(
                    scene,
                    slots,
                    drops.take(i),
                ).0
                &&& drop_states(states, drops.take(i + 1), os.take(i + 1)) == drop_states(
                    states,
                    drops.take(i),
                    os.take(i),
                )
            }
        }),
        ({
            let os = run_stores(scene, slots, stores).1;
            0 <= i < stores.len() && os[i] is Err ==> {
                &&& run_stores(scene, slots, stores.take(i + 1)).0 == run_stores(
                    scene,
                    slots,
                    stores.take(i),
                ).0
                &&& store_states(states, stores.take(i + 1), os.take(i + 1)) == store_states(
                    states,
                    stores.take(i),
                    os.take(i),
                )
            }
        }),
        ({
            let os = run_takes(scene, slots, takes).1;
            0 <= i < takes.len() && os[i] is Err ==> {
                &&& run_takes(scene, slots, takes.take(i + 1)).0 == run_takes(
                    scene,
                    slots,
                    takes.take(i),
                ).0
                &&& take_states(states, takes.take(i + 1), os.take(i + 1)) == take_states(
                    states,
                    takes.take(i),
                    os.take(i),
                )
            }
        }),
{
    if 0 <= i < pickups.len() {
        let os = run_pickups(scene, slots, pickups).1;
        lemma_run_pickups_prefix(scene, slots, pickups, i + 1);
        assert(pickups.take(i + 1).drop_last() =~= pickups.take(i));
        assert(os.take(i + 1).drop_last() =~= os.take(i));
        assert(os.take(i + 1)[i] == os[i]);
    }
    if 0 <= i < drops.len() {
        let os = run_drops(scene, slots, drops).1;
        lemma_run_drops_prefix(scene, slots, drops, i + 1);
        assert(drops.take(i + 1).drop_last() =~= drops.take(i));
        assert(os.take(i + 1).drop_last() =~= os.take(i));
        assert(os.take(i + 1)[i] == os[i]);
    }
    if 0 <= i < stores.len() {
        let os = run_stores(scene, slots, stores).1;
        lemma_run_stores_prefix(scene, slots, stores, i + 1);
        assert(stores.take(i + 1).drop_last() =~= stores.take(i));
        assert(os.take(i + 1).drop_last() =~= os.take(i));
        assert(os.take(i + 1)[i] == os[i]);
    }
    if 0 <= i < takes.len() {
        let os = run_takes(scene, slots, takes).1;
        lemma_run_takes_prefix(scene, slots, takes, i + 1);
        assert(takes.take(i + 1).drop_last() =~= takes.take(i));
        assert(os.take(i + 1).drop_last() =~= os.take(i));
        assert(os.take(i + 1)[i] == os[i]);
    }
}

/// A request whose reach test failed is refused, whatever else holds: one
/// beyond the interaction range with `OutOfRange` and one whose positions
/// are missing with `NoTransform`, as soon as the checks that come before
/// the range test pass (the item is an item, and: for a pickup, loose and
/// physical; for a drop, stashed; for a store or a take, its hand found
/// and, for a take, the item in the container).
pub proof fn lemma_out_of_reach_requests_refused(
    scene: ItemScene,
    slots: Map<u64, Seq<Option<EntityId>>>,
    p: ItemPickupRequest,
    d: ItemDropRequest,
    s: ItemStoreRequest,
    t: ItemTakeRequest,
)
    ensures
        pickup_outcome(scene, slots, p, Reach::Beyond) is Err,
        pickup_outcome(scene, slots, p, Reach::Missing) is Err,
        drop_outcome(scene, slots, d, Reach::Beyond) is Err,
        drop_outcome(scene, slots, d, Reach::Missing) is Err,
        store_outcome(scene, slots, s, Reach::Beyond) is Err,
        store_outcome(scene, slots, s, Reach::Missing) is Err,
        take_outcome(scene, slots, t, Reach::Beyond) is Err,
        take_outcome(scene, slots, t, Reach::Missing) is Err,
        scene.is_item(p.item) && !scene.facts(p.item).stashed && scene.facts(p.item).parent is None
            && scene.facts(p.item).has_collider && scene.facts(p.item).has_gravity ==> {
            &&& pickup_outcome(scene, slots, p, Reach::Beyond) == Err::<EntityId, PickupRejection>(
                PickupRejection::OutOfRange,
            )
            &&& pickup_outcome(scene, slots, p, Reach::Missing) == Err::<EntityId, PickupRejection>(
                PickupRejection::NoTransform,
            )
        },
        scene.is_item(d.item) && scene.facts(d.item).stashed ==> {
            &&& drop_outcome(scene, slots, d, Reach::Beyond) == Err::<EntityId, DropRejection>(
                DropRejection::OutOfRange,
            )
            &&& drop_outcome(scene, slots, d, Reach::Missing) == Err::<EntityId, DropRejection>(
                DropRejection::NoTransform,
            )
        },
        scene.is_item(s.item) && first_hand(
            scene.children_of(s.actor),
            scene.hand_slots@,
            slots,
            Some(s.item),
        ) is Some ==> {
            &&& store_outcome(scene, slots, s, Reach::Beyond) == Err::<EntityId, StoreRejection>(
                StoreRejection::OutOfRange,
            )
            &&& store_outcome(scene, slots, s, Reach::Missing) == Err::<EntityId, StoreRejection>(
                StoreRejection::NoTransform,
            )
        },
        scene.is_item(t.item) && slots.contains_key(t.container.0) && occurs(
            slots[t.container.0],
            Some(t.item),
        ) && first_hand(scene.children_of(t.actor), scene.hand_slots@, slots, None) is Some ==> {
            &&& take_outcome(scene, slots, t, Reach::Beyond) == Err::<EntityId, TakeRejection>(
                TakeRejection::OutOfRange,
            )
            &&& take_outcome(scene, slots, t, Reach::Missing) == Err::<EntityId, TakeRejection>(
                TakeRejection::NoTransform,
            )
        },
{
}

/// Within a pass, a request out of reach (`Beyond` or `Missing`) is
/// refused, and the containers and item states after it are those before
/// it, for each of the four kinds.
pub proof fn lemma_out_of_reach_request_in_pass_changes_nothing(
    scene: ItemScene,
    slots: Map<u64, Seq<Option<EntityId>>>,
    states: Map<u64, ItemFacts>,
    pickups: Seq<(ItemPickupRequest, Reach)>,
    drops: Seq<(ItemDropRequest, Reach)>,
    stores: Seq<(ItemStoreRequest, Reach)>,
    takes: Seq<(ItemTakeRequest, Reach)>,
    i: int,
)
    ensures
        ({
            let os = run_pickups(scene, slots, pickups).1;
            0 <= i < pickups.len() && pickups[i].1 != Reach::Within ==> {
                &&& os[i] is Err
                &&& run_pickups(scene, slots, pickups.take(i + 1)).0 == run_pickups(
                    scene,
                    slots,
                    pickups.take(i),
                ).0
                &&& pickup_states(states, pickups.take(i + 1), os.take(i + 1)) == pickup_states(
                    states,
                    pickups.take(i),
                    os.take(i),
                )
            }
        }),
        ({
            let os = run_drops(scene, slots, drops).1;
            0 <= i < drops.len() && drops[i].1 != Reach::Within ==> {
                &&& os[i] is Err
                &&& run_drops(scene, slots, drops.take(i + 1)).0 == run_drops(
                    scene,
                    slots,
                    drops.take(i),
                ).0
                &&& drop_states(states, drops.take(i + 1), os.take(i + 1)) == drop_states(
                    states,
                    drops.take(i),
                    os.take(i),
                )
            }
        }),
        ({
            let os = run_stores(scene, slots, stores).1;
            0 <= i < stores.len() && stores[i].1 != Reach::Within ==> {
                &&& os[i] is Err
                &&& run_stores(scene, slots, stores.take(i + 1)).0 == run_stores(
                    scene,
                    slots,
                    stores.take(i),
                ).0
                &&& store_states(states, stores.take(i + 1), os.take(i + 1)) == store_states(
                    states,
                    stores.take(i),
                    os.take(i),
                )
            }
        }),
        ({
            let os = run_takes(scene, slots, takes).1;
            0 <= i < takes.len() && takes[i].1 != Reach::Within ==> {
                &&& os[i] is Err
                &&& run_takes(scene, slots, takes.take(i + 1)).0 == run_takes(
                    scene,
                    slots,
                    takes.take(i),
                ).0
                &&& take_states(states, takes.take(i + 1), os.take(i + 1)) == take_states(
                    states,
                    takes.take(i),
                    os.take(i),
                )
            }
        }),
{
    if 0 <= i < pickups.len() && pickups[i].1 != Reach::Within {
        let os = run_pickups(scene, slots, pickups).1;
        lemma_run_pickups_prefix(scene, slots, pickups, i + 1);
        assert(pickups.take(i + 1).drop_last() =~= pickups.take(i));
        assert(pickups.take(i + 1).last() == pickups[i]);
        assert(os.take(i + 1)[i] == os[i]);
        assert(run_pickups(scene, slots, pickups.take(i + 1)).1.last() == os[i]);
        let prev = run_pickups(scene, slots, pickups.take(i)).0;
        lemma_out_of_reach_requests_refused(scene, prev, pickups[i].0, arbitrary(), arbitrary(), arbitrary());
        assert(os[i] == pickup_outcome(scene, prev, pickups[i].0, pickups[i].1));
    }
    if 0 <= i < drops.len() && drops[i].1 != Reach::Within {
        let os = run_drops(scene, slots, drops).1;
        lemma_run_drops_prefix(scene, slots, drops, i + 1);
        assert(drops.take(i + 1).drop_last() =~= drops.take(i));
        assert(drops.take(i + 1).last() == drops[i]);
        assert(os.take(i + 1)[i] == os[i]);
        assert(run_drops(scene, slots, drops.take(i + 1)).1.last() == os[i]);
        let prev = run_drops(scene, slots, drops.take(i)).0;
        lemma_out_of_reach_requests_refused(scene, prev, arbitrary(), drops[i].0, arbitrary(), arbitrary());
        assert(os[i] == drop_outcome(scene, prev, drops[i].0, drops[i].1));
    }
    if 0 <= i < stores.len() && stores[i].1 != Reach::Within {
        let os = run_stores(scene, slots, stores).1;
        lemma_run_stores_prefix(scene, slots, stores, i + 1);
        assert(stores.take(i + 1).drop_last() =~= stores.take(i));
        assert(stores.take(i + 1).last() == stores[i]);
        assert(os.take(i + 1)[i] == os[i]);
        assert(run_stores(scene, slots, stores.take(i + 1)).1.last() == os[i]);
        let prev = run_stores(scene, slots, stores.take(i)).0;
        lemma_out_of_reach_requests_refused(scene, prev, arbitrary(), arbitrary(), stores[i].0, arbitrary());
        assert(os[i] == store_outcome(scene, prev, stores[i].0, stores[i].1));
    }
    if 0 <= i < takes.len() && takes[i].1 != Reach::Within {
        let os = run_takes(scene, slots, takes).1;
        lemma_run_takes_prefix(scene, slots, takes, i + 1);
        assert(takes.take(i + 1).drop_last() =~= takes.take(i));
        assert(takes.take(i + 1).last() == takes[i]);
        assert(os.take(i + 1)[i] == os[i]);
        assert(run_takes(scene, slots, takes.take(i + 1)).1.last() == os[i]);
        let prev = run_takes(scene, slots, takes.take(i)).0;
        lemma_out_of_reach_requests_refused(scene, prev, arbitrary(), arbitrary(), arbitrary(), takes[i].0);
        assert(os[i] == take_outcome(scene, prev, takes[i].0, takes[i].1));
    }
    lemma_refused_request_in_pass_changes_nothing(
        scene,
        slots,
        states,
        pickups,
        drops,
        stores,
        takes,
        i,
    );
}

/// What a client does locally for an item event it could resolve.
#[derive(Debug, Clone, Copy, PartialEq, Eq, Structural)]
pub enum ItemEffect {
    /// The item goes into `hand`, a hand of the holder with a free slot.
    PickedUp { item: EntityId, hand: EntityId },
    /// The item leaves the container of its parent, if any.
    Dropped { item: EntityId },
    /// The item leaves its parent's container and goes into `container`.
    Stored { item: EntityId, container: EntityId },
    /// The item leaves every container and goes into `hand`.
    Taken { item: EntityId, hand: EntityId },
}

/// Why a client skips an item event.
#[derive(Debug, Clone, Copy, PartialEq, Eq, Structural)]
pub enum ItemEventSkip {
    UnknownItem,
    UnknownHolder,
    UnknownContainer,
    NoFreeHand,
    NotAnItem,
}

/// What a client makes of an item event, given its index and containers.
pub open spec fn item_event_outcome(
    scene: ItemScene,
    index: Map<u64, EntityId>,
    slots: Map<u64, Seq<Option<EntityId>>>,
    ev: ItemEvent,
) -> Result<ItemEffect, ItemEventSkip> {
    match ev {
        ItemEvent::PickedUp { item, holder } => if !index.contains_key(item.0) {
            Err(ItemEventSkip::UnknownItem)
        } else if !index.contains_key(holder.0) {
            Err(ItemEventSkip::UnknownHolder)
        } else {
            match first_hand(scene.children_of(index[holder.0]), scene.hand_slots@, slots, None) {
                None => Err(ItemEventSkip::NoFreeHand),
                Some(h) => if scene.is_item(index[item.0]) {
                    Ok(ItemEffect::PickedUp { item: index[item.0], hand: h })
                } else {
                    Err(ItemEventSkip::NotAnItem)
                },
            }
        },
        ItemEvent::Dropped { item } => if !index.contains_key(item.0) {
            Err(ItemEventSkip::UnknownItem)
        } else if !scene.is_item(index[item.0]) {
            Err(ItemEventSkip::NotAnItem)
        } else {
            Ok(ItemEffect::Dropped { item: index[item.0] })
        },
        ItemEvent::Stored { item, container } => if !index.contains_key(item.0) {
            Err(ItemEventSkip::UnknownItem)
        } else if !index.contains_key(container.0) {
            Err(ItemEventSkip::UnknownContainer)
        } else if !scene.is_item(index[item.0]) {
            Err(ItemEventSkip::NotAnItem)
        } else {
            Ok(ItemEffect::Stored { item: index[item.0], container: index[container.0] })
        },
        ItemEvent::Taken { item, holder } => if !index.contains_key(item.0) {
            Err(ItemEventSkip::UnknownItem)
        } else if !index.contains_key(holder.0) {
            Err(ItemEventSkip::UnknownHolder)
        } else {
            match first_hand(scene.children_of(index[holder.0]), scene.hand_slots@, slots, None) {
                None => Err(ItemEventSkip::NoFreeHand),
                Some(h) => if scene.is_item(index[item.0]) {
                    Ok(ItemEffect::Taken { item: index[item.0], hand: h })
                } else {
                    Err(ItemEventSkip::NotAnItem)
                },
            }
        },
    }
}

/// The slots after `item` left the container of its parent, if it has a
/// parent.
pub open spec fn leave_parent(scene: ItemScene, slots: Map<u64, Seq<Option<EntityId>>>, item: EntityId) -> Map<
    u64,
    Seq<Option<EntityId>>,
> {
    match scene.facts(item).parent {
        Some(p) => take_out(slots, p, item),
        None => slots,
    }
}

/// The slots after `item` left every container.
pub open spec fn take_out_everywhere(slots: Map<u64, Seq<Option<EntityId>>>, item: EntityId) -> Map<
    u64,
    Seq<Option<EntityId>>,
> {
    slots.map_values(|s: Seq<Option<EntityId>>| slots_without(s, item))
}

/// The containers after an item event with outcome `o`.
pub open spec fn after_item_event(
    scene: ItemScene,
    slots: Map<u64, Seq<Option<EntityId>>>,
    o: Result<ItemEffect, ItemEventSkip>,
) -> Map<u64, Seq<Option<EntityId>>> {
    match o {
        Ok(ItemEffect::PickedUp { item, hand }) => put(slots, hand, item),
        Ok(ItemEffect::Dropped { item }) => leave_parent(scene, slots, item),
        Ok(ItemEffect::Stored { item, container }) => put(
            leave_parent(scene, slots, item),
            container,
            item,
        ),
        Ok(ItemEffect::Taken { item, hand }) => put(take_out_everywhere(slots, item), hand, item),
        Err(_) => slots,
    }
}

/// Item events applied one after another from `slots`.
pub open spec fn run_item_events(
    scene: ItemScene,
    index: Map<u64, EntityId>,
    slots: Map<u64, Seq<Option<EntityId>>>,
    evs: Seq<ItemEvent>,
) -> (Map<u64, Seq<Option<EntityId>>>, Seq<Result<ItemEffect, ItemEventSkip>>)
    decreases evs.len(),
{
    if evs.len() == 0 {
        (slots, Seq::empty())
    } else {
        let prev = run_item_events(scene, index, slots, evs.drop_last());
        let o = item_event_outcome(scene, index, prev.0, evs.last());
        (after_item_event(scene, prev.0, o), prev.1.push(o))
    }
}

/// A drop replicated to a client empties the hand that held the item: when
/// the last event of a batch is a drop of an item the index knows, that
/// item's parent `p` has a container, the drop resolves to that item, the
/// container of `p` is the one the events before left with the item's slot
/// emptied, and every other container is left as it was.
pub proof fn lemma_dropped_event_empties_parent_slot(
    scene: ItemScene,
    index: Map<u64, EntityId>,
    slots: Map<u64, Seq<Option<EntityId>>>,
    evs: Seq<ItemEvent>,
    p: EntityId,
)
    requires
        evs.len() > 0,
        evs.last() matches ItemEvent::Dropped { item } && index.contains_key(item.0) && scene.is_item(
            index[item.0],
        ) && scene.facts(index[item.0]).parent == Some(p),
        run_item_events(scene, index, slots, evs.drop_last()).0.contains_key(p.0),
    ensures
        ({
            let before = run_item_events(scene, index, slots, evs.drop_last()).0;
            let after = run_item_events(scene, index, slots, evs);
            let e = index[evs.last()->Dropped_item.0];
            &&& after.1.last() == Ok::<ItemEffect, ItemEventSkip>(ItemEffect::Dropped { item: e })
            &&& after.0.contains_key(p.0)
            &&& after.0[p.0].len() == before[p.0].len()
            &&& occurs(before[p.0], Some(e)) ==> after.0[p.0][first_index(before[p.0], Some(e)) as int]
                == None::<EntityId>
            &&& forall|j: int|
                0 <= j < before[p.0].len() && before[p.0][j] != Some(e) ==> #[trigger] after.0[p.0][j]
                    == before[p.0][j]
            &&& forall|k: u64| k != p.0 ==> #[trigger] after.0.contains_key(k) == before.contains_key(k)
            &&& forall|k: u64| k != p.0 && before.contains_key(k) ==> #[trigger] after.0[k] == before[k]
        }),
{
    let before = run_item_events(scene, index, slots, evs.drop_last()).0;
    let e = index[evs.last()->Dropped_item.0];
    lemma_first_index(before[p.0], Some(e));
}

/// What the other replicated item events do to a client's containers: a
/// pick up or a take resolves to the item the index holds for the event's
/// item id and to a hand slot of the holder the index names, one whose
/// container had a free slot; a pick up fills the first free slot of that
/// hand with the item; a take removes the item from every other container
/// and leaves it in the hand; a store resolves to the item and the
/// container the index holds for the event's ids, and a container that had
/// a free slot holds the item after it.
pub proof fn lemma_item_event_effects(
    scene: ItemScene,
    index: Map<u64, EntityId>,
    slots: Map<u64, Seq<Option<EntityId>>>,
    evs: Seq<ItemEvent>,
)
    requires
        evs.len() > 0,
    ensures
        ({
            let before = run_item_events(scene, index, slots, evs.drop_last()).0;
            let after = run_item_events(scene, index, slots, evs);
            let o = after.1.last();
            &&& o matches Ok(ItemEffect::PickedUp { item, hand }) ==> {
                &&& evs.last() matches ItemEvent::PickedUp { item: n, holder } && index.contains_key(
                    n.0,
                ) && index[n.0] == item && index.contains_key(holder.0) && scene.children_of(
                    index[holder.0],
                ).contains(hand)
                &&& scene.hand_slots@.contains(hand.0)
                &&& before.contains_key(hand.0) && occurs(before[hand.0], None)
                &&& after.0[hand.0] == before[hand.0].update(
                    first_index(before[hand.0], None) as int,
                    Some(item),
                )
                &&& forall|k: u64| k != hand.0 ==> #[trigger] after.0.contains_key(k)
                    == before.contains_key(k) && (before.contains_key(k) ==> after.0[k] == before[k])
            }
            &&& o matches Ok(ItemEffect::Taken { item, hand }) ==> {
                &&& evs.last() matches ItemEvent::Taken { item: n, holder } && index.contains_key(n.0)
                    && index[n.0] == item && index.contains_key(holder.0) && scene.children_of(
                    index[holder.0],
                ).contains(hand)
                &&& scene.hand_slots@.contains(hand.0)
                &&& after.0.contains_key(hand.0) && occurs(after.0[hand.0], Some(item))
                &&& forall|k: u64| k != hand.0 && before.contains_key(k) ==> #[trigger] after.0[k]
                    == slots_without(before[k], item)
            }
            &&& o matches Ok(ItemEffect::Stored { item, container }) ==> {
                &&& evs.last() matches ItemEvent::Stored { item: n, container: c } && index.contains_key(
                    n.0,
                ) && index[n.0] == item && index.contains_key(c.0) && index[c.0] == container
                &&& before.contains_key(container.0) && occurs(before[container.0], None) ==> occurs(
                    after.0[container.0],
                    Some(item),
                )
            }
            &&& o matches Ok(ItemEffect::Dropped { item }) ==> evs.last() matches ItemEvent::Dropped {
                item: n,
            } && index.contains_key(n.0) && index[n.0] == item
        }),
{
    let before = run_item_events(scene, index, slots, evs.drop_last()).0;
    let after = run_item_events(scene, index, slots, evs);
    let o = after.1.last();
    match evs.last() {
        ItemEvent::PickedUp { item, holder } => {
            if index.contains_key(holder.0) {
                lemma_first_hand_qualifies(scene.children_of(index[holder.0]), scene.hand_slots@, before, None);
            }
        },
        ItemEvent::Taken { item, holder } => {
            if index.contains_key(holder.0) {
                lemma_first_hand_qualifies(scene.children_of(index[holder.0]), scene.hand_slots@, before, None);
            }
            if let Ok(ItemEffect::Taken { item, hand }) = o {
                let mid = take_out_everywhere(before, item);
                lemma_without_keeps_room(before[hand.0], item);
                lemma_insert_holds(mid[hand.0], item);
            }
        },
        ItemEvent::Stored { .. } => {
            if let Ok(ItemEffect::Stored { item, container }) = o {
                if before.contains_key(container.0) && occurs(before[container.0], None) {
                    let mid = leave_parent(scene, before, item);
                    lemma_without_keeps_room(before[container.0], item);
                    assert(occurs(mid[container.0], None));
                    lemma_insert_holds(mid[container.0], item);
                }
            }
        },
        ItemEvent::Dropped { .. } => {},
    }
}

/// The item an effect concerns.
pub open spec fn effect_item(e: ItemEffect) -> EntityId {
    match e {
        ItemEffect::PickedUp { item, .. } => item,
        ItemEffect::Dropped { item } => item,
        ItemEffect::Stored { item, .. } => item,
        ItemEffect::Taken { item, .. } => item,
    }
}

/// The components of an item after a client applies effect `e` to it, where
/// `f` is how the item was when the batch began and `g` how earlier events
/// of the batch left it; `at` numbers the event.  Physics is stashed only
/// when the item had its collider and gravity scale at the start, and
/// restored only when it had a stash:
/// - picked up: parented to the hand at the hand anchor;
/// - dropped: unparented and placed at the event's position;
/// - stored: unparented and hidden;
/// - taken: parented to the hand at the hand anchor, and shown.
pub open spec fn event_facts(f: ItemFacts, g: ItemFacts, e: ItemEffect, at: u64) -> ItemFacts {
    let s = if f.has_collider && f.has_gravity {
        stash_physics(g)
    } else {
        g
    };
    match e {
        ItemEffect::PickedUp { hand, .. } => into_hand(s, hand),
        ItemEffect::Dropped { .. } => released_at(
            if f.stashed {
                restore_physics(g)
            } else {
                g
            },
            at,
        ),
        ItemEffect::Stored { .. } => put_away(s),
        ItemEffect::Taken { hand, .. } => ItemFacts { hidden: false, ..into_hand(s, hand) },
    }
}

/// The item states after an item event with outcome `o`, numbered `at`.
pub open spec fn states_after_event(
    scene: ItemScene,
    states: Map<u64, ItemFacts>,
    o: Result<ItemEffect, ItemEventSkip>,
    at: u64,
) -> Map<u64, ItemFacts> {
    match o {
        Ok(e) => set_item(
            states,
            effect_item(e),
            event_facts(scene.facts(effect_item(e)), states[effect_item(e).0], e, at),
        ),
        Err(_) => states,
    }
}

/// The item states after a batch of item events with outcomes `os`, each
/// applied to the states the ones before it left.
pub open spec fn event_states(
    scene: ItemScene,
    states: Map<u64, ItemFacts>,
    os: Seq<Result<ItemEffect, ItemEventSkip>>,
) -> Map<u64, ItemFacts>
    decreases os.len(),
{
    if os.len() == 0 {
        states
    } else {
        states_after_event(
            scene,
            event_states(scene, states, os.drop_last()),
            os.last(),
            (os.len() - 1) as u64,
        )
    }
}

/// What a replicated item event does to the item on a client: a pick up
/// or a take parents it to the hand at the hand anchor (a take also shows
/// it), a drop unparents it at the event's position and, when it was
/// stashed when the batch began, gives it its collider, gravity scale and
/// rigid body back, and a store unparents and hides it; a pick up, store
/// or take of an item that began the batch with its collider and gravity
/// scale stashes its physics.  No other item changes.
pub proof fn lemma_item_event_facts(
    scene: ItemScene,
    states: Map<u64, ItemFacts>,
    os: Seq<Result<ItemEffect, ItemEventSkip>>,
)
    requires
        os.len() > 0,
    ensures
        ({
            let prev = event_states(scene, states, os.drop_last());
            let cur = event_states(scene, states, os);
            let e = os.last()->Ok_0;
            let f = scene.facts(effect_item(e));
            let after = cur[effect_item(e).0];
            &&& os.last() is Err ==> cur == prev
            &&& os.last() is Ok && prev.contains_key(effect_item(e).0) ==> {
                &&& cur.contains_key(effect_item(e).0)
                &&& forall|k: u64| k != effect_item(e).0 ==> #[trigger] cur.contains_key(k)
                    == prev.contains_key(k) && (prev.contains_key(k) ==> cur[k] == prev[k])
                &&& e matches ItemEffect::PickedUp { hand, .. } ==> after.parent == Some(hand)
                    && after.placement == Placement::HandAnchor
                &&& e matches ItemEffect::Taken { hand, .. } ==> after.parent == Some(hand)
                    && after.placement == Placement::HandAnchor && !after.hidden
                &&& e is Stored ==> after.parent is None && after.hidden
                &&& e is Dropped ==> after.parent is None && after.placement == Placement::DropPoint(
                    (os.len() - 1) as u64,
                )
                &&& e is Dropped && f.stashed ==> !after.stashed && after.has_collider
                    && after.has_gravity && after.rigid_body
                &&& !(e is Dropped) && f.has_collider && f.has_gravity ==> after.stashed
                    && !after.has_collider && !after.has_gravity && !after.rigid_body
            }
        }),
{
}

/// Computes `event_facts`.
fn event_facts_of(f: ItemFacts, g: ItemFacts, e: ItemEffect, at: u64) -> (r: ItemFacts)
    ensures
        r == event_facts(f, g, e, at),
{
    let s = if f.has_collider && f.has_gravity {
        ItemFacts { stashed: true, has_collider: false, has_gravity: false, rigid_body: false, ..g }
    } else {
        g
    };
    match e {
        ItemEffect::PickedUp { hand, .. } => ItemFacts {
            parent: Some(hand),
            placement: Placement::HandAnchor,
            ..s
        },
        ItemEffect::Dropped { .. } => {
            let r = if f.stashed {
                ItemFacts { stashed: false, has_collider: true, has_gravity: true, rigid_body: true, ..g }
            } else {
                g
            };
            ItemFacts { parent: None, placement: Placement::DropPoint(at), ..r }
        },
        ItemEffect::Stored { .. } => ItemFacts { parent: None, hidden: true, ..s },
        ItemEffect::Taken { hand, .. } => ItemFacts {
            parent: Some(hand),
            placement: Placement::HandAnchor,
            hidden: false,
            ..s
        },
    }
}

impl Containers {
    /// Takes `item` out of every container that holds it.
    pub fn take_item_everywhere(&mut self, item: EntityId)
        ensures
            final(self).slots() == take_out_everywhere(old(self).slots(), item),
    {
        let ghost all = spec_keys_iter(&self.by_entity).remaining();
        let ghost start = self.slots();
        let mut keys: Vec<u64> = Vec::new();
        let ghost mut n: int = 0;
        for k in it: self.by_entity.keys()
            invariant
                it.seq() == all,
                n == it.index(),
                n <= all.len(),
                keys@.len() == n,
                forall|j: int| 0 <= j < n ==> keys@[j] == *all[j],
        {
            keys.push(*k);
            proof {
                n = n + 1;
            }
        }
        proof {
            assert(all.unref().to_set() == start.dom());
            assert(all.no_duplicates());
            assert(keys@ =~= all.unref());
        }
        let mut i: usize = 0;
        while i < keys.len()
            invariant
                i <= keys.len(),
                keys@.no_duplicates(),
                keys@.to_set() == start.dom(),
                self.slots().dom() == start.dom(),
                forall|j: int| 0 <= j < i ==> #[trigger] self.slots()[keys@[j]] == slots_without(
                    start[keys@[j]],
                    item,
                ),
                forall|k: u64|
                    start.contains_key(k) && !keys@.subrange(0, i as int).contains(k) ==> #[trigger] self.slots()[k]
                        == start[k],
            decreases keys.len() - i,
        {
            let k = keys[i];
            proof {
                assert(keys@.contains(k));
                assert(start.contains_key(k));
                assert(!keys@.subrange(0, i as int).contains(k)) by {
                    if keys@.subrange(0, i as int).contains(k) {
                        let j = choose|j: int| 0 <= j < i && keys@.subrange(0, i as int)[j] == k;
                        assert(keys@[j] == keys@[i as int]);
                    }
                }
            }
            self.take_item(EntityId(k), item);
            proof {
                assert forall|k2: u64|
                    start.contains_key(k2) && !keys@.subrange(0, i as int + 1).contains(
                        k2,
                    ) implies #[trigger] self.slots()[k2] == start[k2] by {
                    if keys@.subrange(0, i as int).contains(k2) {
                        let j = choose|j: int| 0 <= j < i && keys@.subrange(0, i as int)[j] == k2;
                        assert(keys@.subrange(0, i as int + 1)[j] == k2);
                    }
                    assert(k2 != k) by {
                        if k2 == k {
                            assert(keys@.subrange(0, i as int + 1)[i as int] == k2);
                        }
                    }
                }
                assert forall|j: int| 0 <= j < i + 1 implies #[trigger] self.slots()[keys@[j]]
                    == slots_without(start[keys@[j]], item) by {
                    if j < i {
                        assert(keys@[j] != k);
                    }
                }
            }
            i = i + 1;
        }
        proof {
            assert forall|k: u64| start.contains_key(k) implies #[trigger] self.slots()[k]
                == slots_without(start[k], item) by {
                assert(keys@.to_set().contains(k));
                let j = choose|j: int| 0 <= j < keys@.len() && keys@[j] == k;
                assert(self.slots()[keys@[j]] == slots_without(start[keys@[j]], item));
            }
            assert(self.slots() =~= take_out_everywhere(start, item));
        }
    }

    /// Applies one item event received from the server to the local
    /// containers.
    fn apply_item_event(&mut self, scene: &ItemScene, index: &NetIdIndex, ev: ItemEvent) -> (r:
        Result<ItemEffect, ItemEventSkip>)
        ensures
            r == item_event_outcome(*scene, index.entries(), old(self).slots(), ev),
            final(self).slots() == after_item_event(*scene, old(self).slots(), r),
    {
        match ev {
            ItemEvent::PickedUp { item, holder } => {
                let item_e = match index.get(item) {
                    Some(e) => e,
                    None => {
                        return Err(ItemEventSkip::UnknownItem);
                    },
                };
                let holder_e = match index.get(holder) {
                    Some(e) => e,
                    None => {
                        return Err(ItemEventSkip::UnknownHolder);
                    },
                };
                let hand = match self.find_hand_slot_with_space(scene, holder_e) {
                    Some(h) => h,
                    None => {
                        return Err(ItemEventSkip::NoFreeHand);
                    },
                };
                if !scene.items.contains_key(&item_e.0) {
                    return Err(ItemEventSkip::NotAnItem);
                }
                self.put_item(hand, item_e);
                Ok(ItemEffect::PickedUp { item: item_e, hand })
            },
            ItemEvent::Dropped { item } => {
                let item_e = match index.get(item) {
                    Some(e) => e,
                    None => {
                        return Err(ItemEventSkip::UnknownItem);
                    },
                };
                let facts = match scene.items.get(&item_e.0) {
                    Some(f) => *f,
                    None => {
                        return Err(ItemEventSkip::NotAnItem);
                    },
                };
                match facts.parent {
                    Some(p) => self.take_item(p, item_e),
                    None => {},
                }
                Ok(ItemEffect::Dropped { item: item_e })
            },
            ItemEvent::Stored { item, container } => {
                let item_e = match index.get(item) {
                    Some(e) => e,
                    None => {
                        return Err(ItemEventSkip::UnknownItem);
                    },
                };
                let container_e = match index.get(container) {
                    Some(e) => e,
                    None => {
                        return Err(ItemEventSkip::UnknownContainer);
                    },
                };
                let facts = match scene.items.get(&item_e.0) {
                    Some(f) => *f,
                    None => {
                        return Err(ItemEventSkip::NotAnItem);
                    },
                };
                match facts.parent {
                    Some(p) => self.take_item(p, item_e),
                    None => {},
                }
                self.put_item(container_e, item_e);
                Ok(ItemEffect::Stored { item: item_e, container: container_e })
            },
            ItemEvent::Taken { item, holder } => {
                let item_e = match index.get(item) {
                    Some(e) => e,
                    None => {
                        return Err(ItemEventSkip::UnknownItem);
                    },
                };
                let holder_e = match index.get(holder) {
                    Some(e) => e,
                    None => {
                        return Err(ItemEventSkip::UnknownHolder);
                    },
                };
                let hand = match self.find_hand_slot_with_space(scene, holder_e) {
                    Some(h) => h,
                    None => {
                        return Err(ItemEventSkip::NoFreeHand);
                    },
                };
                if !scene.items.contains_key(&item_e.0) {
                    return Err(ItemEventSkip::NotAnItem);
                }
                self.take_item_everywhere(item_e);
                self.put_item(hand, item_e);
                Ok(ItemEffect::Taken { item: item_e, hand })
            },
        }
    }

    /// Applies the item events received since the last frame, in order.
    /// Each event is decided on the containers as the events before it left
    /// them and on the item components as they were when the batch began;
    /// its effect on the item (see `event_facts`) is applied in the same
    /// order, and the scene's items end as the events leave them.
    pub fn handle_item_event(&mut self, scene: &mut ItemScene, index: &NetIdIndex, events: &Vec<ItemEvent>) -> (r:
        Vec<Result<ItemEffect, ItemEventSkip>>)
        ensures
            (final(self).slots(), r@) == run_item_events(
                *old(scene),
                index.entries(),
                old(self).slots(),
                events@,
            ),
            final(scene).items@ == event_states(*old(scene), old(scene).items@, r@),
            final(scene).hand_slots@ == old(scene).hand_slots@,
            final(scene).children@ == old(scene).children@,
    {
        let ghost start = self.slots();
        let mut states = scene.items.clone();
        let mut out: Vec<Result<ItemEffect, ItemEventSkip>> = Vec::new();
        let mut i: usize = 0;
        while i < events.len()
            invariant
                i <= events.len(),
                out@.len() == i,
                (self.slots(), out@) == run_item_events(
                    *scene,
                    index.entries(),
                    start,
                    events@.take(i as int),
                ),
                states@ == event_states(*scene, scene.items@, out@),
            decreases events.len() - i,
        {
            let o = self.apply_item_event(scene, index, events[i]);
            match o {
                Ok(e) => {
                    let item = match e {
                        ItemEffect::PickedUp { item, .. } => item,
                        ItemEffect::Dropped { item } => item,
                        ItemEffect::Stored { item, .. } => item,
                        ItemEffect::Taken { item, .. } => item,
                    };
                    let f = item_facts_of(&scene.items, item);
                    let g = item_facts_of(&states, item);
                    let n = event_facts_of(f, g, e, i as u64);
                    set_item_facts(&mut states, item, n);
                },
                Err(_) => {},
            }
            let ghost prev = out@;
            out.push(o);
            proof {
                let t = events@.take(i as int + 1);
                assert(t.drop_last() =~= events@.take(i as int));
                assert(t.last() == events@[i as int]);
                assert(out@.drop_last() =~= prev);
            }
            i = i + 1;
        }
        assert(events@.take(i as int) =~= events@);
        scene.items = states;
        out
    }
}

/// When no container holds `item` and the first hand with a free slot is
/// `h`, then after putting `item` into `h`, `h` is the first hand holding it.
proof fn lemma_first_hand_after_put(
    cs: Seq<EntityId>,
    hands: Set<u64>,
    slots: Map<u64, Seq<Option<EntityId>>>,
    h: EntityId,
    item: EntityId,
)
    requires
        first_hand(cs, hands, slots, None) == Some(h),
        forall|k: u64| #[trigger] slots.contains_key(k) ==> !occurs(slots[k], Some(item)),
    ensures
        first_hand(cs, hands, put(slots, h, item), Some(item)) == Some(h),
    decreases cs.len(),
{
    let s2 = put(slots, h, item);
    lemma_first_hand_qualifies(cs, hands, slots, None);
    if cs[0] == h {
        lemma_insert_holds(slots[h.0], item);
    } else {
        if hands.contains(cs[0].0) && slots.contains_key(cs[0].0) {
            assert(s2[cs[0].0] == slots[cs[0].0]);
        }
        lemma_first_hand_after_put(cs.drop_first(), hands, slots, h, item);
    }
}

/// An actor who picks up an item lying loose in the world and then, in the
/// scene the pickup left, drops it, empties the same hand it filled: the
/// containers end as they were before the pickup, and the item is a loose
/// dynamic body again, unparented, at the drop's position, with its
/// collider and gravity scale back and its visibility unchanged.
pub proof fn lemma_pickup_then_drop(
    before: ItemScene,
    after: ItemScene,
    slots: Map<u64, Seq<Option<EntityId>>>,
    actor: EntityId,
    item: EntityId,
    at: u64,
)
    requires
        after.hand_slots@ == before.hand_slots@,
        after.children@ == before.children@,
        after.items@ == states_after_pickup(
            before.items@,
            ItemPickupRequest { actor, item },
            pickup_outcome(before, slots, ItemPickupRequest { actor, item }, Reach::Within),
        ),
        forall|k: u64| #[trigger] slots.contains_key(k) ==> !occurs(slots[k], Some(item)),
    ensures
        ({
            let p = ItemPickupRequest { actor, item };
            let d = ItemDropRequest { actor, item };
            let o = pickup_outcome(before, slots, p, Reach::Within);
            let held = after_pickup(slots, p, o);
            o matches Ok(h) ==> {
                &&& drop_outcome(after, held, d, Reach::Within) == Ok::<EntityId, DropRejection>(h)
                &&& after_drop(held, d, drop_outcome(after, held, d, Reach::Within)) == slots
                &&& states_after_drop(after.items@, d, Ok::<EntityId, DropRejection>(h), at)[item.0]
                    == ItemFacts {
                    rigid_body: true,
                    placement: Placement::DropPoint(at),
                    ..before.facts(item)
                }
            }
        }),
{
    let p = ItemPickupRequest { actor, item };
    let o = pickup_outcome(before, slots, p, Reach::Within);
    if let Ok(h) = o {
        let cs = before.children_of(actor);
        assert(after.children_of(actor) == cs);
        lemma_first_hand_qualifies(cs, before.hand_slots@, slots, None);
        lemma_first_hand_after_put(cs, before.hand_slots@, slots, h, item);
        lemma_insert_then_remove(slots[h.0], item);
        let held = put(slots, h, item);
        assert(take_out(held, h, item) =~= slots);
        assert(after.facts(item) == picked_up_facts(before.facts(item), h));
    }
}

/// Emptying the slot of an entity never takes away a free slot.
proof fn lemma_without_keeps_room(s: Seq<Option<EntityId>>, e: EntityId)
    requires
        occurs(s, None),
    ensures
        occurs(slots_without(s, e), None),
{
    lemma_first_index(s, None);
    lemma_first_index(s, Some(e));
    let t = slots_without(s, e);
    lemma_first_index(t, None);
    if occurs(s, Some(e)) {
        assert(t[first_index(s, Some(e)) as int] == None::<EntityId>);
    } else {
        assert(t[first_index(s, None) as int] == None::<EntityId>);
    }
}

/// After a store is accepted, the target container holds the item.
pub proof fn lemma_store_places_item(
    scene: ItemScene,
    slots: Map<u64, Seq<Option<EntityId>>>,
    r: ItemStoreRequest,
    reach: Reach,
)
    ensures
        store_outcome(scene, slots, r, reach) is Ok ==> {
            let s2 = after_store(slots, r, store_outcome(scene, slots, r, reach));
            s2.contains_key(r.container.0) && occurs(s2[r.container.0], Some(r.item))
        },
{
    if let Ok(h) = store_outcome(scene, slots, r, reach) {
        let s1 = take_out(slots, h, r.item);
        if h.0 == r.container.0 {
            lemma_without_keeps_room(slots[h.0], r.item);
        }
        assert(occurs(s1[r.container.0], None));
        lemma_insert_holds(s1[r.container.0], r.item);
    }
}

/// After a take is accepted, the hand it names holds the item.
pub proof fn lemma_take_places_item(
    scene: ItemScene,
    slots: Map<u64, Seq<Option<EntityId>>>,
    r: ItemTakeRequest,
    reach: Reach,
)
    ensures
        take_outcome(scene, slots, r, reach) matches Ok(h) ==> {
            let s2 = after_take(slots, r, take_outcome(scene, slots, r, reach));
            s2.contains_key(h.0) && occurs(s2[h.0], Some(r.item))
        },
{
    if let Ok(h) = take_outcome(scene, slots, r, reach) {
        let cs = scene.children_of(r.actor);
        lemma_first_hand_qualifies(cs, scene.hand_slots@, slots, None);
        let s1 = take_out(slots, r.container, r.item);
        if h.0 == r.container.0 {
            lemma_without_keeps_room(slots[h.0], r.item);
        }
        assert(occurs(s1[h.0], None));
        lemma_insert_holds(s1[h.0], r.item);
    }
}

/// Whether some slot of `s` holds an entity.
pub open spec fn any_occupied(s: Seq<Option<EntityId>>) -> bool {
    exists|i: int| 0 <= i < s.len() && s[i] is Some
}

/// Whether a hand slot among the descendants of `root`, down to `depth`
/// levels, has a container holding something.
pub open spec fn holds_in_subtree(
    scene: ItemScene,
    slots: Map<u64, Seq<Option<EntityId>>>,
    root: EntityId,
    depth: nat,
) -> bool
    decreases depth, 0nat, 0nat,
{
    depth > 0 && holds_in_children(scene, slots, scene.children_of(root), (depth - 1) as nat)
}

/// Whether one of `cs`, or one of their descendants down to `depth` more
/// levels, is a hand slot whose container holds something.
pub open spec fn holds_in_children(
    scene: ItemScene,
    slots: Map<u64, Seq<Option<EntityId>>>,
    cs: Seq<EntityId>,
    depth: nat,
) -> bool
    decreases depth, 1nat, cs.len(),
{
    if cs.len() == 0 {
        false
    } else {
        (scene.hand_slots@.contains(cs[0].0) && slots.contains_key(cs[0].0) && any_occupied(
            slots[cs[0].0],
        )) || holds_in_subtree(scene, slots, cs[0], depth) || holds_in_children(
            scene,
            slots,
            cs.drop_first(),
            depth,
        )
    }
}

impl Containers {
    /// Whether the container of `e` holds anything.
    fn occupied(&self, e: EntityId) -> (r: bool)
        ensures
            r == (self.slots().contains_key(e.0) && any_occupied(self.slots()[e.0])),
    {
        match self.by_entity.get(&e.0) {
            Some(c) => {
                assert(self.slots().contains_key(e.0) && self.slots()[e.0] == c@);
                let mut i: usize = 0;
                while i < c.slots.len()
                    invariant
                        self.slots().contains_key(e.0),
                        self.slots()[e.0] == c@,
                        i <= c@.len(),
                        forall|j: int| 0 <= j < i ==> c@[j] is None,
                    decreases c@.len() - i,
                {
                    if c.slots[i].is_some() {
                        assert(c@[i as int] is Some);
                        return true;
                    }
                    i = i + 1;
                }
                false
            },
            None => false,
        }
    }

    /// Whether a hand slot among the descendants of `root`, down to `depth`
    /// levels, has a container holding something.
    pub fn has_held_item_within(&self, scene: &ItemScene, root: EntityId, depth: u64) -> (r: bool)
        ensures
            r == holds_in_subtree(*scene, self.slots(), root, depth as nat),
        decreases depth,
    {
        if depth == 0 {
            return false;
        }
        let cs = match scene.children.get(&root.0) {
            Some(cs) => cs,
            None => {
                return false;
            },
        };
        let ghost all = cs@;
        let ghost d = (depth - 1) as nat;
        assert(all.subrange(0, all.len() as int) =~= all);
        let mut i: usize = 0;
        while i < cs.len()
            invariant
                all == cs@,
                all == scene.children_of(root),
                d == depth - 1,
                depth > 0,
                i <= all.len(),
                holds_in_children(*scene, self.slots(), all, d) == holds_in_children(
                    *scene,
                    self.slots(),
                    all.subrange(i as int, all.len() as int),
                    d,
                ),
            decreases all.len() - i,
        {
            proof {
                let t = all.subrange(i as int, all.len() as int);
                assert(t.drop_first() =~= all.subrange(i as int + 1, all.len() as int));
            }
            let child = cs[i];
            if scene.hand_slots.contains(&child.0) && self.occupied(child) {
                return true;
            }
            if self.has_held_item_within(scene, child, depth - 1) {
                return true;
            }
            i = i + 1;
        }
        false
    }
}

/// Whether `e` is a hand slot whose container holds something.
pub open spec fn hand_holds(scene: ItemScene, slots: Map<u64, Seq<Option<EntityId>>>, e: EntityId) -> bool {
    scene.hand_slots@.contains(e.0) && slots.contains_key(e.0) && any_occupied(slots[e.0])
}

/// Each entity of `path` after the first is a child of the one before.
pub open spec fn is_chain(scene: ItemScene, path: Seq<EntityId>) -> bool {
    forall|i: int| 0 <= i < path.len() - 1 ==> (#[trigger] scene.children_of(path[i])).contains(path[i + 1])
}

/// `path` leads down from `root`: it starts at a child of `root` and goes
/// from child to child.
pub open spec fn is_descent(scene: ItemScene, root: EntityId, path: Seq<EntityId>) -> bool {
    &&& path.len() > 0
    &&& scene.children_of(root).contains(path[0])
    &&& is_chain(scene, path)
}

/// The search without a depth limit: some descendant of `root` is a hand
/// slot whose container holds something.
pub open spec fn held_at_any_depth(scene: ItemScene, slots: Map<u64, Seq<Option<EntityId>>>, root: EntityId) -> bool {
    exists|path: Seq<EntityId>| is_descent(scene, root, path) && hand_holds(scene, slots, #[trigger] path.last())
}

/// A witness of `holds_in_children`: a chain of at most `d + 1` entities
/// that starts at one of `cs` and ends at a hand holding something.
proof fn lemma_children_witness(
    scene: ItemScene,
    slots: Map<u64, Seq<Option<EntityId>>>,
    cs: Seq<EntityId>,
    d: nat,
) -> (w: (int, Seq<EntityId>))
    requires
        holds_in_children(scene, slots, cs, d),
    ensures
        0 <= w.0 < cs.len(),
        1 <= w.1.len() <= d + 1,
        w.1[0] == cs[w.0],
        is_chain(scene, w.1),
        hand_holds(scene, slots, w.1.last()),
    decreases d, cs.len(),
{
    if hand_holds(scene, slots, cs[0]) {
        let path = seq![cs[0]];
        (0, path)
    } else if holds_in_subtree(scene, slots, cs[0], d) {
        let kids = scene.children_of(cs[0]);
        let w2 = lemma_children_witness(scene, slots, kids, (d - 1) as nat);
        let path = seq![cs[0]] + w2.1;
        assert(kids.contains(kids[w2.0]));
        assert forall|i: int| 0 <= i < path.len() - 1 implies (#[trigger] scene.children_of(path[i])).contains(
            path[i + 1],
        ) by {
            if i > 0 {
                assert(path[i] == w2.1[i - 1]);
                assert(path[i + 1] == w2.1[i]);
            }
        }
        assert(path.last() == w2.1.last());
        (0, path)
    } else {
        let w2 = lemma_children_witness(scene, slots, cs.drop_first(), d);
        (w2.0 + 1, w2.1)
    }
}

/// A chain of at most `d + 1` entities that starts at one of `cs` and ends
/// at a hand holding something makes `holds_in_children` true.
proof fn lemma_children_complete(
    scene: ItemScene,
    slots: Map<u64, Seq<Option<EntityId>>>,
    cs: Seq<EntityId>,
    d: nat,
    j: int,
    path: Seq<EntityId>,
)
    requires
        0 <= j < cs.len(),
        1 <= path.len() <= d + 1,
        path[0] == cs[j],
        is_chain(scene, path),
        hand_holds(scene, slots, path.last()),
    ensures
        holds_in_children(scene, slots, cs, d),
    decreases d, cs.len(),
{
    if j == 0 {
        if path.len() > 1 {
            let kids = scene.children_of(cs[0]);
            let rest = path.drop_first();
            assert(kids.contains(path[1]));
            let j2 = choose|k: int| 0 <= k < kids.len() && kids[k] == path[1];
            assert forall|i: int| 0 <= i < rest.len() - 1 implies (#[trigger] scene.children_of(
                rest[i],
            )).contains(rest[i + 1]) by {
                assert(rest[i] == path[i + 1]);
                assert(rest[i + 1] == path[i + 2]);
            }
            lemma_children_complete(scene, slots, kids, (d - 1) as nat, j2, rest);
            assert(holds_in_subtree(scene, slots, cs[0], d));
        } else {
            assert(path.last() == cs[0]);
        }
    } else {
        lemma_children_complete(scene, slots, cs.drop_first(), d, j - 1, path);
    }
}

/// The bounded search finds exactly the chains of at most `depth` levels.
proof fn lemma_subtree_iff_short_descent(
    scene: ItemScene,
    slots: Map<u64, Seq<Option<EntityId>>>,
    root: EntityId,
    depth: nat,
)
    ensures
        holds_in_subtree(scene, slots, root, depth) <==> exists|path: Seq<EntityId>|
            is_descent(scene, root, path) && path.len() <= depth && hand_holds(
                scene,
                slots,
                #[trigger] path.last(),
            ),
{
    let cs = scene.children_of(root);
    if holds_in_subtree(scene, slots, root, depth) {
        let w = lemma_children_witness(scene, slots, cs, (depth - 1) as nat);
        assert(cs.contains(cs[w.0]));
        assert(is_descent(scene, root, w.1));
    }
    if exists|path: Seq<EntityId>|
        is_descent(scene, root, path) && path.len() <= depth && hand_holds(
            scene,
            slots,
            #[trigger] path.last(),
        ) {
        let path = choose|path: Seq<EntityId>|
            is_descent(scene, root, path) && path.len() <= depth && hand_holds(
                scene,
                slots,
                #[trigger] path.last(),
            );
        let j = choose|k: int| 0 <= k < cs.len() && cs[k] == path[0];
        lemma_children_complete(scene, slots, cs, (depth - 1) as nat, j, path);
    }
}

/// Every entity of a descent but the last has a children list, so it is a
/// key of the scene's children map.
proof fn lemma_descent_keys(scene: ItemScene, root: EntityId, path: Seq<EntityId>, i: int)
    requires
        is_descent(scene, root, path),
        0 <= i < path.len() - 1,
    ensures
        scene.children@.contains_key(path[i].0),
{
    assert(scene.children_of(path[i]).contains(path[i + 1]));
}

/// A descent to a holding hand can be cut down to one of at most as many
/// entities as the scene has children lists: the root and every entity of
/// the descent but the last have one, and where one of them occurs twice the
/// loop between the two is left out.
proof fn lemma_short_descent(
    scene: ItemScene,
    slots: Map<u64, Seq<Option<EntityId>>>,
    root: EntityId,
    path: Seq<EntityId>,
) -> (short: Seq<EntityId>)
    requires
        scene.children@.dom().finite(),
        is_descent(scene, root, path),
        hand_holds(scene, slots, path.last()),
    ensures
        is_descent(scene, root, short),
        hand_holds(scene, slots, short.last()),
        short.len() <= scene.children@.dom().len(),
    decreases path.len(),
{
    let n = path.len();
    let dom = scene.children@.dom();
    if n <= dom.len() {
        path
    } else {
        let keys = seq![root.0] + path.take(n - 1).map_values(|e: EntityId| e.0);
        assert(keys.len() == n);
        assert(keys.to_set().subset_of(dom)) by {
            assert forall|k: u64| keys.to_set().contains(k) implies dom.contains(k) by {
                let i = choose|i: int| 0 <= i < keys.len() && keys[i] == k;
                if i == 0 {
                    assert(scene.children_of(root).contains(path[0]));
                } else {
                    assert(keys[i] == path[i - 1].0);
                    lemma_descent_keys(scene, root, path, i - 1);
                }
            }
        }
        vstd::set_lib::lemma_len_subset(keys.to_set(), dom);
        if keys.no_duplicates() {
            keys.unique_seq_to_set();
            assert(false);
        }
        let (a, b) = choose|a: int, b: int| 0 <= a < keys.len() && 0 <= b < keys.len() && a != b
            && keys[a] == keys[b];
        let (a, b) = if a < b {
            (a, b)
        } else {
            (b, a)
        };
        if a == 0 {
            // The root comes back at `path[b - 1]`: start again below it.
            assert(keys[b] == path[b - 1].0);
            assert(path[b - 1] == root);
            let cut = path.skip(b);
            assert(scene.children_of(path[b - 1]).contains(path[b]));
            assert forall|i: int| 0 <= i < cut.len() - 1 implies (#[trigger] scene.children_of(
                cut[i],
            )).contains(cut[i + 1]) by {
                assert(cut[i] == path[i + b] && cut[i + 1] == path[i + 1 + b]);
            }
            assert(cut.last() == path.last());
            lemma_short_descent(scene, slots, root, cut)
        } else {
            let (a, b) = (a - 1, b - 1);
            assert(keys[a + 1] == path[a].0 && keys[b + 1] == path[b].0);
            assert(path[a] == path[b]);
            let cut = path.take(a + 1) + path.skip(b + 1);
            assert(cut.len() == n - (b - a));
            assert(cut.last() == path.last());
            assert forall|i: int| 0 <= i < cut.len() - 1 implies (#[trigger] scene.children_of(
                cut[i],
            )).contains(cut[i + 1]) by {
                if i < a {
                    assert(cut[i] == path[i] && cut[i + 1] == path[i + 1]);
                } else if i == a {
                    assert(cut[i] == path[b] && cut[i + 1] == path[b + 1]);
                } else {
                    assert(cut[i] == path[i + (b - a)] && cut[i + 1] == path[i + 1 + (b - a)]);
                }
            }
            assert(cut[0] == path[0]);
            lemma_short_descent(scene, slots, root, cut)
        }
    }
}

/// The search of `has_held_item_within` at a depth of at least the number
/// of entities with a children list answers as the search without a depth
/// limit does: a hand holding something among the descendants of `root` is
/// found at that depth if it is found at any.
pub proof fn lemma_held_search_depth(
    scene: ItemScene,
    slots: Map<u64, Seq<Option<EntityId>>>,
    root: EntityId,
    depth: nat,
)
    requires
        depth >= scene.children@.dom().len(),
    ensures
        holds_in_subtree(scene, slots, root, depth) == held_at_any_depth(scene, slots, root),
{
    broadcast use vstd::std_specs::hash::axiom_hashmap_view_finite_dom;

    lemma_subtree_iff_short_descent(scene, slots, root, depth);
    if held_at_any_depth(scene, slots, root) {
        let path = choose|path: Seq<EntityId>|
            is_descent(scene, root, path) && hand_holds(scene, slots, #[trigger] path.last());
        let short = lemma_short_descent(scene, slots, root, path);
        assert(is_descent(scene, root, short) && short.len() <= depth && hand_holds(
            scene,
            slots,
            short.last(),
        ));
    }
}

impl Containers {
    /// Whether a hand slot among the descendants of `root`, at any depth,
    /// has a container holding something: the creature is holding an item.
    pub fn has_held_item(&self, scene: &ItemScene, root: EntityId) -> (r: bool)
        ensures
            r == held_at_any_depth(*scene, self.slots(), root),
    {
        let depth = scene.children.len() as u64;
        proof {
            lemma_held_search_depth(*scene, self.slots(), root, depth as nat);
        }
        self.has_held_item_within(scene, root, depth)
    }
}

/// The `Stored` events for the items of one container, in slot order;
/// items without a network id are left out.
pub open spec fn stored_events_of(
    container: NetId,
    s: Seq<Option<EntityId>>,
    ids: Map<u64, NetId>,
) -> Seq<ItemEvent>
    decreases s.len(),
{
    if s.len() == 0 {
        Seq::empty()
    } else {
        let prev = stored_events_of(container, s.drop_last(), ids);
        match s.last() {
            Some(e) => if ids.contains_key(e.0) {
                prev.push(ItemEvent::Stored { item: ids[e.0], container })
            } else {
                prev
            },
            None => prev,
        }
    }
}

/// The `Stored` events for every world container, in order.
pub open spec fn stored_events(cs: Seq<(NetId, Seq<Option<EntityId>>)>, ids: Map<u64, NetId>) -> Seq<
    ItemEvent,
>
    decreases cs.len(),
{
    if cs.len() == 0 {
        Seq::empty()
    } else {
        stored_events(cs.drop_last(), ids) + stored_events_of(cs.last().0, cs.last().1, ids)
    }
}

/// The events that tell a joining client which items sit in which world
/// container: one `Stored` per item with a network id, container by
/// container (network id and contents, in query order), slot by slot.
pub fn broadcast_stored_on_join(containers: &Vec<(NetId, Container)>, ids: &HashMap<u64, NetId>) -> (r:
    Vec<ItemEvent>)
    ensures
        r@ == stored_events(containers@.map_values(|p: (NetId, Container)| (p.0, p.1@)), ids@),
{
    let ghost cs = containers@.map_values(|p: (NetId, Container)| (p.0, p.1@));
    let mut out: Vec<ItemEvent> = Vec::new();
    let mut k: usize = 0;
    while k < containers.len()
        invariant
            cs == containers@.map_values(|p: (NetId, Container)| (p.0, p.1@)),
            k <= containers@.len(),
            out@ == stored_events(cs.take(k as int), ids@),
        decreases containers@.len() - k,
    {
        let net_id = containers[k].0;
        let c = &containers[k].1;
        let ghost base = out@;
        let mut i: usize = 0;
        while i < c.slots.len()
            invariant
                i <= c@.len(),
                out@ == base + stored_events_of(net_id, c@.take(i as int), ids@),
            decreases c@.len() - i,
        {
            proof {
                let t = c@.take(i as int + 1);
                assert(t.drop_last() =~= c@.take(i as int));
                assert(t.last() == c@[i as int]);
            }
            match c.slots[i] {
                Some(e) => match ids.get(&e.0) {
                    Some(n) => {
                        out.push(ItemEvent::Stored { item: *n, container: net_id });
                        assert(out@ =~= base + stored_events_of(net_id, c@.take(i as int + 1), ids@));
                    },
                    None => {},
                },
                None => {},
            }
            i = i + 1;
        }
        proof {
            assert(c@.take(i as int) =~= c@);
            let t = cs.take(k as int + 1);
            assert(t.drop_last() =~= cs.take(k as int));
            assert(t.last() == cs[k as int]);
        }
        k = k + 1;
    }
    assert(cs.take(k as int) =~= cs);
    out
}

} // verus!
