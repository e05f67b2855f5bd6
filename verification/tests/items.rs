use std::collections::{HashMap, HashSet};

use geostationary::items::{
    broadcast_stored_on_join, Container, Containers, DropRejection, EntityId, ItemDropRequest,
    ItemEffect, ItemEventSkip, ItemFacts, ItemPickupRequest, ItemScene, ItemStoreRequest,
    ItemTakeRequest, PickupRejection, Placement, Reach, StoreRejection, TakeRejection,
};
use geostationary::network::NetId;
use geostationary::things::{ItemEvent, NetIdIndex};

const RANGE: f32 = 2.0;

/// A small stand-in for the game world: the scene and containers that the
/// item rules read and change, and positions.  Requests go through the
/// library's pass; the only thing this world does itself is what the game
/// does with a `DropPoint`: put the item at the drop's position.
struct World {
    scene: ItemScene,
    containers: Containers,
    pos: HashMap<u64, [f32; 3]>,
    next: u64,
}

impl World {
    fn new() -> World {
        World {
            scene: ItemScene {
                items: HashMap::new(),
                hand_slots: HashSet::new(),
                children: HashMap::new(),
            },
            containers: Containers {
                by_entity: HashMap::new(),
            },
            pos: HashMap::new(),
            next: 1,
        }
    }

    fn fresh(&mut self, p: [f32; 3]) -> EntityId {
        let e = EntityId(self.next);
        self.next += 1;
        self.pos.insert(e.0, p);
        e
    }

    /// An actor with one hand slot child.
    fn spawn_actor(&mut self, p: [f32; 3]) -> (EntityId, EntityId) {
        let actor = self.fresh(p);
        let hand = self.fresh(p);
        self.scene.hand_slots.insert(hand.0);
        self.scene.children.entry(actor.0).or_default().push(hand);
        (actor, hand)
    }

    /// Hands get a one-slot container on the next update.
    fn update(&mut self) {
        for h in self.scene.hand_slots.clone() {
            self.containers
                .by_entity
                .entry(h)
                .or_insert_with(|| Container::with_capacity(1));
        }
    }

    /// A loose physical item: a dynamic body with collider and gravity.
    fn spawn_item(&mut self, p: [f32; 3]) -> EntityId {
        let e = self.fresh(p);
        self.scene.items.insert(
            e.0,
            ItemFacts {
                has_collider: true,
                has_gravity: true,
                stashed: false,
                parent: None,
                rigid_body: true,
                hidden: false,
                placement: Placement::Kept,
            },
        );
        e
    }

    fn spawn_container(&mut self, p: [f32; 3], slots: Vec<Option<EntityId>>) -> EntityId {
        let e = self.fresh(p);
        self.containers.by_entity.insert(e.0, Container { slots });
        e
    }

    fn reach(&self, a: EntityId, p: Option<[f32; 3]>) -> Reach {
        match (self.pos.get(&a.0), p) {
            (Some(x), Some(y)) => {
                let d = ((x[0] - y[0]).powi(2) + (x[1] - y[1]).powi(2) + (x[2] - y[2]).powi(2))
                    .sqrt();
                if d > RANGE {
                    Reach::Beyond
                } else {
                    Reach::Within
                }
            }
            _ => Reach::Missing,
        }
    }

    /// Setting up an item's components before a test.
    fn facts_mut(&mut self, item: EntityId) -> &mut ItemFacts {
        self.scene.items.get_mut(&item.0).unwrap()
    }

    fn facts(&self, item: EntityId) -> ItemFacts {
        self.scene.items[&item.0]
    }

    fn hand_contains(&self, hand: EntityId, item: EntityId) -> bool {
        self.containers.by_entity[&hand.0].contains(item)
    }

    fn pickup(&mut self, actor: EntityId, item: EntityId) -> Result<EntityId, PickupRejection> {
        let reach = self.reach(actor, self.pos.get(&item.0).copied());
        let out = self.containers.handle_item_interaction(
            &mut self.scene,
            &vec![(ItemPickupRequest { actor, item }, reach)],
            &vec![],
            &vec![],
            &vec![],
        );
        out.pickups[0]
    }

    fn drop_at(
        &mut self,
        actor: EntityId,
        item: EntityId,
        at: [f32; 3],
    ) -> Result<EntityId, DropRejection> {
        let reach = self.reach(actor, Some(at));
        let out = self.containers.handle_item_interaction(
            &mut self.scene,
            &vec![],
            &vec![(ItemDropRequest { actor, item }, reach)],
            &vec![],
            &vec![],
        );
        if out.drops[0].is_ok() && self.facts(item).placement == Placement::DropPoint(0) {
            self.pos.insert(item.0, at);
        }
        out.drops[0]
    }

    fn store(
        &mut self,
        actor: EntityId,
        item: EntityId,
        container: EntityId,
    ) -> Result<EntityId, StoreRejection> {
        let reach = self.reach(actor, self.pos.get(&container.0).copied());
        let out = self.containers.handle_item_interaction(
            &mut self.scene,
            &vec![],
            &vec![],
            &vec![(
                ItemStoreRequest {
                    actor,
                    item,
                    container,
                },
                reach,
            )],
            &vec![],
        );
        out.stores[0]
    }

    fn take(
        &mut self,
        actor: EntityId,
        item: EntityId,
        container: EntityId,
    ) -> Result<EntityId, TakeRejection> {
        let reach = self.reach(actor, self.pos.get(&container.0).copied());
        let out = self.containers.handle_item_interaction(
            &mut self.scene,
            &vec![],
            &vec![],
            &vec![],
            &vec![(
                ItemTakeRequest {
                    actor,
                    item,
                    container,
                },
                reach,
            )],
        );
        out.takes[0]
    }
}

// ── init_hand_containers ──────────────────────────────────────────────────

#[test]
fn hand_slot_gets_container_on_next_update() {
    let mut w = World::new();
    let (_, hand) = w.spawn_actor([0.0, 0.0, 0.0]);

    // Before update: no Container yet.
    assert!(w.containers.by_entity.get(&hand.0).is_none());

    w.update();

    // After update: Container with 1 slot.
    let container = w
        .containers
        .by_entity
        .get(&hand.0)
        .expect("HandSlot should have a Container after update");
    assert_eq!(container.capacity(), 1);
    assert_eq!(container.slots.len(), 1);
    assert!(container.slots[0].is_none());
}

// ── Pickup ────────────────────────────────────────────────────────────────

#[test]
fn pickup_in_range_succeeds() {
    let mut w = World::new();
    let (actor, hand) = w.spawn_actor([0.0, 0.0, 0.0]);
    let item = w.spawn_item([1.0, 0.0, 0.0]);
    w.update();

    assert_eq!(w.pickup(actor, item), Ok(hand));

    // Physics stashed and item parented to the hand at its anchor.
    let f = w.facts(item);
    assert!(f.stashed);
    assert!(!f.has_collider && !f.has_gravity && !f.rigid_body);
    assert_eq!(f.parent, Some(hand));
    assert_eq!(f.placement, Placement::HandAnchor);
    // Hand container must record the item.
    assert!(w.hand_contains(hand, item), "hand container should contain item");
}

#[test]
fn pickup_out_of_range_fails() {
    let mut w = World::new();
    let (actor, hand) = w.spawn_actor([0.0, 0.0, 0.0]);
    let item = w.spawn_item([10.0, 0.0, 0.0]); // outside range 2.0
    w.update();

    assert_eq!(w.pickup(actor, item), Err(PickupRejection::OutOfRange));
    assert!(!w.scene.items[&item.0].stashed);
    assert!(
        !w.hand_contains(hand, item),
        "hand container should not contain out-of-range item"
    );
}

#[test]
fn pickup_non_item_entity_fails() {
    let mut w = World::new();
    let (actor, hand) = w.spawn_actor([0.0, 0.0, 0.0]);
    // An entity WITHOUT the item marker.
    let non_item = w.fresh([1.0, 0.0, 0.0]);
    w.update();

    assert_eq!(w.pickup(actor, non_item), Err(PickupRejection::NotAnItem));
    assert!(
        !w.hand_contains(hand, non_item),
        "non-item entity should not be picked up"
    );
}

#[test]
fn pickup_hand_full_fails() {
    let mut w = World::new();
    let (actor, hand) = w.spawn_actor([0.0, 0.0, 0.0]);
    let item1 = w.spawn_item([0.5, 0.0, 0.0]);
    let item2 = w.spawn_item([0.8, 0.0, 0.0]);
    w.update();

    assert_eq!(w.pickup(actor, item1), Ok(hand));
    assert!(w.hand_contains(hand, item1));

    // Attempt to pick up second item with full hand.
    assert_eq!(w.pickup(actor, item2), Err(PickupRejection::NoFreeHand));
    assert!(!w.scene.items[&item2.0].stashed);
    assert!(!w.hand_contains(hand, item2), "full hand should not accept item2");
}

#[test]
fn pickup_already_held_fails() {
    let mut w = World::new();
    let (actor, hand) = w.spawn_actor([0.0, 0.0, 0.0]);
    // A second actor nearby, also in range.
    let (actor2, _hand2) = w.spawn_actor([0.5, 0.0, 0.0]);
    let item = w.spawn_item([0.3, 0.0, 0.0]);
    w.update();

    // actor2 picks up the item first.
    assert!(w.pickup(actor2, item).is_ok());
    assert!(w.scene.items[&item.0].stashed);

    // actor1 tries to pick up the same already-held item — should fail.
    assert_eq!(w.pickup(actor, item), Err(PickupRejection::AlreadyHeld));
    assert!(
        !w.hand_contains(hand, item),
        "already-held item should not be pickable by a second actor"
    );
}

#[test]
fn pickup_item_missing_physics_fails() {
    let mut w = World::new();
    let (actor, hand) = w.spawn_actor([0.0, 0.0, 0.0]);
    // An item WITHOUT physics components.
    let item = w.spawn_item([1.0, 0.0, 0.0]);
    {
        let f = w.facts_mut(item);
        f.has_collider = false;
        f.has_gravity = false;
    }
    w.update();

    assert_eq!(w.pickup(actor, item), Err(PickupRejection::MissingPhysics));
    // Non-physical item should be rejected — nothing stashed.
    assert!(!w.scene.items[&item.0].stashed);
    assert!(
        !w.hand_contains(hand, item),
        "non-physical item should not be picked up"
    );
}

// ── Drop ──────────────────────────────────────────────────────────────────

#[test]
fn drop_restores_physics_and_position() {
    let mut w = World::new();
    let (actor, hand) = w.spawn_actor([0.0, 0.0, 0.0]);
    let item = w.spawn_item([1.0, 0.0, 0.0]);
    w.update();

    assert!(w.pickup(actor, item).is_ok());
    assert!(w.scene.items[&item.0].stashed);

    // Drop within interaction range (distance 1.5 < 2.0).
    let drop_pos = [1.5, 0.0, 0.0];
    assert_eq!(w.drop_at(actor, item, drop_pos), Ok(hand));

    // Stash gone, physics back, no parent, placed at the drop position.
    let f = w.facts(item);
    assert!(!f.stashed);
    assert!(f.has_collider && f.has_gravity && f.rigid_body);
    assert_eq!(f.parent, None);
    assert_eq!(f.placement, Placement::DropPoint(0));
    assert_eq!(w.pos[&item.0], drop_pos);

    // Hand container emptied.
    assert!(
        !w.hand_contains(hand, item),
        "hand container should not contain item after drop"
    );
}

#[test]
fn drop_not_held_item_fails() {
    let mut w = World::new();
    let (actor, _hand) = w.spawn_actor([0.0, 0.0, 0.0]);
    let item = w.spawn_item([1.0, 0.0, 0.0]);
    w.update();

    // Attempt to drop without picking up first (nothing stashed).
    assert_eq!(
        w.drop_at(actor, item, [0.0, 0.0, 0.0]),
        Err(DropRejection::NotHeld)
    );
    assert_eq!(w.pos[&item.0], [1.0, 0.0, 0.0]);
}

#[test]
fn drop_out_of_range_fails() {
    let mut w = World::new();
    let (actor, _hand) = w.spawn_actor([0.0, 0.0, 0.0]);
    let item = w.spawn_item([1.0, 0.0, 0.0]);
    w.update();

    assert!(w.pickup(actor, item).is_ok());
    assert!(w.scene.items[&item.0].stashed);

    // Attempt to drop at a position far outside interaction range.
    assert_eq!(
        w.drop_at(actor, item, [50.0, 0.0, 0.0]),
        Err(DropRejection::OutOfRange)
    );
    // Still held — drop was rejected.
    assert!(
        w.scene.items[&item.0].stashed,
        "item should still be held when drop position is out of range"
    );
}

// ── Store ─────────────────────────────────────────────────────────────────

#[test]
fn store_moves_item_to_container_and_hides_it() {
    let mut w = World::new();
    let (actor, hand) = w.spawn_actor([0.0, 0.0, 0.0]);
    let item = w.spawn_item([1.0, 0.0, 0.0]);
    // A nearby external container.
    let ext = w.spawn_container([1.5, 0.0, 0.0], vec![None; 4]);
    w.update();

    assert!(w.pickup(actor, item).is_ok());
    assert!(w.hand_contains(hand, item));

    assert_eq!(w.store(actor, item, ext), Ok(hand));

    // Item should be hidden.
    assert!(w.facts(item).hidden, "item should be hidden after store");
    // Item should be in ext, not in hand, and have no parent.
    assert!(
        w.containers.by_entity[&ext.0].contains(item),
        "item should be in external container after store"
    );
    assert!(
        !w.hand_contains(hand, item),
        "item should not be in hand after store"
    );
    assert_eq!(w.scene.items[&item.0].parent, None);
}

#[test]
fn store_container_full_fails() {
    let mut w = World::new();
    let (actor, hand) = w.spawn_actor([0.0, 0.0, 0.0]);
    let item1 = w.spawn_item([0.5, 0.0, 0.0]);
    let item2 = w.spawn_item([0.8, 0.0, 0.0]);
    // A full container (pre-filled with item2).
    let full = w.spawn_container([1.5, 0.0, 0.0], vec![Some(item2)]);
    w.update();

    assert!(w.pickup(actor, item1).is_ok());

    assert_eq!(
        w.store(actor, item1, full),
        Err(StoreRejection::ContainerFull)
    );

    // item1 should still be in hand (store failed).
    assert!(
        w.hand_contains(hand, item1),
        "item1 should remain in hand when container is full"
    );
}

// ── Take ──────────────────────────────────────────────────────────────────

#[test]
fn take_moves_item_from_container_to_hand() {
    let mut w = World::new();
    let (actor, hand) = w.spawn_actor([0.0, 0.0, 0.0]);
    let item = w.spawn_item([1.5, 0.0, 0.0]);
    // Container pre-holding the item (as if it was stored).
    let src = w.spawn_container([1.5, 0.0, 0.0], vec![Some(item), None]);
    w.facts_mut(item).hidden = true;
    w.update();

    assert_eq!(w.take(actor, item, src), Ok(hand));

    // Item should be in hand and not in source container.
    assert!(w.hand_contains(hand, item), "item should be in hand after take");
    assert!(
        !w.containers.by_entity[&src.0].contains(item),
        "item should not be in source container after take"
    );
    // Shown, reparented to the hand, physics stashed.
    let f = w.facts(item);
    assert!(!f.hidden, "item should be visible after take");
    assert_eq!(f.parent, Some(hand));
    assert!(f.stashed);
    assert!(!f.rigid_body);
}

#[test]
fn take_item_not_in_container_fails() {
    let mut w = World::new();
    let (actor, hand) = w.spawn_actor([0.0, 0.0, 0.0]);
    let item = w.spawn_item([1.0, 0.0, 0.0]);
    let empty = w.spawn_container([1.0, 0.0, 0.0], vec![None; 2]);
    w.update();

    assert_eq!(
        w.take(actor, item, empty),
        Err(TakeRejection::NotInContainer)
    );
    assert!(
        !w.hand_contains(hand, item),
        "take from wrong container should fail"
    );
}

#[test]
fn take_out_of_range_fails() {
    let mut w = World::new();
    let (actor, hand) = w.spawn_actor([0.0, 0.0, 0.0]);
    let item = w.spawn_item([0.0, 0.0, 0.0]);
    // Container at far distance.
    let far = w.spawn_container([100.0, 0.0, 0.0], vec![Some(item)]);
    w.update();

    assert_eq!(w.take(actor, item, far), Err(TakeRejection::OutOfRange));
    assert!(
        !w.hand_contains(hand, item),
        "take from out-of-range container should fail"
    );
}

#[test]
fn take_hand_full_fails() {
    let mut w = World::new();
    let (actor, hand) = w.spawn_actor([0.0, 0.0, 0.0]);
    let item1 = w.spawn_item([0.5, 0.0, 0.0]);
    let item2 = w.spawn_item([1.0, 0.0, 0.0]);
    let src = w.spawn_container([1.0, 0.0, 0.0], vec![Some(item2)]);
    w.update();

    assert!(w.pickup(actor, item1).is_ok());
    assert!(w.hand_contains(hand, item1));

    assert_eq!(w.take(actor, item2, src), Err(TakeRejection::NoFreeHand));
    assert!(
        !w.hand_contains(hand, item2),
        "take into full hand should fail"
    );
    assert!(
        w.containers.by_entity[&src.0].contains(item2),
        "item2 should remain in source container when hand is full"
    );
}

// ── StashedPhysics lifecycle ──────────────────────────────────────────────

#[test]
fn stashed_physics_added_on_pickup_removed_on_drop() {
    let mut w = World::new();
    let (actor, _hand) = w.spawn_actor([0.0, 0.0, 0.0]);
    let item = w.spawn_item([1.0, 0.0, 0.0]);
    w.update();

    assert!(!w.scene.items[&item.0].stashed, "nothing stashed before pickup");
    assert!(w.pickup(actor, item).is_ok());
    assert!(w.scene.items[&item.0].stashed, "stashed after pickup");
    assert!(w.drop_at(actor, item, [0.0, 0.0, 0.0]).is_ok());
    assert!(!w.scene.items[&item.0].stashed, "stash removed after drop");
}

// ── Further checks of the library's own ──────────────────────────────────────

#[test]
fn container_insert_remove_contains() {
    let mut c = Container::with_capacity(3);
    assert!(c.has_space());
    assert_eq!(c.insert(EntityId(7)), Some(0));
    assert_eq!(c.insert(EntityId(8)), Some(1));
    assert!(c.contains(EntityId(8)));
    assert!(c.remove(EntityId(7)));
    assert!(!c.remove(EntityId(7)));
    assert_eq!(c.insert(EntityId(9)), Some(0));
    assert_eq!(c.insert(EntityId(10)), Some(2));
    assert!(!c.has_space());
    assert_eq!(c.insert(EntityId(11)), None);
    assert_eq!(
        c.slots,
        vec![Some(EntityId(9)), Some(EntityId(8)), Some(EntityId(10))]
    );
}

/// Picking an item up and dropping it leaves the hand as it was.
#[test]
fn pickup_then_drop_restores_hand() {
    let mut w = World::new();
    let (actor, hand) = w.spawn_actor([0.0, 0.0, 0.0]);
    let item = w.spawn_item([1.0, 0.0, 0.0]);
    w.update();
    let before = w.containers.by_entity[&hand.0].slots.clone();
    let h1 = w.pickup(actor, item).unwrap();
    let h2 = w.drop_at(actor, item, [1.0, 0.0, 0.0]).unwrap();
    assert_eq!(h1, h2);
    assert_eq!(w.containers.by_entity[&hand.0].slots, before);
}

/// Requests of one pass see the containers as earlier requests left them:
/// two pickups into a one-slot hand in one pass accept only the first.
#[test]
fn one_pass_applies_requests_in_order() {
    let mut w = World::new();
    let (actor, hand) = w.spawn_actor([0.0, 0.0, 0.0]);
    let a = w.spawn_item([1.0, 0.0, 0.0]);
    let b = w.spawn_item([1.0, 0.0, 0.0]);
    let ext = w.spawn_container([1.0, 0.0, 0.0], vec![None]);
    w.update();
    let out = w.containers.handle_item_interaction(
        &mut w.scene,
        &vec![
            (ItemPickupRequest { actor, item: a }, Reach::Within),
            (ItemPickupRequest { actor, item: b }, Reach::Within),
        ],
        &vec![(ItemDropRequest { actor, item: a }, Reach::Within)],
        &vec![(
            ItemStoreRequest {
                actor,
                item: a,
                container: ext,
            },
            Reach::Missing,
        )],
        &vec![(
            ItemTakeRequest {
                actor,
                item: b,
                container: ext,
            },
            Reach::Within,
        )],
    );
    assert_eq!(out.pickups, vec![Ok(hand), Err(PickupRejection::NoFreeHand)]);
    // The item is not yet stashed in this pass: the drop is refused.
    assert_eq!(out.drops, vec![Err(DropRejection::NotHeld)]);
    assert_eq!(out.stores, vec![Err(StoreRejection::NoTransform)]);
    assert_eq!(out.takes, vec![Err(TakeRejection::NotInContainer)]);
    assert!(w.hand_contains(hand, a));
}

fn client_world() -> (World, EntityId, EntityId, NetIdIndex) {
    let mut w = World::new();
    let (creature, hand) = w.spawn_actor([0.0, 0.0, 0.0]);
    w.update();
    let mut index = NetIdIndex(HashMap::new());
    index.insert(NetId(100), creature);
    (w, creature, hand, index)
}

#[test]
fn client_item_events_update_containers() {
    let (mut w, _creature, hand, mut index) = client_world();
    let item = w.spawn_item([0.0, 0.0, 0.0]);
    index.insert(NetId(1), item);
    let toolbox = w.spawn_container([0.0, 0.0, 0.0], vec![None, None]);
    index.insert(NetId(2), toolbox);

    let r = w.containers.handle_item_event(
        &mut w.scene,
        &index,
        &vec![ItemEvent::PickedUp {
            item: NetId(1),
            holder: NetId(100),
        }],
    );
    assert_eq!(r, vec![Ok(ItemEffect::PickedUp { item, hand })]);
    assert!(w.hand_contains(hand, item));
    let f = w.facts(item);
    assert_eq!(f.parent, Some(hand));
    assert!(f.stashed && !f.rigid_body);
    assert_eq!(f.placement, Placement::HandAnchor);

    let r = w.containers.handle_item_event(
        &mut w.scene,
        &index,
        &vec![ItemEvent::Stored {
            item: NetId(1),
            container: NetId(2),
        }],
    );
    assert_eq!(
        r,
        vec![Ok(ItemEffect::Stored {
            item,
            container: toolbox
        })]
    );
    assert!(!w.hand_contains(hand, item));
    assert!(w.containers.by_entity[&toolbox.0].contains(item));
    assert_eq!(w.facts(item).parent, None);
    assert!(w.facts(item).hidden);

    let r = w.containers.handle_item_event(
        &mut w.scene,
        &index,
        &vec![ItemEvent::Taken {
            item: NetId(1),
            holder: NetId(100),
        }],
    );
    assert_eq!(r, vec![Ok(ItemEffect::Taken { item, hand })]);
    assert!(w.hand_contains(hand, item));
    assert!(!w.containers.by_entity[&toolbox.0].contains(item));
    let f = w.facts(item);
    assert!(!f.hidden);
    assert_eq!(f.parent, Some(hand));
}

#[test]
fn client_item_events_skip_unknown() {
    let (mut w, _creature, _hand, index) = client_world();
    let r = w.containers.handle_item_event(
        &mut w.scene,
        &index,
        &vec![
            ItemEvent::Dropped { item: NetId(55) },
            ItemEvent::PickedUp {
                item: NetId(100),
                holder: NetId(9),
            },
            ItemEvent::Stored {
                item: NetId(100),
                container: NetId(9),
            },
            ItemEvent::Dropped { item: NetId(100) },
        ],
    );
    assert_eq!(
        r,
        vec![
            Err(ItemEventSkip::UnknownItem),
            Err(ItemEventSkip::UnknownHolder),
            Err(ItemEventSkip::UnknownContainer),
            Err(ItemEventSkip::NotAnItem),
        ]
    );
}

#[test]
fn stored_items_are_announced_to_joining_clients() {
    let mut ids = HashMap::new();
    ids.insert(5u64, NetId(50));
    ids.insert(6u64, NetId(60));
    let containers = vec![
        (
            NetId(1),
            Container {
                slots: vec![Some(EntityId(5)), None, Some(EntityId(7))],
            },
        ),
        (
            NetId(2),
            Container {
                slots: vec![Some(EntityId(6))],
            },
        ),
    ];
    let evs = broadcast_stored_on_join(&containers, &ids);
    assert_eq!(
        evs,
        vec![
            ItemEvent::Stored {
                item: NetId(50),
                container: NetId(1)
            },
            ItemEvent::Stored {
                item: NetId(60),
                container: NetId(2)
            },
        ]
    );
}

#[test]
fn holding_is_found_through_nested_slots() {
    let mut w = World::new();
    let creature = w.fresh([0.0, 0.0, 0.0]);
    let bone = w.fresh([0.0, 0.0, 0.0]);
    let hand = w.fresh([0.0, 0.0, 0.0]);
    w.scene.children.insert(creature.0, vec![bone]);
    w.scene.children.insert(bone.0, vec![hand]);
    w.scene.hand_slots.insert(hand.0);
    w.update();
    assert!(!w.containers.has_held_item(&w.scene, creature));
    w.containers
        .by_entity
        .get_mut(&hand.0)
        .unwrap()
        .insert(EntityId(99));
    assert!(w.containers.has_held_item(&w.scene, creature));
    // A search that stops above the hand does not see it.
    assert!(!w.containers.has_held_item_within(&w.scene, creature, 1));
}

/// At a depth of the number of entities with children, the search finds a
/// held item wherever it sits below the creature.
#[test]
fn holding_search_at_full_depth() {
    let mut w = World::new();
    let creature = w.fresh([0.0, 0.0, 0.0]);
    let a = w.fresh([0.0, 0.0, 0.0]);
    let b = w.fresh([0.0, 0.0, 0.0]);
    let hand = w.fresh([0.0, 0.0, 0.0]);
    w.scene.children.insert(creature.0, vec![a]);
    w.scene.children.insert(a.0, vec![b]);
    w.scene.children.insert(b.0, vec![hand]);
    w.scene.hand_slots.insert(hand.0);
    w.update();
    w.containers
        .by_entity
        .get_mut(&hand.0)
        .unwrap()
        .insert(EntityId(42));
    let depth = w.scene.children.len() as u64;
    assert!(w.containers.has_held_item_within(&w.scene, creature, depth));
    assert!(w.containers.has_held_item(&w.scene, creature));
    assert!(!w.containers.has_held_item_within(&w.scene, creature, 2));
}

/// A client's drop event unparents the item, puts its physics back and
/// places it at the position of that event (its index in the batch).
#[test]
fn client_drop_event_places_item_at_its_position() {
    let (mut w, _creature, hand, mut index) = client_world();
    let item = w.spawn_item([0.0, 0.0, 0.0]);
    index.insert(NetId(1), item);
    let r = w.containers.handle_item_event(
        &mut w.scene,
        &index,
        &vec![
            ItemEvent::PickedUp {
                item: NetId(1),
                holder: NetId(100),
            },
            ItemEvent::Dropped { item: NetId(1) },
        ],
    );
    assert_eq!(
        r,
        vec![
            Ok(ItemEffect::PickedUp { item, hand }),
            Ok(ItemEffect::Dropped { item })
        ]
    );
    // Decided on the item as the batch began: it was not stashed then, so
    // the drop leaves the stash the pickup made.
    let f = w.facts(item);
    assert_eq!(f.parent, None);
    assert_eq!(f.placement, Placement::DropPoint(1));
    assert!(f.stashed);
    // The hand the item was in at the start of the batch was none, so the
    // hand keeps it in its container.
    assert!(w.hand_contains(hand, item));

    let r = w.containers.handle_item_event(
        &mut w.scene,
        &index,
        &vec![ItemEvent::Dropped { item: NetId(1) }],
    );
    assert_eq!(r, vec![Ok(ItemEffect::Dropped { item })]);
    let f = w.facts(item);
    assert!(!f.stashed && f.rigid_body && f.has_collider && f.has_gravity);
    assert_eq!(f.placement, Placement::DropPoint(0));
    // A drop takes the item out of its parent's container; the first drop
    // already left it without a parent, so the hand's container keeps it.
    assert!(w.hand_contains(hand, item));
}

/// Within one pass the effects on an item follow one another: a pickup and
/// then a store leave it stashed, unparented and hidden in the container.
#[test]
fn one_pass_effects_compose() {
    let mut w = World::new();
    let (actor, hand) = w.spawn_actor([0.0, 0.0, 0.0]);
    let item = w.spawn_item([1.0, 0.0, 0.0]);
    let ext = w.spawn_container([1.0, 0.0, 0.0], vec![None]);
    w.update();
    let out = w.containers.handle_item_interaction(
        &mut w.scene,
        &vec![(ItemPickupRequest { actor, item }, Reach::Within)],
        &vec![],
        &vec![(
            ItemStoreRequest {
                actor,
                item,
                container: ext,
            },
            Reach::Within,
        )],
        &vec![],
    );
    assert_eq!(out.pickups, vec![Ok(hand)]);
    assert_eq!(out.stores, vec![Ok(hand)]);
    let f = w.facts(item);
    assert!(f.stashed && !f.rigid_body);
    assert_eq!(f.parent, None);
    assert!(f.hidden);
    assert!(w.containers.by_entity[&ext.0].contains(item));
}

/// World setup puts a can away in the toolbox: slot 0 holds it, its physics
/// is stashed and it is hidden, its rigid body is gone, and it keeps its
/// collider and gravity scale.
#[test]
fn test_toolbox_preloaded_with_stashed_can() {
    let mut w = World::new();
    let can = w.spawn_item([0.0, 0.0, 0.0]);
    let toolbox = w.spawn_container([0.0, 0.0, 0.0], vec![None; 6]);
    w.containers.preload_stashed(&mut w.scene, toolbox, can);
    assert_eq!(
        w.containers.by_entity[&toolbox.0].slots[0],
        Some(can),
        "toolbox slot 0 should be the stashed can"
    );
    let f = w.facts(can);
    assert!(f.stashed, "stashed can must have StashedPhysics");
    assert!(f.hidden, "stashed can must have Visibility::Hidden");
    assert!(!f.rigid_body);
    assert!(f.has_collider && f.has_gravity);
}

/// A refused request in a batch leaves every container and the refused
/// item's components as the requests before it left them.
#[test]
fn refused_request_in_batch_changes_nothing() {
    let mut w = World::new();
    let (actor, hand) = w.spawn_actor([0.0, 0.0, 0.0]);
    let a = w.spawn_item([1.0, 0.0, 0.0]);
    let b = w.spawn_item([1.0, 0.0, 0.0]);
    let ext = w.spawn_container([1.0, 0.0, 0.0], vec![None]);
    w.update();
    let b_before = w.facts(b);
    let out = w.containers.handle_item_interaction(
        &mut w.scene,
        &vec![
            (ItemPickupRequest { actor, item: a }, Reach::Within),
            (ItemPickupRequest { actor, item: b }, Reach::Within),
        ],
        &vec![(ItemDropRequest { actor, item: b }, Reach::Within)],
        &vec![],
        &vec![(
            ItemTakeRequest {
                actor,
                item: b,
                container: ext,
            },
            Reach::Within,
        )],
    );
    assert_eq!(out.pickups[1], Err(PickupRejection::NoFreeHand));
    assert_eq!(out.drops, vec![Err(DropRejection::NotHeld)]);
    assert_eq!(out.takes, vec![Err(TakeRejection::NotInContainer)]);
    assert_eq!(w.facts(b), b_before);
    assert_eq!(w.containers.by_entity[&hand.0].slots, vec![Some(a)]);
    assert_eq!(w.containers.by_entity[&ext.0].slots, vec![None]);
    assert_eq!(w.containers.by_entity.len(), 2);
}
