use std::collections::{HashMap, HashSet};

use geostationary::interactions::{
    build_context_menu, default_interaction, dismiss_menu, dispatch_interaction,
    handle_menu_selection, held_item, menu_hit_index, resolve_actor, ContextMenuAction,
    DispatchSkip, Dispatched, HitContainer, HitFacts, InteractionRequest, MenuEntry,
};
use geostationary::items::{
    Container, Containers, EntityId, ItemDropRequest, ItemPickupRequest, ItemScene,
    ItemStoreRequest, ItemTakeRequest,
};
use geostationary::network::{ClientId, NetId};
use geostationary::things::NetIdIndex;
use geostationary::tiles::{IVec2, TileGrid, TileKind, TileMutated};

fn labels(entries: &[MenuEntry]) -> Vec<String> {
    entries.iter().map(|e| e.label.clone()).collect()
}

fn wall_map() -> TileGrid<TileKind> {
    let mut tilemap = TileGrid::<TileKind>::new_fill(3, 3, TileKind::Floor);
    tilemap.set(IVec2::new(1, 1), TileKind::Wall);
    tilemap
}

fn tile_hit(x: i32, y: i32) -> HitFacts {
    HitFacts {
        item: None,
        container: None,
        tile: Some(IVec2::new(x, y)),
    }
}

/// A right click on a wall tile opens a menu.
#[test]
fn build_context_menu_inserts_active_menu_for_wall() {
    let tilemap = wall_map();
    let hit = tile_hit(1, 1);
    let clicks = vec![true];
    assert_eq!(menu_hit_index(&clicks), Some(0));
    let entries = build_context_menu(&hit, &HashMap::new(), None, false, Some(&tilemap));
    assert!(
        !entries.is_empty(),
        "a menu should open after a right click on a wall"
    );
    assert_eq!(labels(&entries), vec!["Remove Wall".to_string()]);
    assert_eq!(
        entries[0].action,
        ContextMenuAction::TileToggle {
            position: IVec2::new(1, 1),
            kind: TileKind::Floor
        }
    );
}

/// No menu opens when the hit entity is not a tile, item, or container.
#[test]
fn build_context_menu_ignores_non_tile_entity() {
    let tilemap = wall_map();
    let hit = HitFacts {
        item: None,
        container: None,
        tile: None,
    };
    let entries = build_context_menu(&hit, &HashMap::new(), None, false, Some(&tilemap));
    assert!(
        entries.is_empty(),
        "no menu for a non-tile, non-item, non-container hit"
    );
}

/// Left-click hits do not open the menu.
#[test]
fn build_context_menu_ignores_left_click_hit() {
    let clicks = vec![false];
    assert_eq!(
        menu_hit_index(&clicks),
        None,
        "no menu for a left-click hit"
    );
}

/// Escape dismisses the open menu.
#[test]
fn dismiss_context_menu_on_escape() {
    assert!(dismiss_menu(true, false), "menu should close on Escape");
    assert!(dismiss_menu(false, true));
    assert!(!dismiss_menu(false, false));
}

/// A pressed menu action becomes a request.
#[test]
fn handle_menu_selection_fires_interaction_request() {
    let reqs = handle_menu_selection(&vec![ContextMenuAction::TileToggle {
        position: IVec2::new(2, 3),
        kind: TileKind::Floor,
    }]);
    assert_eq!(reqs.len(), 1);
    match reqs[0] {
        InteractionRequest::TileToggle { position, kind } => {
            assert_eq!(position, [2, 3]);
            assert_eq!(kind, TileKind::Floor);
        }
        ref other => panic!("expected TileToggle, got {:?}", other),
    }
}

/// A tile toggle changes the tilemap and raises a mutation.
#[test]
fn dispatch_interaction_handles_tile_toggle() {
    let mut tilemap = Some(wall_map());
    let from = ClientId(42);
    let out = dispatch_interaction(
        &mut tilemap,
        None,
        &vec![],
        &vec![(
            from,
            InteractionRequest::TileToggle {
                position: [1, 1],
                kind: TileKind::Floor,
            },
        )],
    );

    let tm = tilemap.as_ref().unwrap();
    assert_eq!(
        tm.get_copy(IVec2::new(1, 1)),
        Some(TileKind::Floor),
        "Tilemap should be mutated to Floor after TileToggle"
    );
    let mutations: Vec<TileMutated> = out
        .iter()
        .filter_map(|o| match o {
            Ok(Dispatched::TileChanged(m)) => Some(*m),
            _ => None,
        })
        .collect();
    assert_eq!(mutations.len(), 1, "Expected one TileMutated event");
    assert_eq!(mutations[0].position, IVec2::new(1, 1));
    assert_eq!(mutations[0].kind, TileKind::Floor);
}

/// A toggle to the kind a tile already has changes nothing.
#[test]
fn dispatch_interaction_rejects_no_op_tile_toggle() {
    let mut tilemap = Some(TileGrid::<TileKind>::new_fill(3, 3, TileKind::Floor));
    let out = dispatch_interaction(
        &mut tilemap,
        None,
        &vec![],
        &vec![(
            ClientId(1),
            InteractionRequest::TileToggle {
                position: [1, 1],
                kind: TileKind::Floor,
            },
        )],
    );
    let tm = tilemap.as_ref().unwrap();
    assert_eq!(tm.get_copy(IVec2::new(1, 1)), Some(TileKind::Floor));
    assert_eq!(out, vec![Err(DispatchSkip::Unchanged)]);
    let mutation_count = out
        .iter()
        .filter(|o| matches!(o, Ok(Dispatched::TileChanged(_))))
        .count();
    assert_eq!(mutation_count, 0, "No mutation event expected for no-op toggle");
}

/// The actor of a client is found, and an unknown client has none.
#[test]
fn resolve_actor_finds_matching_entity_and_returns_none_for_unknown() {
    let client_a = ClientId(10);
    let unknown = ClientId(99);
    let entity_a = EntityId(1);
    let actors = vec![(entity_a, client_a), (EntityId(2), ClientId(20))];
    assert_eq!(
        resolve_actor(&actors, client_a),
        Some(entity_a),
        "Should find entity for client_a"
    );
    assert!(
        resolve_actor(&actors, unknown).is_none(),
        "Should return None for unknown client"
    );
}

/// A left click on an item sends a pickup request.
#[test]
fn default_interaction_left_click_item_sends_pickup() {
    let net_id = NetId(42);
    let req = default_interaction(true, Some(net_id));
    match req {
        Some(InteractionRequest::ItemPickup { item }) => assert_eq!(item, net_id),
        other => panic!("Expected ItemPickup, got {:?}", other),
    }
}

/// A left click on something that is not an item sends nothing.
#[test]
fn default_interaction_left_click_non_item_does_nothing() {
    assert!(
        default_interaction(true, None).is_none(),
        "No InteractionRequest expected for non-Item hit"
    );
    assert!(default_interaction(false, Some(NetId(1))).is_none());
}

/// A right click on an item opens a menu with "Pick up".
#[test]
fn context_menu_item_on_floor_shows_pick_up() {
    let net_id = NetId(7);
    let hit = HitFacts {
        item: Some(Some(net_id)),
        container: None,
        tile: None,
    };
    let entries = build_context_menu(&hit, &HashMap::new(), None, true, None);
    assert!(!entries.is_empty(), "Menu should open for an Item entity");
    assert_eq!(labels(&entries), vec!["Pick up".to_string()]);
    assert_eq!(
        entries[0].action,
        ContextMenuAction::ItemPickup { item: net_id }
    );
}

/// A player, its hand holding one item, as the context menu sees them.
fn player_holding(item: Option<(EntityId, NetId)>) -> (ItemScene, Containers, HashMap<u64, NetId>, EntityId) {
    let player = EntityId(1);
    let hand = EntityId(2);
    let mut scene = ItemScene {
        items: HashMap::new(),
        hand_slots: HashSet::new(),
        children: HashMap::new(),
    };
    scene.hand_slots.insert(hand.0);
    scene.children.insert(player.0, vec![hand]);
    let mut c = Container::with_capacity(1);
    let mut ids = HashMap::new();
    if let Some((e, n)) = item {
        c.insert(e);
        ids.insert(e.0, n);
    }
    let mut containers = Containers {
        by_entity: HashMap::new(),
    };
    containers.by_entity.insert(hand.0, c);
    (scene, containers, ids, player)
}

/// A right click on a floor tile while holding an item shows "Drop" and
/// "Build Wall".
#[test]
fn context_menu_floor_while_holding_item_shows_drop_and_build_wall() {
    let item_net_id = NetId(99);
    let (scene, containers, ids, player) = player_holding(Some((EntityId(10), item_net_id)));
    let holding = held_item(&scene, &containers, &ids, player);
    assert_eq!(holding, Some(item_net_id));

    let tilemap = TileGrid::<TileKind>::new_fill(5, 5, TileKind::Floor);
    let entries = build_context_menu(&tile_hit(1, 0), &ids, holding, true, Some(&tilemap));
    assert!(
        !entries.is_empty(),
        "Menu should open for a floor tile while holding item"
    );
    assert_eq!(
        entries.len(),
        2,
        "Expected two buttons (Drop + Build Wall) in the context menu"
    );
    assert_eq!(
        labels(&entries),
        vec!["Drop".to_string(), "Build Wall".to_string()]
    );
    assert_eq!(
        entries[0].action,
        ContextMenuAction::ItemDrop { item: item_net_id }
    );
}

/// A right click on a container while holding an item shows "Store in ...".
#[test]
fn context_menu_container_while_holding_item_shows_store() {
    let item_net_id = NetId(55);
    let (scene, containers, ids, player) = player_holding(Some((EntityId(10), item_net_id)));
    let holding = held_item(&scene, &containers, &ids, player);

    let container_net_id = NetId(10);
    let hit = HitFacts {
        item: None,
        container: Some(HitContainer {
            net_id: container_net_id,
            name: Some("Crate".to_string()),
            container: Container::with_capacity(4),
        }),
        tile: None,
    };
    let entries = build_context_menu(&hit, &ids, holding, true, None);
    assert!(
        !entries.is_empty(),
        "Menu should open when right-clicking a container while holding item"
    );
    assert_eq!(labels(&entries), vec!["Store in Crate".to_string()]);
    assert_eq!(
        entries[0].action,
        ContextMenuAction::StoreInContainer {
            item: item_net_id,
            container: container_net_id
        }
    );
}

/// A right click on a non-empty container with empty hands shows
/// "Take from ...".
#[test]
fn context_menu_container_hand_empty_shows_take() {
    let (scene, containers, mut ids, player) = player_holding(None);
    let holding = held_item(&scene, &containers, &ids, player);
    assert_eq!(holding, None);

    let item_net_id = NetId(33);
    let item_entity = EntityId(30);
    ids.insert(item_entity.0, item_net_id);
    let container_net_id = NetId(20);
    let mut world_container = Container::with_capacity(4);
    world_container.insert(item_entity);
    let hit = HitFacts {
        item: None,
        container: Some(HitContainer {
            net_id: container_net_id,
            name: Some("Locker".to_string()),
            container: world_container,
        }),
        tile: None,
    };
    let entries = build_context_menu(&hit, &ids, holding, true, None);
    assert!(
        !entries.is_empty(),
        "Menu should open when right-clicking a non-empty container with empty hands"
    );
    assert_eq!(labels(&entries), vec!["Take from Locker".to_string()]);
    assert_eq!(
        entries[0].action,
        ContextMenuAction::TakeFromContainer {
            item: item_net_id,
            container: container_net_id
        }
    );
}

// ── Further checks of the library's own ──────────────────────────────────────

#[test]
fn context_menu_out_of_reach_and_unnamed_container() {
    // Out of reach, an item offers nothing.
    let hit = HitFacts {
        item: Some(Some(NetId(1))),
        container: None,
        tile: None,
    };
    assert!(build_context_menu(&hit, &HashMap::new(), None, false, None).is_empty());
    // A floor out of reach still offers "Build Wall", not "Drop".
    let tilemap = TileGrid::<TileKind>::new_fill(2, 2, TileKind::Floor);
    let entries = build_context_menu(&tile_hit(0, 0), &HashMap::new(), Some(NetId(4)), false, Some(&tilemap));
    assert_eq!(labels(&entries), vec!["Build Wall".to_string()]);
    // A container without a name is called "container".
    let hit = HitFacts {
        item: None,
        container: Some(HitContainer {
            net_id: NetId(3),
            name: None,
            container: Container::with_capacity(1),
        }),
        tile: None,
    };
    let entries = build_context_menu(&hit, &HashMap::new(), Some(NetId(4)), true, None);
    assert_eq!(labels(&entries), vec!["Store in container".to_string()]);
    // A tile off the map offers nothing.
    assert!(build_context_menu(&tile_hit(9, 9), &HashMap::new(), None, true, Some(&tilemap)).is_empty());
}

#[test]
fn dispatch_item_requests_resolve_ids_and_actor() {
    let mut index = NetIdIndex(HashMap::new());
    index.insert(NetId(1), EntityId(11));
    index.insert(NetId(2), EntityId(12));
    let actors = vec![(EntityId(50), ClientId(7))];
    let mut tilemap: Option<TileGrid<TileKind>> = None;
    let reqs = vec![
        (ClientId(7), InteractionRequest::ItemPickup { item: NetId(1) }),
        (ClientId(7), InteractionRequest::ItemDrop { item: NetId(1) }),
        (
            ClientId(7),
            InteractionRequest::StoreInContainer {
                item: NetId(1),
                container: NetId(2),
            },
        ),
        (
            ClientId(7),
            InteractionRequest::TakeFromContainer {
                item: NetId(1),
                container: NetId(9),
            },
        ),
        (ClientId(8), InteractionRequest::ItemPickup { item: NetId(1) }),
        (ClientId(7), InteractionRequest::ItemPickup { item: NetId(5) }),
        (
            ClientId(7),
            InteractionRequest::TileToggle {
                position: [0, 0],
                kind: TileKind::Wall,
            },
        ),
    ];
    let out = dispatch_interaction(&mut tilemap, Some(&index), &actors, &reqs);
    let actor = EntityId(50);
    assert_eq!(
        out,
        vec![
            Ok(Dispatched::Pickup(ItemPickupRequest {
                actor,
                item: EntityId(11)
            })),
            Ok(Dispatched::Drop(ItemDropRequest {
                actor,
                item: EntityId(11)
            })),
            Ok(Dispatched::Store(ItemStoreRequest {
                actor,
                item: EntityId(11),
                container: EntityId(12)
            })),
            Err(DispatchSkip::UnknownContainer),
            Err(DispatchSkip::NoActor),
            Err(DispatchSkip::UnknownItem),
            Err(DispatchSkip::NoTilemap),
        ]
    );
    let none = dispatch_interaction(
        &mut tilemap,
        None,
        &actors,
        &vec![(ClientId(7), InteractionRequest::ItemPickup { item: NetId(1) })],
    );
    assert_eq!(none, vec![Err(DispatchSkip::NoIndex)]);
    let _unused = ItemTakeRequest {
        actor,
        item: EntityId(11),
        container: EntityId(12),
    };
}

#[test]
fn dispatch_out_of_bounds_toggle_is_refused() {
    let mut tilemap = Some(TileGrid::<TileKind>::new_fill(2, 2, TileKind::Floor));
    let out = dispatch_interaction(
        &mut tilemap,
        None,
        &vec![],
        &vec![(
            ClientId(1),
            InteractionRequest::TileToggle {
                position: [5, 0],
                kind: TileKind::Wall,
            },
        )],
    );
    assert_eq!(out, vec![Err(DispatchSkip::OutOfBounds)]);
}

#[test]
fn last_right_click_wins() {
    assert_eq!(menu_hit_index(&vec![true, false, true, false]), Some(2));
    assert_eq!(menu_hit_index(&vec![]), None);
}
