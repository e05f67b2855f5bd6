//! Player interactions: the requests a client sends on the interactions
//! stream, how the server turns them into tile changes and item requests,
//! and which actions a right-click context menu offers.
use vstd::prelude::*;

use std::collections::HashMap;

use crate::items::{
    Container, Containers, EntityId, ItemDropRequest, ItemPickupRequest, ItemScene,
    ItemStoreRequest, ItemTakeRequest,
};
use crate::network::{ClientId, NetId};
use crate::things::NetIdIndex;
use crate::tiles::{GridView, IVec2, TileGrid, TileKind, TileMutated, lemma_set_then_get, map_view};

verus! {

broadcast use vstd::std_specs::hash::group_hash_axioms;

/// Stream tag of the client-to-server interactions stream.
pub const INTERACTIONS_STREAM_TAG: u8 = 4;

/// A player-initiated request, as sent from client to server.  The landing
/// position of a drop travels beside it.
#[derive(Debug, Clone, Copy, PartialEq, Eq)]
pub enum InteractionRequest {
    /// Change the tile at `position` (column, row) to `kind`.
    TileToggle { position: [i32; 2], kind: TileKind },
    ItemPickup { item: NetId },
    ItemDrop { item: NetId },
    StoreInContainer { item: NetId, container: NetId },
    TakeFromContainer { item: NetId, container: NetId },
}

/// What a context-menu button does when pressed.  The landing position of a
/// drop travels beside it.
#[derive(Debug, Clone, Copy, PartialEq, Eq, Structural)]
pub enum ContextMenuAction {
    TileToggle { position: IVec2, kind: TileKind },
    ItemPickup { item: NetId },
    ItemDrop { item: NetId },
    StoreInContainer { item: NetId, container: NetId },
    TakeFromContainer { item: NetId, container: NetId },
}

/// The request a pressed menu button sends.
pub open spec fn request_of_action(a: ContextMenuAction) -> InteractionRequest {
    match a {
        ContextMenuAction::TileToggle { position, kind } => InteractionRequest::TileToggle {
            position: [position.x, position.y],
            kind,
        },
        ContextMenuAction::ItemPickup { item } => InteractionRequest::ItemPickup { item },
        ContextMenuAction::ItemDrop { item } => InteractionRequest::ItemDrop { item },
        ContextMenuAction::StoreInContainer { item, container } =>
            InteractionRequest::StoreInContainer { item, container },
        ContextMenuAction::TakeFromContainer { item, container } =>
            InteractionRequest::TakeFromContainer { item, container },
    }
}

/// Turns pressed menu buttons into the requests to send, one for each.
pub fn handle_menu_selection(actions: &Vec<ContextMenuAction>) -> (r: Vec<InteractionRequest>)
    ensures
        r@ == actions@.map_values(|a: ContextMenuAction| request_of_action(a)),
{
    let mut out: Vec<InteractionRequest> = Vec::new();
    let mut i: usize = 0;
    while i < actions.len()
        invariant
            i <= actions.len(),
            out@ == actions@.take(i as int).map_values(|a: ContextMenuAction| request_of_action(a)),
        decreases actions.len() - i,
    {
        let req = match actions[i] {
            ContextMenuAction::TileToggle { position, kind } => InteractionRequest::TileToggle {
                position: [position.x, position.y],
                kind,
            },
            ContextMenuAction::ItemPickup { item } => InteractionRequest::ItemPickup { item },
            ContextMenuAction::ItemDrop { item } => InteractionRequest::ItemDrop { item },
            ContextMenuAction::StoreInContainer { item, container } =>
                InteractionRequest::StoreInContainer { item, container },
            ContextMenuAction::TakeFromContainer { item, container } =>
                InteractionRequest::TakeFromContainer { item, container },
        };
        out.push(req);
        proof {
            assert(actions@.take(i as int + 1) =~= actions@.take(i as int).push(actions@[i as int]));
            assert(req == request_of_action(actions@[i as int]));
        }
        i = i + 1;
    }
    assert(actions@.take(i as int) =~= actions@);
    out
}

/// A left click on an entity: a pickup request when it is an item with a
/// network id, nothing otherwise.
pub fn default_interaction(left_button: bool, item_net_id: Option<NetId>) -> (r: Option<
    InteractionRequest,
>)
    ensures
        r == if left_button && item_net_id is Some {
            Some(InteractionRequest::ItemPickup { item: item_net_id->0 })
        } else {
            None::<InteractionRequest>
        },
{
    if !left_button {
        return None;
    }
    match item_net_id {
        Some(item) => Some(InteractionRequest::ItemPickup { item }),
        None => None,
    }
}

/// The first actor in `actors` controlled by `client`.
pub open spec fn actor_of(actors: Seq<(EntityId, ClientId)>, client: ClientId) -> Option<EntityId>
    decreases actors.len(),
{
    if actors.len() == 0 {
        None
    } else if actors[0].1 == client {
        Some(actors[0].0)
    } else {
        actor_of(actors.drop_first(), client)
    }
}

/// The entity controlled by `client`: the first of `actors` (entity and
/// controlling client, in query order) that it controls.
pub fn resolve_actor(actors: &Vec<(EntityId, ClientId)>, client: ClientId) -> (r: Option<EntityId>)
    ensures
        r == actor_of(actors@, client),
{
    let ghost all = actors@;
    assert(all.subrange(0, all.len() as int) =~= all);
    let mut i: usize = 0;
    while i < actors.len()
        invariant
            all == actors@,
            i <= actors.len(),
            actor_of(all, client) == actor_of(all.subrange(i as int, all.len() as int), client),
        decreases actors.len() - i,
    {
        proof {
            let t = all.subrange(i as int, all.len() as int);
            assert(t.drop_first() =~= all.subrange(i as int + 1, all.len() as int));
        }
        let (e, c) = actors[i];
        if c == client {
            return Some(e);
        }
        i = i + 1;
    }
    None
}

/// What the server does with one request.
#[derive(Debug, Clone, Copy, PartialEq, Eq, Structural)]
pub enum Dispatched {
    /// The tilemap changed; broadcast it and apply it locally.
    TileChanged(TileMutated),
    Pickup(ItemPickupRequest),
    Drop(ItemDropRequest),
    Store(ItemStoreRequest),
    Take(ItemTakeRequest),
}

/// Why the server ignores one request.
#[derive(Debug, Clone, Copy, PartialEq, Eq, Structural)]
pub enum DispatchSkip {
    NoTilemap,
    OutOfBounds,
    Unchanged,
    NoIndex,
    UnknownItem,
    UnknownContainer,
    NoActor,
}

/// The tile at `pos` of `map`, if there is a map and `pos` lies on it.
pub open spec fn tile_at(map: Option<GridView<TileKind>>, pos: IVec2) -> Option<TileKind> {
    match map {
        Some(g) => g.cell(pos.x as int, pos.y as int),
        None => None,
    }
}

/// The tilemap after `pos` became `kind`.
pub open spec fn with_tile(g: GridView<TileKind>, pos: IVec2, kind: TileKind) -> GridView<TileKind> {
    GridView { cells: g.cells.update(pos.y * g.width + pos.x, kind), ..g }
}

/// What the server makes of one request from `from`.
pub open spec fn dispatch_outcome(
    map: Option<GridView<TileKind>>,
    index: Option<Map<u64, EntityId>>,
    actors: Seq<(EntityId, ClientId)>,
    from: ClientId,
    req: InteractionRequest,
) -> Result<Dispatched, DispatchSkip> {
    match req {
        InteractionRequest::TileToggle { position, kind } => {
            let pos = IVec2 { x: position[0], y: position[1] };
            if map is None {
                Err(DispatchSkip::NoTilemap)
            } else if tile_at(map, pos) is None {
                Err(DispatchSkip::OutOfBounds)
            } else if tile_at(map, pos) == Some(kind) {
                Err(DispatchSkip::Unchanged)
            } else {
                Ok(Dispatched::TileChanged(TileMutated { position: pos, kind }))
            }
        },
        InteractionRequest::ItemPickup { item } => match index {
            None => Err(DispatchSkip::NoIndex),
            Some(idx) => if !idx.contains_key(item.0) {
                Err(DispatchSkip::UnknownItem)
            } else {
                match actor_of(actors, from) {
                    None => Err(DispatchSkip::NoActor),
                    Some(actor) => Ok(
                        Dispatched::Pickup(ItemPickupRequest { actor, item: idx[item.0] }),
                    ),
                }
            },
        },
        InteractionRequest::ItemDrop { item } => match index {
            None => Err(DispatchSkip::NoIndex),
            Some(idx) => if !idx.contains_key(item.0) {
                Err(DispatchSkip::UnknownItem)
            } else {
                match actor_of(actors, from) {
                    None => Err(DispatchSkip::NoActor),
                    Some(actor) => Ok(
                        Dispatched::Drop(ItemDropRequest { actor, item: idx[item.0] }),
                    ),
                }
            },
        },
        InteractionRequest::StoreInContainer { item, container } => match index {
            None => Err(DispatchSkip::NoIndex),
            Some(idx) => if !idx.contains_key(item.0) {
                Err(DispatchSkip::UnknownItem)
            } else if !idx.contains_key(container.0) {
                Err(DispatchSkip::UnknownContainer)
            } else {
                match actor_of(actors, from) {
                    None => Err(DispatchSkip::NoActor),
                    Some(actor) => Ok(
                        Dispatched::Store(
                            ItemStoreRequest {
                                actor,
                                item: idx[item.0],
                                container: idx[container.0],
                            },
                        ),
                    ),
                }
            },
        },
        InteractionRequest::TakeFromContainer { item, container } => match index {
            None => Err(DispatchSkip::NoIndex),
            Some(idx) => if !idx.contains_key(item.0) {
                Err(DispatchSkip::UnknownItem)
            } else if !idx.contains_key(container.0) {
                Err(DispatchSkip::UnknownContainer)
            } else {
                match actor_of(actors, from) {
                    None => Err(DispatchSkip::NoActor),
                    Some(actor) => Ok(
                        Dispatched::Take(
                            ItemTakeRequest {
                                actor,
                                item: idx[item.0],
                                container: idx[container.0],
                            },
                        ),
                    ),
                }
            },
        },
    }
}

/// The tilemap after a request with outcome `o`.
pub open spec fn map_after(map: Option<GridView<TileKind>>, o: Result<Dispatched, DispatchSkip>) -> Option<
    GridView<TileKind>,
> {
    match (map, o) {
        (Some(g), Ok(Dispatched::TileChanged(m))) => Some(with_tile(g, m.position, m.kind)),
        _ => map,
    }
}

/// Requests handled one after another from the tilemap `map`.
pub open spec fn run_dispatch(
    map: Option<GridView<TileKind>>,
    index: Option<Map<u64, EntityId>>,
    actors: Seq<(EntityId, ClientId)>,
    reqs: Seq<(ClientId, InteractionRequest)>,
) -> (Option<GridView<TileKind>>, Seq<Result<Dispatched, DispatchSkip>>)
    decreases reqs.len(),
{
    if reqs.len() == 0 {
        (map, Seq::empty())
    } else {
        let prev = run_dispatch(map, index, actors, reqs.drop_last());
        let o = dispatch_outcome(prev.0, index, actors, reqs.last().0, reqs.last().1);
        (map_after(prev.0, o), prev.1.push(o))
    }
}

/// The entries of an optional index.
pub open spec fn index_view(index: Option<&NetIdIndex>) -> Option<Map<u64, EntityId>> {
    match index {
        Some(i) => Some(i.entries()),
        None => None,
    }
}

/// Handles one request from `from` on the server: a valid tile toggle is
/// applied to the tilemap, and an item request whose ids resolve becomes the
/// item request for the actor that `from` controls.
pub fn dispatch_one(
    tilemap: &mut Option<TileGrid<TileKind>>,
    index: Option<&NetIdIndex>,
    actors: &Vec<(EntityId, ClientId)>,
    from: ClientId,
    req: InteractionRequest,
) -> (r: Result<Dispatched, DispatchSkip>)
    ensures
        r == dispatch_outcome(map_view(*old(tilemap)), index_view(index), actors@, from, req),
        map_view(*final(tilemap)) == map_after(map_view(*old(tilemap)), r),
{
    match req {
        InteractionRequest::TileToggle { position, kind } => {
            let pos = IVec2 { x: position[0], y: position[1] };
            match tilemap {
                Some(tm) => {
                    let current = match tm.get_copy(pos) {
                        Some(k) => k,
                        None => {
                            return Err(DispatchSkip::OutOfBounds);
                        },
                    };
                    if current == kind {
                        return Err(DispatchSkip::Unchanged);
                    }
                    tm.set(pos, kind);
                    Ok(Dispatched::TileChanged(TileMutated { position: pos, kind }))
                },
                None => Err(DispatchSkip::NoTilemap),
            }
        },
        InteractionRequest::ItemPickup { item } => {
            let idx = match index {
                Some(i) => i,
                None => {
                    return Err(DispatchSkip::NoIndex);
                },
            };
            let item_e = match idx.get(item) {
                Some(e) => e,
                None => {
                    return Err(DispatchSkip::UnknownItem);
                },
            };
            match resolve_actor(actors, from) {
                Some(actor) => Ok(Dispatched::Pickup(ItemPickupRequest { actor, item: item_e })),
                None => Err(DispatchSkip::NoActor),
            }
        },
        InteractionRequest::ItemDrop { item } => {
            let idx = match index {
                Some(i) => i,
                None => {
                    return Err(DispatchSkip::NoIndex);
                },
            };
            let item_e = match idx.get(item) {
                Some(e) => e,
                None => {
                    return Err(DispatchSkip::UnknownItem);
                },
            };
            match resolve_actor(actors, from) {
                Some(actor) => Ok(Dispatched::Drop(ItemDropRequest { actor, item: item_e })),
                None => Err(DispatchSkip::NoActor),
            }
        },
        InteractionRequest::StoreInContainer { item, container } => {
            let idx = match index {
                Some(i) => i,
                None => {
                    return Err(DispatchSkip::NoIndex);
                },
            };
            let item_e = match idx.get(item) {
                Some(e) => e,
                None => {
                    return Err(DispatchSkip::UnknownItem);
                },
            };
            let container_e = match idx.get(container) {
                Some(e) => e,
                None => {
                    return Err(DispatchSkip::UnknownContainer);
                },
            };
            match resolve_actor(actors, from) {
                Some(actor) => Ok(
                    Dispatched::Store(
                        ItemStoreRequest { actor, item: item_e, container: container_e },
                    ),
                ),
                None => Err(DispatchSkip::NoActor),
            }
        },
        InteractionRequest::TakeFromContainer { item, container } => {
            let idx = match index {
                Some(i) => i,
                None => {
                    return Err(DispatchSkip::NoIndex);
                },
            };
            let item_e = match idx.get(item) {
                Some(e) => e,
                None => {
                    return Err(DispatchSkip::UnknownItem);
                },
            };
            let container_e = match idx.get(container) {
                Some(e) => e,
                None => {
                    return Err(DispatchSkip::UnknownContainer);
                },
            };
            match resolve_actor(actors, from) {
                Some(actor) => Ok(
                    Dispatched::Take(
                        ItemTakeRequest { actor, item: item_e, container: container_e },
                    ),
                ),
                None => Err(DispatchSkip::NoActor),
            }
        },
    }
}

/// Handles every request drained from the interactions stream, in order.
pub fn dispatch_interaction(
    tilemap: &mut Option<TileGrid<TileKind>>,
    index: Option<&NetIdIndex>,
    actors: &Vec<(EntityId, ClientId)>,
    reqs: &Vec<(ClientId, InteractionRequest)>,
) -> (r: Vec<Result<Dispatched, DispatchSkip>>)
    ensures
        (map_view(*final(tilemap)), r@) == run_dispatch(
            map_view(*old(tilemap)),
            index_view(index),
            actors@,
            reqs@,
        ),
{
    let ghost start = map_view(*tilemap);
    let mut out: Vec<Result<Dispatched, DispatchSkip>> = Vec::new();
    let mut i: usize = 0;
    while i < reqs.len()
        invariant
            i <= reqs.len(),
            (map_view(*tilemap), out@) == run_dispatch(
                start,
                index_view(index),
                actors@,
                reqs@.take(i as int),
            ),
        decreases reqs.len() - i,
    {
        let (from, req) = reqs[i];
        let o = dispatch_one(tilemap, index, actors, from, req);
        out.push(o);
        proof {
            let t = reqs@.take(i as int + 1);
            assert(t.drop_last() =~= reqs@.take(i as int));
            assert(t.last() == reqs@[i as int]);
        }
        i = i + 1;
    }
    assert(reqs@.take(i as int) =~= reqs@);
    out
}

/// The entity in the first occupied slot.
pub open spec fn first_occupied(s: Seq<Option<EntityId>>) -> Option<EntityId>
    decreases s.len(),
{
    if s.len() == 0 {
        None
    } else if s[0] is Some {
        s[0]
    } else {
        first_occupied(s.drop_first())
    }
}

/// The network id of the first slot entity that has one.
pub open spec fn first_with_net_id(s: Seq<Option<EntityId>>, ids: Map<u64, NetId>) -> Option<NetId>
    decreases s.len(),
{
    if s.len() == 0 {
        None
    } else {
        match s[0] {
            Some(e) => if ids.contains_key(e.0) {
                Some(ids[e.0])
            } else {
                first_with_net_id(s.drop_first(), ids)
            },
            None => first_with_net_id(s.drop_first(), ids),
        }
    }
}

/// The item held in the first hand of `cs` that holds one with a network
/// id.
pub open spec fn held_in(
    cs: Seq<EntityId>,
    hands: Set<u64>,
    slots: Map<u64, Seq<Option<EntityId>>>,
    ids: Map<u64, NetId>,
) -> Option<NetId>
    decreases cs.len(),
{
    if cs.len() == 0 {
        None
    } else if hands.contains(cs[0].0) && slots.contains_key(cs[0].0) && first_with_net_id(
        slots[cs[0].0],
        ids,
    ) is Some {
        first_with_net_id(slots[cs[0].0], ids)
    } else {
        held_in(cs.drop_first(), hands, slots, ids)
    }
}

/// The entity in the first occupied slot of `c`.
pub fn first_stored_item(c: &Container) -> (r: Option<EntityId>)
    ensures
        r == first_occupied(c@),
{
    let ghost all = c@;
    assert(all.subrange(0, all.len() as int) =~= all);
    let mut i: usize = 0;
    while i < c.slots.len()
        invariant
            all == c@,
            i <= all.len(),
            first_occupied(all) == first_occupied(all.subrange(i as int, all.len() as int)),
        decreases all.len() - i,
    {
        proof {
            let t = all.subrange(i as int, all.len() as int);
            assert(t.drop_first() =~= all.subrange(i as int + 1, all.len() as int));
        }
        if c.slots[i].is_some() {
            return c.slots[i];
        }
        i = i + 1;
    }
    None
}

/// The network id of the first entity in `c` that has one.
fn first_net_id_in(c: &Container, ids: &HashMap<u64, NetId>) -> (r: Option<NetId>)
    ensures
        r == first_with_net_id(c@, ids@),
{
    let ghost all = c@;
    assert(all.subrange(0, all.len() as int) =~= all);
    let mut i: usize = 0;
    while i < c.slots.len()
        invariant
            all == c@,
            i <= all.len(),
            first_with_net_id(all, ids@) == first_with_net_id(
                all.subrange(i as int, all.len() as int),
                ids@,
            ),
        decreases all.len() - i,
    {
        proof {
            let t = all.subrange(i as int, all.len() as int);
            assert(t.drop_first() =~= all.subrange(i as int + 1, all.len() as int));
        }
        match c.slots[i] {
            Some(e) => match ids.get(&e.0) {
                Some(n) => {
                    return Some(*n);
                },
                None => {},
            },
            None => {},
        }
        i = i + 1;
    }
    None
}

/// The network id of the first item held in a hand of `player`, or `None`
/// when the hands hold no item with a network id.
pub fn held_item(
    scene: &ItemScene,
    containers: &Containers,
    ids: &HashMap<u64, NetId>,
    player: EntityId,
) -> (r: Option<NetId>)
    ensures
        r == held_in(scene.children_of(player), scene.hand_slots@, containers.slots(), ids@),
{
    let cs = match scene.children.get(&player.0) {
        Some(cs) => cs,
        None => {
            return None;
        },
    };
    let ghost all = cs@;
    assert(all.subrange(0, all.len() as int) =~= all);
    let mut i: usize = 0;
    while i < cs.len()
        invariant
            all == cs@,
            all == scene.children_of(player),
            i <= all.len(),
            held_in(all, scene.hand_slots@, containers.slots(), ids@) == held_in(
                all.subrange(i as int, all.len() as int),
                scene.hand_slots@,
                containers.slots(),
                ids@,
            ),
        decreases all.len() - i,
    {
        proof {
            let t = all.subrange(i as int, all.len() as int);
            assert(t.drop_first() =~= all.subrange(i as int + 1, all.len() as int));
        }
        let child = cs[i];
        if scene.hand_slots.contains(&child.0) {
            match containers.by_entity.get(&child.0) {
                Some(c) => match first_net_id_in(c, ids) {
                    Some(n) => {
                        return Some(n);
                    },
                    None => {},
                },
                None => {},
            }
        }
        i = i + 1;
    }
    None
}

/// A world container under the cursor: its network id, display name and
/// contents.
pub struct HitContainer {
    pub net_id: NetId,
    pub name: Option<String>,
    pub container: Container,
}

/// What a right click hit: whether the entity is an item (and its network
/// id, if it has one), a world container, or a tile.
pub struct HitFacts {
    pub item: Option<Option<NetId>>,
    pub container: Option<HitContainer>,
    pub tile: Option<IVec2>,
}

/// One button of a context menu.
pub struct MenuEntry {
    pub label: String,
    pub action: ContextMenuAction,
}

/// The label and action of each button of a context menu.
pub open spec fn entries_view(es: Seq<MenuEntry>) -> Seq<(Seq<char>, ContextMenuAction)> {
    es.map_values(|e: MenuEntry| (e.label@, e.action))
}

/// The buttons a context menu offers for a right click on `hit`, given the
/// item the player holds and whether the hit point is within reach.
pub open spec fn context_menu(
    hit: HitFacts,
    ids: Map<u64, NetId>,
    holding: Option<NetId>,
    in_range: bool,
    map: Option<GridView<TileKind>>,
) -> Seq<(Seq<char>, ContextMenuAction)> {
    match hit.item {
        Some(n) => if in_range && n is Some {
            seq![("Pick up"@, ContextMenuAction::ItemPickup { item: n->0 })]
        } else {
            Seq::empty()
        },
        None => match hit.container {
            Some(c) => {
                let name = match c.name {
                    Some(s) => s@,
                    None => "container"@,
                };
                if !in_range {
                    Seq::empty()
                } else {
                    match holding {
                        Some(h) => seq![
                            (
                                "Store in "@ + name,
                                ContextMenuAction::StoreInContainer { item: h, container: c.net_id },
                            ),
                        ],
                        None => match first_occupied(c.container@) {
                            Some(e) => if ids.contains_key(e.0) {
                                seq![
                                    (
                                        "Take from "@ + name,
                                        ContextMenuAction::TakeFromContainer {
                                            item: ids[e.0],
                                            container: c.net_id,
                                        },
                                    ),
                                ]
                            } else {
                                Seq::empty()
                            },
                            None => Seq::empty(),
                        },
                    }
                }
            },
            None => match hit.tile {
                Some(pos) => match tile_at(map, pos) {
                    None => Seq::empty(),
                    Some(TileKind::Wall) => seq![
                        (
                            "Remove Wall"@,
                            ContextMenuAction::TileToggle { position: pos, kind: TileKind::Floor },
                        ),
                    ],
                    Some(TileKind::Floor) => (if holding is Some && in_range {
                        seq![("Drop"@, ContextMenuAction::ItemDrop { item: holding->0 })]
                    } else {
                        Seq::empty()
                    }) + seq![
                        (
                            "Build Wall"@,
                            ContextMenuAction::TileToggle { position: pos, kind: TileKind::Wall },
                        ),
                    ],
                },
                None => Seq::empty(),
            },
        },
    }
}

/// The view of an optional borrowed tilemap.
pub open spec fn map_ref_view(map: Option<&TileGrid<TileKind>>) -> Option<GridView<TileKind>> {
    match map {
        Some(g) => Some(g@),
        None => None,
    }
}

/// The buttons of the context menu for a right click on `hit`: "Pick up"
/// on an item within reach; on a container within reach "Store in ..."
/// when holding an item, else "Take from ..." when it holds one; on a wall
/// "Remove Wall"; on a floor "Drop" (holding, within reach) and "Build
/// Wall".  An empty list opens no menu.
pub fn build_context_menu(
    hit: &HitFacts,
    ids: &HashMap<u64, NetId>,
    holding: Option<NetId>,
    in_range: bool,
    tilemap: Option<&TileGrid<TileKind>>,
) -> (r: Vec<MenuEntry>)
    ensures
        entries_view(r@) == context_menu(*hit, ids@, holding, in_range, map_ref_view(tilemap)),
{
    let mut out: Vec<MenuEntry> = Vec::new();
    match hit.item {
        Some(n) => {
            if in_range {
                match n {
                    Some(item) => {
                        out.push(
                            MenuEntry {
                                label: String::from_str("Pick up"),
                                action: ContextMenuAction::ItemPickup { item },
                            },
                        );
                    },
                    None => {},
                }
            }
            assert(entries_view(out@) =~= context_menu(
                *hit,
                ids@,
                holding,
                in_range,
                map_ref_view(tilemap),
            ));
            return out;
        },
        None => {},
    }
    match &hit.container {
        Some(c) => {
            let name: &str = match &c.name {
                Some(s) => s.as_str(),
                None => "container",
            };
            if in_range {
                match holding {
                    Some(h) => {
                        let mut label = String::from_str("Store in ");
                        label.append(name);
                        out.push(
                            MenuEntry {
                                label,
                                action: ContextMenuAction::StoreInContainer {
                                    item: h,
                                    container: c.net_id,
                                },
                            },
                        );
                    },
                    None => match first_stored_item(&c.container) {
                        Some(e) => match ids.get(&e.0) {
                            Some(n) => {
                                let mut label = String::from_str("Take from ");
                                label.append(name);
                                out.push(
                                    MenuEntry {
                                        label,
                                        action: ContextMenuAction::TakeFromContainer {
                                            item: *n,
                                            container: c.net_id,
                                        },
                                    },
                                );
                            },
                            None => {},
                        },
                        None => {},
                    },
                }
            }
            assert(entries_view(out@) =~= context_menu(
                *hit,
                ids@,
                holding,
                in_range,
                map_ref_view(tilemap),
            ));
            return out;
        },
        None => {},
    }
    match hit.tile {
        Some(pos) => {
            let kind = match tilemap {
                Some(g) => g.get_copy(pos),
                None => None,
            };
            match kind {
                Some(TileKind::Wall) => {
                    out.push(
                        MenuEntry {
                            label: String::from_str("Remove Wall"),
                            action: ContextMenuAction::TileToggle {
                                position: pos,
                                kind: TileKind::Floor,
                            },
                        },
                    );
                },
                Some(TileKind::Floor) => {
                    match holding {
                        Some(h) => {
                            if in_range {
                                out.push(
                                    MenuEntry {
                                        label: String::from_str("Drop"),
                                        action: ContextMenuAction::ItemDrop { item: h },
                                    },
                                );
                            }
                        },
                        None => {},
                    }
                    out.push(
                        MenuEntry {
                            label: String::from_str("Build Wall"),
                            action: ContextMenuAction::TileToggle {
                                position: pos,
                                kind: TileKind::Wall,
                            },
                        },
                    );
                },
                None => {},
            }
        },
        None => {},
    }
    assert(entries_view(out@) =~= context_menu(
        *hit,
        ids@,
        holding,
        in_range,
        map_ref_view(tilemap),
    ));
    out
}

/// Which of this frame's resolved hits opens the context menu: the last
/// right click, if any (only one menu is open at a time).
pub fn menu_hit_index(is_right_click: &Vec<bool>) -> (r: Option<usize>)
    ensures
        match r {
            Some(i) => i < is_right_click@.len() && is_right_click@[i as int] && forall|j: int|
                i < j < is_right_click@.len() ==> !is_right_click@[j],
            None => forall|j: int| 0 <= j < is_right_click@.len() ==> !is_right_click@[j],
        },
{
    let mut i: usize = is_right_click.len();
    while i > 0
        invariant
            i <= is_right_click@.len(),
            forall|j: int| i <= j < is_right_click@.len() ==> !is_right_click@[j],
        decreases i,
    {
        if is_right_click[i - 1] {
            return Some(i - 1);
        }
        i = i - 1;
    }
    None
}

/// Whether the open context menu closes this frame: on Escape, or on any
/// left click (including the click on one of its buttons).
pub fn dismiss_menu(escape_pressed: bool, any_left_click: bool) -> (r: bool)
    ensures
        r == (escape_pressed || any_left_click),
{
    escape_pressed || any_left_click
}

/// Out of reach, a context menu offers nothing but tile changes: no pick
/// up, drop, store or take.  In particular a world container out of reach
/// opens no menu at all.
pub proof fn lemma_menu_out_of_reach(
    hit: HitFacts,
    ids: Map<u64, NetId>,
    holding: Option<NetId>,
    map: Option<GridView<TileKind>>,
)
    ensures
        forall|i: int|
            0 <= i < context_menu(hit, ids, holding, false, map).len() ==> (#[trigger] context_menu(
                hit,
                ids,
                holding,
                false,
                map,
            )[i]).1 is TileToggle,
        hit.item is None && hit.container is Some ==> context_menu(
            hit,
            ids,
            holding,
            false,
            map,
        ).len() == 0,
{
}

/// A world container within reach, hit while holding an item, offers one
/// button, which stores the held item in that container; and whatever is
/// hit, a store or take button names the hit container and a store button
/// the held item.
pub proof fn lemma_menu_container_actions(
    hit: HitFacts,
    ids: Map<u64, NetId>,
    holding: Option<NetId>,
    in_range: bool,
    map: Option<GridView<TileKind>>,
)
    ensures
        hit.item is None && hit.container is Some && holding is Some && in_range ==> {
            &&& context_menu(hit, ids, holding, in_range, map).len() == 1
            &&& context_menu(hit, ids, holding, in_range, map)[0].1
                == ContextMenuAction::StoreInContainer {
                item: holding->0,
                container: hit.container->0.net_id,
            }
        },
        forall|i: int|
            0 <= i < context_menu(hit, ids, holding, in_range, map).len() ==> {
                let a = (#[trigger] context_menu(hit, ids, holding, in_range, map)[i]).1;
                &&& a matches ContextMenuAction::StoreInContainer { item, container } ==> hit.container
                    is Some && container == hit.container->0.net_id && holding == Some(item)
                &&& a matches ContextMenuAction::TakeFromContainer { container, .. } ==> hit.container
                    is Some && container == hit.container->0.net_id
            },
{
}

/// Every button of a context menu acts on what was hit: "Pick up" on the
/// hit item within reach; "Drop" of the held item on a floor within reach;
/// a take of the item in the first occupied slot of the hit container,
/// within reach and with empty hands; a tile change at the hit tile, to the
/// other kind than the one it holds.
pub proof fn lemma_menu_actions_match_hit(
    hit: HitFacts,
    ids: Map<u64, NetId>,
    holding: Option<NetId>,
    in_range: bool,
    map: Option<GridView<TileKind>>,
)
    ensures
        forall|i: int|
            0 <= i < context_menu(hit, ids, holding, in_range, map).len() ==> {
                let a = (#[trigger] context_menu(hit, ids, holding, in_range, map)[i]).1;
                &&& a matches ContextMenuAction::ItemPickup { item } ==> in_range && hit.item == Some(
                    Some(item),
                )
                &&& a matches ContextMenuAction::ItemDrop { item } ==> in_range && holding == Some(item)
                    && hit.item is None && hit.container is None && hit.tile is Some && tile_at(
                    map,
                    hit.tile->0,
                ) == Some(TileKind::Floor)
                &&& a matches ContextMenuAction::TakeFromContainer { item, .. } ==> in_range
                    && holding is None && hit.item is None && hit.container is Some && (first_occupied(
                    hit.container->0.container@,
                ) matches Some(e) && ids.contains_key(e.0) && item == ids[e.0])
                &&& a matches ContextMenuAction::TileToggle { position, kind } ==> hit.item is None
                    && hit.container is None && hit.tile == Some(position) && tile_at(map, position)
                    is Some && tile_at(map, position) != Some(kind)
            },
{
}

/// A request the server turns into an item request names the entities the
/// index holds for the request's ids, and the actor the sending client
/// controls: the item as the item, the container as the container.  A tile
/// change is at column `position[0]`, row `position[1]`, of the kind asked
/// for, on a tile of the map that holds another kind.
pub proof fn lemma_dispatch_resolves_ids(
    map: Option<GridView<TileKind>>,
    index: Option<Map<u64, EntityId>>,
    actors: Seq<(EntityId, ClientId)>,
    from: ClientId,
    req: InteractionRequest,
)
    ensures
        ({
            let o = dispatch_outcome(map, index, actors, from, req);
            &&& o matches Ok(Dispatched::Take(t)) ==> req matches InteractionRequest::TakeFromContainer {
                item,
                container,
            } && index matches Some(idx) && idx.contains_key(item.0) && idx.contains_key(container.0)
                && t.item == idx[item.0] && t.container == idx[container.0] && actor_of(actors, from)
                == Some(t.actor)
            &&& o matches Ok(Dispatched::Store(t)) ==> req matches InteractionRequest::StoreInContainer {
                item,
                container,
            } && index matches Some(idx) && idx.contains_key(item.0) && idx.contains_key(container.0)
                && t.item == idx[item.0] && t.container == idx[container.0] && actor_of(actors, from)
                == Some(t.actor)
            &&& o matches Ok(Dispatched::Pickup(t)) ==> req matches InteractionRequest::ItemPickup {
                item,
            } && index matches Some(idx) && idx.contains_key(item.0) && t.item == idx[item.0]
                && actor_of(actors, from) == Some(t.actor)
            &&& o matches Ok(Dispatched::Drop(t)) ==> req matches InteractionRequest::ItemDrop {
                item,
            } && index matches Some(idx) && idx.contains_key(item.0) && t.item == idx[item.0]
                && actor_of(actors, from) == Some(t.actor)
            &&& o matches Ok(Dispatched::TileChanged(m)) ==> req matches InteractionRequest::TileToggle {
                position,
                kind,
            } && m.position.x == position[0] && m.position.y == position[1] && m.kind == kind
                && tile_at(map, m.position) is Some && tile_at(map, m.position) != Some(kind)
        }),
{
}

/// A dispatched tile change lands in the map where it says: the tile at
/// its position reads its kind and every other tile keeps its kind; any
/// other request leaves the map as it was.
pub proof fn lemma_dispatch_map_effect(
    map: Option<GridView<TileKind>>,
    index: Option<Map<u64, EntityId>>,
    actors: Seq<(EntityId, ClientId)>,
    reqs: Seq<(ClientId, InteractionRequest)>,
)
    requires
        reqs.len() > 0,
    ensures
        ({
            let prev = run_dispatch(map, index, actors, reqs.drop_last()).0;
            let cur = run_dispatch(map, index, actors, reqs);
            let o = cur.1.last();
            let m = o->Ok_0->TileChanged_0;
            &&& !(o is Ok && o->Ok_0 is TileChanged) ==> cur.0 == prev
            &&& o is Ok && o->Ok_0 is TileChanged && prev is Some && prev->0.wf() ==> {
                &&& cur.0 is Some
                &&& cur.0->0.wf()
                &&& cur.0->0.cell(m.position.x as int, m.position.y as int) == Some(m.kind)
                &&& forall|a: int, b: int|
                    #![trigger cur.0->0.cell(a, b)]
                    (a != m.position.x || b != m.position.y) ==> cur.0->0.cell(a, b) == prev->0.cell(a, b)
            }
        }),
{
    let prev = run_dispatch(map, index, actors, reqs.drop_last()).0;
    let cur = run_dispatch(map, index, actors, reqs);
    let o = cur.1.last();
    if o is Ok && o->Ok_0 is TileChanged && prev is Some && prev->0.wf() {
        let m = o->Ok_0->TileChanged_0;
        let g = prev->0;
        assert(tile_at(prev, m.position) is Some);
        lemma_set_then_get(g, with_tile(g, m.position, m.kind), m.position.x as int, m.position.y as int, m.kind);
    }
}

} // verus!
