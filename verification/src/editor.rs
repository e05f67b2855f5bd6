//! Map editor: the default room, the palette selection, painting tiles,
//! where spawn markers may go, and what loading and saving a map keep.
use vstd::prelude::*;

use crate::things::ThingRegistry;
use crate::tiles::{GridView, IVec2, TileGrid, TileKind, TileMutated};

verus! {

/// Side length of the default editor room.
pub const EDITOR_ROOM_SIZE: u32 = 32;

/// Whether `(x, y)` lies on the border of a `size` by `size` room.
pub open spec fn on_border(x: int, y: int, size: int) -> bool {
    x == 0 || y == 0 || x == size - 1 || y == size - 1
}

/// The default editor map: a 32 by 32 room whose border tiles are walls and
/// whose inside is floor.
pub fn default_editor_tilemap() -> (r: TileGrid<TileKind>)
    ensures
        r@.wf(),
        r@.width == EDITOR_ROOM_SIZE,
        r@.height == EDITOR_ROOM_SIZE,
        forall|x: int, y: int|
            0 <= x < EDITOR_ROOM_SIZE && 0 <= y < EDITOR_ROOM_SIZE ==> #[trigger] r@.cell(x, y) == Some(
                if on_border(x, y, EDITOR_ROOM_SIZE as int) {
                    TileKind::Wall
                } else {
                    TileKind::Floor
                },
            ),
{
    let size: u32 = EDITOR_ROOM_SIZE;
    let n: i32 = 32;
    let mut tm = TileGrid::new_fill(size, size, TileKind::Floor);
    proof {
        assert forall|a: int, b: int| 0 <= a < 32 && 0 <= b < 32 implies #[trigger] tm@.cell(a, b)
            == Some(TileKind::Floor) by {
            crate::tiles::lemma_row_major_index(a, b, 32, 32);
            assert(cloned(TileKind::Floor, tm@.cells[b * 32 + a]));
        }
    }
    let mut x: i32 = 0;
    while x < n
        invariant
            tm@.wf(),
            tm@.width == 32,
            tm@.height == 32,
            0 <= x <= n,
            n == 32,
            forall|a: int, b: int|
                0 <= a < 32 && 0 <= b < 32 ==> #[trigger] tm@.cell(a, b) == Some(
                    if (b == 0 || b == 31) && a < x {
                        TileKind::Wall
                    } else {
                        TileKind::Floor
                    },
                ),
        decreases n - x,
    {
        let ghost before = tm@;
        tm.set(IVec2 { x, y: 0 }, TileKind::Wall);
        tm.set(IVec2 { x, y: n - 1 }, TileKind::Wall);
        proof {
            assert forall|a: int, b: int| 0 <= a < 32 && 0 <= b < 32 implies #[trigger] tm@.cell(
                a,
                b,
            ) == Some(
                if (b == 0 || b == 31) && a < x + 1 {
                    TileKind::Wall
                } else {
                    TileKind::Floor
                },
            ) by {
                crate::tiles::lemma_row_major_index(a, b, 32, 32);
                assert(before.cell(a, b) == Some(before.cells[b * 32 + a]));
                if b * 32 + a == x {
                    crate::tiles::lemma_row_major_injective(a, b, x as int, 0, 32);
                } else if b * 32 + a == 31 * 32 + x {
                    crate::tiles::lemma_row_major_injective(a, b, x as int, 31, 32);
                }
            }
        }
        x = x + 1;
    }
    let mut y: i32 = 0;
    while y < n
        invariant
            tm@.wf(),
            tm@.width == 32,
            tm@.height == 32,
            0 <= y <= n,
            n == 32,
            forall|a: int, b: int|
                0 <= a < 32 && 0 <= b < 32 ==> #[trigger] tm@.cell(a, b) == Some(
                    if b == 0 || b == 31 || ((a == 0 || a == 31) && b < y) {
                        TileKind::Wall
                    } else {
                        TileKind::Floor
                    },
                ),
        decreases n - y,
    {
        let ghost before = tm@;
        tm.set(IVec2 { x: 0, y }, TileKind::Wall);
        tm.set(IVec2 { x: n - 1, y }, TileKind::Wall);
        proof {
            assert forall|a: int, b: int| 0 <= a < 32 && 0 <= b < 32 implies #[trigger] tm@.cell(
                a,
                b,
            ) == Some(
                if b == 0 || b == 31 || ((a == 0 || a == 31) && b < y + 1) {
                    TileKind::Wall
                } else {
                    TileKind::Floor
                },
            ) by {
                crate::tiles::lemma_row_major_index(a, b, 32, 32);
                assert(before.cell(a, b) == Some(before.cells[b * 32 + a]));
                if b * 32 + a == y * 32 {
                    crate::tiles::lemma_row_major_injective(a, b, 0, y as int, 32);
                } else if b * 32 + a == y * 32 + 31 {
                    crate::tiles::lemma_row_major_injective(a, b, 31, y as int, 32);
                }
            }
        }
        y = y + 1;
    }
    tm
}

/// Paints `kind` at `cell`: when the cell lies on the map and holds another
/// kind, the map changes and the change is returned for display; otherwise
/// nothing happens.
pub fn paint_tile(tm: &mut TileGrid<TileKind>, cell: IVec2, kind: TileKind) -> (r: Option<TileMutated>)
    ensures
        final(tm)@.wf(),
        match old(tm)@.cell(cell.x as int, cell.y as int) {
            Some(current) => if current != kind {
                &&& r == Some(TileMutated { position: cell, kind })
                &&& final(tm)@ == GridView {
                    cells: old(tm)@.cells.update(cell.y * old(tm)@.width + cell.x, kind),
                    ..old(tm)@
                }
            } else {
                r is None && final(tm)@ == old(tm)@
            },
            None => r is None && final(tm)@ == old(tm)@,
        },
{
    proof {
        use_type_invariant(&*tm);
    }
    match tm.get_copy(cell) {
        Some(current) => {
            if current != kind {
                tm.set(cell, kind);
                Some(TileMutated { position: cell, kind })
            } else {
                None
            }
        },
        None => None,
    }
}

/// The active editor tool.
#[derive(Debug, Clone, Copy, PartialEq, Eq, Structural)]
pub enum EditorTool {
    Tile,
    Entity,
}

/// A template the entity palette offers.
#[derive(Debug, Clone)]
pub struct EditorEntityTemplate {
    pub name: String,
    pub kind: u16,
}

/// A palette button press.
#[derive(Debug, Clone)]
pub enum EditorUiEvent {
    SelectFloor,
    SelectWall,
    SelectEntity(String, u16),
    Save,
    Load,
}

/// A request to save or load the map file.
#[derive(Debug, Clone, Copy, PartialEq, Eq, Structural)]
pub enum EditorFileRequest {
    Save,
    Load,
}

/// What the palette has selected.
pub struct EditorSelection {
    pub tile: TileKind,
    pub entity: Option<EditorEntityTemplate>,
    pub tool: EditorTool,
}

impl EditorSelection {
    /// The starting selection: floor tiles, no template, tile tool.
    pub fn new() -> (r: EditorSelection)
        ensures
            r.tile == TileKind::Floor,
            r.entity is None,
            r.tool == EditorTool::Tile,
    {
        EditorSelection { tile: TileKind::Floor, entity: None, tool: EditorTool::Tile }
    }

    /// Applies a palette press: choosing a tile kind selects the tile tool
    /// and clears the template; choosing a template selects the entity tool
    /// and keeps the tile kind; save and load leave the selection alone and
    /// are returned as requests.
    pub fn process_palette_event(&mut self, ev: EditorUiEvent) -> (r: Option<EditorFileRequest>)
        ensures
            match ev {
                EditorUiEvent::SelectFloor => r is None && final(self).tile == TileKind::Floor
                    && final(self).entity is None && final(self).tool == EditorTool::Tile,
                EditorUiEvent::SelectWall => r is None && final(self).tile == TileKind::Wall
                    && final(self).entity is None && final(self).tool == EditorTool::Tile,
                EditorUiEvent::SelectEntity(name, kind) => r is None && final(self).tile == old(
                    self,
                ).tile && (final(self).entity matches Some(t) && t.name@ == name@ && t.kind == kind)
                    && final(self).tool == EditorTool::Entity,
                EditorUiEvent::Save => r == Some(EditorFileRequest::Save) && final(self).tile
                    == old(self).tile && final(self).entity == old(self).entity && final(self).tool
                    == old(self).tool,
                EditorUiEvent::Load => r == Some(EditorFileRequest::Load) && final(self).tile
                    == old(self).tile && final(self).entity == old(self).entity && final(self).tool
                    == old(self).tool,
            },
    {
        match ev {
            EditorUiEvent::SelectFloor => {
                self.tile = TileKind::Floor;
                self.entity = None;
                self.tool = EditorTool::Tile;
                None
            },
            EditorUiEvent::SelectWall => {
                self.tile = TileKind::Wall;
                self.entity = None;
                self.tool = EditorTool::Tile;
                None
            },
            EditorUiEvent::SelectEntity(name, kind) => {
                self.entity = Some(EditorEntityTemplate { name, kind });
                self.tool = EditorTool::Entity;
                None
            },
            EditorUiEvent::Save => Some(EditorFileRequest::Save),
            EditorUiEvent::Load => Some(EditorFileRequest::Load),
        }
    }
}

/// The template kind of the spawn marker a left click places at `cell`:
/// only with the entity tool, a template selected, the pointer off the
/// interface and a floor tile under it.
pub fn spawn_marker_kind(
    sel: &EditorSelection,
    over_ui: bool,
    grid: Option<&TileGrid<TileKind>>,
    cell: IVec2,
) -> (r: Option<u16>)
    ensures
        r == if sel.tool == EditorTool::Entity && !over_ui && sel.entity is Some && (grid matches Some(
            g,
        ) && g@.cell(cell.x as int, cell.y as int) == Some(TileKind::Floor)) {
            Some(sel.entity->0.kind)
        } else {
            None::<u16>
        },
{
    if sel.tool != EditorTool::Entity || over_ui {
        return None;
    }
    let kind = match &sel.entity {
        Some(t) => t.kind,
        None => {
            return None;
        },
    };
    match grid {
        Some(g) => match g.get_copy(cell) {
            Some(k) => if k.is_walkable() {
                Some(kind)
            } else {
                None
            },
            None => None,
        },
        None => None,
    }
}

/// Whether a map file of `version` can be opened by a reader that supports
/// versions up to `supported`.
pub fn map_version_supported(version: u32, supported: u32) -> (r: bool)
    ensures
        r == (version <= supported),
{
    version <= supported
}

/// What became of a map's tiles layer on load.
#[derive(Debug, Clone, Copy, PartialEq, Eq, Structural)]
pub enum TilesLayerLoad {
    /// The layer loaded and put its grid in place.
    Loaded,
    /// No tiles layer handler is registered.
    NoHandler,
    /// The layer failed to load.
    Failed,
    /// The map has no tiles layer.
    Absent,
}

/// Whether the editor falls back to its default room after loading the
/// tiles layer: whenever the layer did not load.
pub fn needs_default_room(load: TilesLayerLoad) -> (r: bool)
    ensures
        r == (load != TilesLayerLoad::Loaded),
{
    match load {
        TilesLayerLoad::Loaded => false,
        _ => true,
    }
}

/// The template kind of each spawn point the editor shows as a marker, or
/// `None` for a point whose template is unknown, which the editor skips.
pub fn editor_spawn_kinds(registry: &ThingRegistry, names: &Vec<String>) -> (r: Vec<Option<u16>>)
    ensures
        r@.len() == names@.len(),
        forall|i: int| 0 <= i < r@.len() ==> #[trigger] r@[i] == registry.kind_named(names@[i]@),
{
    let mut out: Vec<Option<u16>> = Vec::new();
    let mut i: usize = 0;
    while i < names.len()
        invariant
            i <= names@.len(),
            out@.len() == i,
            forall|j: int| 0 <= j < i ==> #[trigger] out@[j] == registry.kind_named(names@[j]@),
        decreases names@.len() - i,
    {
        out.push(registry.kind_by_name(names[i].as_str()));
        i = i + 1;
    }
    out
}

/// Whether some saved layer has the key `key`.
pub open spec fn key_saved(saved_keys: Seq<String>, key: Seq<char>) -> bool {
    exists|j: int| 0 <= j < saved_keys.len() && saved_keys[j]@ == key
}

/// The layers of the previously loaded file that a save carries over: the
/// positions, in order, of those whose key the saved layers do not have.
pub fn layers_to_keep(saved_keys: &Vec<String>, old_keys: &Vec<String>) -> (r: Vec<usize>)
    ensures
        forall|i: int| 0 <= i < r@.len() ==> #[trigger] r@[i] < old_keys@.len(),
        forall|i: int, j: int| 0 <= i < j < r@.len() ==> #[trigger] r@[i] < #[trigger] r@[j],
        forall|k: int|
            #![trigger old_keys@[k]]
            0 <= k < old_keys@.len() ==> (r@.contains(k as usize) <==> !key_saved(
                saved_keys@,
                old_keys@[k]@,
            )),
{
    let mut out: Vec<usize> = Vec::new();
    let mut k: usize = 0;
    while k < old_keys.len()
        invariant
            k <= old_keys@.len(),
            forall|i: int| 0 <= i < out@.len() ==> #[trigger] out@[i] < k,
            forall|i: int, j: int| 0 <= i < j < out@.len() ==> #[trigger] out@[i] < #[trigger] out@[j],
            forall|m: int|
                #![trigger old_keys@[m]]
                0 <= m < k ==> (out@.contains(m as usize) <==> !key_saved(
                    saved_keys@,
                    old_keys@[m]@,
                )),
        decreases old_keys@.len() - k,
    {
        let mut found = false;
        let mut j: usize = 0;
        while j < saved_keys.len()
            invariant
                j <= saved_keys@.len(),
                k < old_keys@.len(),
                found == exists|i: int| 0 <= i < j && saved_keys@[i]@ == old_keys@[k as int]@,
            decreases saved_keys@.len() - j,
        {
            if saved_keys[j] == old_keys[k] {
                found = true;
            }
            j = j + 1;
        }
        assert(found == key_saved(saved_keys@, old_keys@[k as int]@));
        let ghost before = out@;
        if !found {
            out.push(k);
        }
        proof {
            assert forall|m: int|
                #![trigger old_keys@[m]]
                0 <= m < k + 1 implies (out@.contains(m as usize) <==> !key_saved(
                saved_keys@,
                old_keys@[m]@,
            )) by {
                if m < k {
                    if !found {
                        if before.contains(m as usize) {
                            let i = choose|i: int| 0 <= i < before.len() && before[i] == m as usize;
                            assert(out@[i] == m as usize);
                        }
                        if out@.contains(m as usize) {
                            let i = choose|i: int| 0 <= i < out@.len() && out@[i] == m as usize;
                            if i < before.len() {
                                assert(before[i] == m as usize);
                            }
                        }
                    }
                } else {
                    if !found {
                        assert(out@[before.len() as int] == k);
                    } else {
                        if out@.contains(m as usize) {
                            let i = choose|i: int| 0 <= i < out@.len() && out@[i] == m as usize;
                            assert(out@[i] < k);
                        }
                    }
                }
            }
        }
        k = k + 1;
    }
    out
}

} // verus!
