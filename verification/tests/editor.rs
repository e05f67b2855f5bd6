use geostationary::editor::{
    default_editor_tilemap, editor_spawn_kinds, layers_to_keep, map_version_supported,
    needs_default_room, paint_tile, spawn_marker_kind, EditorFileRequest, EditorSelection,
    EditorTool, EditorUiEvent, TilesLayerLoad, EDITOR_ROOM_SIZE,
};
use geostationary::things::{register_standard_templates, ThingRegistry};
use geostationary::tiles::{IVec2, TileKind, TileMutated};

#[test]
fn default_room_has_wall_border_and_floor_inside() {
    let tm = default_editor_tilemap();
    assert_eq!(tm.width(), EDITOR_ROOM_SIZE);
    assert_eq!(tm.height(), EDITOR_ROOM_SIZE);
    for y in 0..32 {
        for x in 0..32 {
            let border = x == 0 || y == 0 || x == 31 || y == 31;
            let want = if border { TileKind::Wall } else { TileKind::Floor };
            assert_eq!(tm.get(IVec2::new(x, y)), Some(&want), "at ({x}, {y})");
        }
    }
}

#[test]
fn painting_changes_only_a_different_kind() {
    let mut tm = default_editor_tilemap();
    let cell = IVec2::new(5, 5);
    assert_eq!(
        paint_tile(&mut tm, cell, TileKind::Wall),
        Some(TileMutated {
            position: cell,
            kind: TileKind::Wall
        })
    );
    assert_eq!(tm.get(cell), Some(&TileKind::Wall));
    assert_eq!(paint_tile(&mut tm, cell, TileKind::Wall), None);
    assert_eq!(paint_tile(&mut tm, IVec2::new(40, 2), TileKind::Floor), None);
    assert_eq!(paint_tile(&mut tm, IVec2::new(-1, 2), TileKind::Floor), None);
}

#[test]
fn palette_selects_tools() {
    let mut sel = EditorSelection::new();
    assert_eq!(sel.tool, EditorTool::Tile);
    assert_eq!(sel.tile, TileKind::Floor);
    assert_eq!(sel.process_palette_event(EditorUiEvent::SelectWall), None);
    assert_eq!(sel.tile, TileKind::Wall);
    assert_eq!(
        sel.process_palette_event(EditorUiEvent::SelectEntity("can".to_string(), 2)),
        None
    );
    assert_eq!(sel.tool, EditorTool::Entity);
    assert_eq!(sel.tile, TileKind::Wall);
    assert_eq!(sel.entity.as_ref().map(|t| t.kind), Some(2));
    assert_eq!(
        sel.process_palette_event(EditorUiEvent::Save),
        Some(EditorFileRequest::Save)
    );
    assert_eq!(sel.tool, EditorTool::Entity);
    assert_eq!(
        sel.process_palette_event(EditorUiEvent::Load),
        Some(EditorFileRequest::Load)
    );
    assert_eq!(sel.process_palette_event(EditorUiEvent::SelectFloor), None);
    assert_eq!(sel.tool, EditorTool::Tile);
    assert!(sel.entity.is_none());
}

#[test]
fn spawn_markers_go_on_floor_with_entity_tool_only() {
    let tm = default_editor_tilemap();
    let mut sel = EditorSelection::new();
    let inside = IVec2::new(3, 3);
    assert_eq!(spawn_marker_kind(&sel, false, Some(&tm), inside), None);
    sel.process_palette_event(EditorUiEvent::SelectEntity("ball".to_string(), 1));
    assert_eq!(spawn_marker_kind(&sel, false, Some(&tm), inside), Some(1));
    assert_eq!(spawn_marker_kind(&sel, true, Some(&tm), inside), None);
    assert_eq!(
        spawn_marker_kind(&sel, false, Some(&tm), IVec2::new(0, 3)),
        None
    );
    assert_eq!(spawn_marker_kind(&sel, false, None, inside), None);
}

#[test]
fn map_versions_and_default_room() {
    assert!(map_version_supported(1, 1));
    assert!(!map_version_supported(2, 1));
    assert!(!needs_default_room(TilesLayerLoad::Loaded));
    assert!(needs_default_room(TilesLayerLoad::NoHandler));
    assert!(needs_default_room(TilesLayerLoad::Failed));
    assert!(needs_default_room(TilesLayerLoad::Absent));
}

#[test]
fn unknown_spawn_templates_are_skipped() {
    let mut registry = ThingRegistry::new();
    register_standard_templates(&mut registry);
    let names = vec!["can".to_string(), "barrel".to_string(), "creature".to_string()];
    assert_eq!(
        editor_spawn_kinds(&registry, &names),
        vec![Some(2), None, Some(0)]
    );
}

#[test]
fn save_keeps_only_layers_it_does_not_write() {
    let saved = vec!["tiles".to_string(), "spawns".to_string()];
    let old = vec![
        "tiles".to_string(),
        "atmos".to_string(),
        "spawns".to_string(),
        "decals".to_string(),
    ];
    assert_eq!(layers_to_keep(&saved, &old), vec![1, 3]);
    assert!(layers_to_keep(&saved, &vec![]).is_empty());
    assert_eq!(layers_to_keep(&vec![], &old), vec![0, 1, 2, 3]);
}
