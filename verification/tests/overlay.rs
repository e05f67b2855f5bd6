use geostationary::overlay::{
    overlay_despawn_all, overlay_spawn_positions, plan_overlay_mutations, AtmosDebugOverlay,
    OverlayAction, OverlayQuadInfo,
};
use geostationary::tiles::{IVec2, TileGrid, TileKind, TileMutated};

/// Quads and meshes as the game holds them; applies planned actions.
struct Overlay {
    shown: bool,
    quads: Vec<OverlayQuadInfo>,
    meshes: Vec<u64>,
    next: u64,
}

impl Overlay {
    fn new(shown: bool) -> Overlay {
        Overlay {
            shown,
            quads: vec![],
            meshes: vec![],
            next: 100,
        }
    }

    fn fresh(&mut self) -> u64 {
        self.next += 1;
        self.next
    }

    fn spawn_test_quad(&mut self, position: IVec2) -> u64 {
        let mesh = self.fresh();
        self.meshes.push(mesh);
        self.spawn_with_mesh(position, mesh)
    }

    fn spawn_with_mesh(&mut self, position: IVec2, mesh: u64) -> u64 {
        let entity = self.fresh();
        self.quads.push(OverlayQuadInfo {
            entity,
            position,
            mesh,
        });
        entity
    }

    fn fire_mutation(&mut self, position: IVec2, kind: TileKind) {
        let actions =
            plan_overlay_mutations(self.shown, &vec![TileMutated { position, kind }], &self.quads);
        for a in actions {
            match a {
                OverlayAction::Spawn { position, mesh } => {
                    let mesh = match mesh {
                        Some(m) => m,
                        None => {
                            let m = self.fresh();
                            self.meshes.push(m);
                            m
                        }
                    };
                    self.spawn_with_mesh(position, mesh);
                }
                OverlayAction::Despawn { entity, free_mesh } => {
                    let i = self.quads.iter().position(|q| q.entity == entity).unwrap();
                    let q = self.quads.remove(i);
                    if free_mesh {
                        self.meshes.retain(|m| *m != q.mesh);
                    }
                }
            }
        }
    }
}

#[test]
fn test_overlay_default_off() {
    let overlay = AtmosDebugOverlay::default();
    assert!(!overlay.0, "Overlay should be off by default");
}

#[test]
fn test_toggle_overlay_manual() {
    let mut overlay = AtmosDebugOverlay::default();
    assert!(!overlay.0, "Should start off");
    overlay.toggle();
    assert!(overlay.0, "Should be on after first toggle");
    overlay.toggle();
    assert!(!overlay.0, "Should be off after second toggle");
}

#[test]
fn test_mutation_skips_when_overlay_off() {
    let mut app = Overlay::new(false);
    app.spawn_test_quad(IVec2::new(1, 1));
    app.fire_mutation(IVec2::new(1, 1), TileKind::Wall);
    assert_eq!(
        app.quads.len(),
        1,
        "quad should not be despawned when overlay is off"
    );
}

#[test]
fn test_mutation_despawns_quad_when_tile_becomes_wall() {
    let mut app = Overlay::new(true);
    app.spawn_test_quad(IVec2::new(2, 3));
    app.fire_mutation(IVec2::new(2, 3), TileKind::Wall);
    assert_eq!(
        app.quads.len(),
        0,
        "quad should be despawned when tile becomes a wall"
    );
}

#[test]
fn test_mutation_does_not_despawn_other_quads() {
    let mut app = Overlay::new(true);
    app.spawn_test_quad(IVec2::new(1, 1));
    app.spawn_test_quad(IVec2::new(2, 2));
    app.fire_mutation(IVec2::new(1, 1), TileKind::Wall);
    assert_eq!(
        app.quads.len(),
        1,
        "only the targeted position's quad should be despawned"
    );
}

#[test]
fn test_mutation_spawns_quad_when_tile_becomes_walkable() {
    let mut app = Overlay::new(true);
    app.fire_mutation(IVec2::new(3, 4), TileKind::Floor);
    assert_eq!(
        app.quads.len(),
        1,
        "a new quad should be spawned when a tile becomes walkable"
    );
}

#[test]
fn test_mutation_no_duplicate_quad_for_existing_walkable_tile() {
    let mut app = Overlay::new(true);
    app.spawn_test_quad(IVec2::new(5, 6));
    app.fire_mutation(IVec2::new(5, 6), TileKind::Floor);
    assert_eq!(
        app.quads.len(),
        1,
        "no duplicate quad should be spawned for a position that already has one"
    );
}

#[test]
fn test_new_quad_reuses_existing_shared_mesh() {
    let mut app = Overlay::new(true);
    app.spawn_test_quad(IVec2::new(0, 0));
    let initial_mesh_id = app.quads[0].mesh;
    app.fire_mutation(IVec2::new(1, 0), TileKind::Floor);
    let new_mesh_id = app
        .quads
        .iter()
        .find(|q| q.position == IVec2::new(1, 0))
        .map(|q| q.mesh)
        .expect("a new quad should exist at (1, 0)");
    assert_eq!(
        new_mesh_id, initial_mesh_id,
        "mutation-spawned quad should reuse the shared mesh from existing quads"
    );
}

#[test]
fn test_shared_mesh_not_removed_when_other_quads_still_use_it() {
    let mut app = Overlay::new(true);
    let mesh = app.fresh();
    app.meshes.push(mesh);
    app.spawn_with_mesh(IVec2::new(0, 0), mesh);
    app.spawn_with_mesh(IVec2::new(1, 0), mesh);
    app.fire_mutation(IVec2::new(0, 0), TileKind::Wall);
    assert!(
        app.meshes.contains(&mesh),
        "shared mesh should not be removed while other quads still reference it"
    );
    // The last user frees it.
    app.fire_mutation(IVec2::new(1, 0), TileKind::Wall);
    assert!(!app.meshes.contains(&mesh));
}

#[test]
fn mutations_in_one_frame_are_judged_against_the_frame_start() {
    let quads = vec![OverlayQuadInfo {
        entity: 1,
        position: IVec2::new(0, 0),
        mesh: 9,
    }];
    let events = vec![
        TileMutated {
            position: IVec2::new(0, 0),
            kind: TileKind::Wall,
        },
        TileMutated {
            position: IVec2::new(0, 0),
            kind: TileKind::Floor,
        },
        TileMutated {
            position: IVec2::new(4, 4),
            kind: TileKind::Wall,
        },
    ];
    assert_eq!(
        plan_overlay_mutations(true, &events, &quads),
        vec![OverlayAction::Despawn {
            entity: 1,
            free_mesh: true
        }]
    );
}

#[test]
fn quads_spawn_on_walkable_tiles_without_one() {
    let mut g = TileGrid::new_fill(3, 2, TileKind::Floor);
    g.set(IVec2::new(1, 0), TileKind::Wall);
    let existing = vec![IVec2::new(2, 1)];
    assert_eq!(
        overlay_spawn_positions(true, Some(&g), true, &existing),
        vec![
            IVec2::new(0, 0),
            IVec2::new(2, 0),
            IVec2::new(0, 1),
            IVec2::new(1, 1)
        ]
    );
    // Quads exist and the map did not change: nothing to do.
    assert!(overlay_spawn_positions(true, Some(&g), false, &existing).is_empty());
    assert_eq!(overlay_spawn_positions(true, Some(&g), false, &vec![]).len(), 5);
    assert!(overlay_spawn_positions(false, Some(&g), true, &vec![]).is_empty());
    assert!(overlay_spawn_positions(true, None, true, &vec![]).is_empty());
}

#[test]
fn quads_go_when_hidden_or_map_gone() {
    assert!(overlay_despawn_all(false, true, 3));
    assert!(overlay_despawn_all(true, false, 3));
    assert!(!overlay_despawn_all(true, true, 3));
    assert!(!overlay_despawn_all(false, false, 0));
}
