//! The atmospheric pressure debug overlay: one quad per walkable tile,
//! kept in step with the tile map.  Quads, meshes and materials live with
//! the caller; this module decides which quads to spawn and which to
//! despawn, and whether a despawned quad's mesh may be freed.
use vstd::prelude::*;

use crate::tiles::{GridView, IVec2, TileGrid, TileKind, TileMutated};
use vstd::arithmetic::div_mod::lemma_fundamental_div_mod_converse;

verus! {

/// Whether the overlay is shown.  It starts hidden.
#[derive(Debug, Clone, Copy, PartialEq, Eq, Structural)]
pub struct AtmosDebugOverlay(pub bool);

impl Default for AtmosDebugOverlay {
    fn default() -> (r: AtmosDebugOverlay)
        ensures
            !r.0,
    {
        AtmosDebugOverlay(false)
    }
}

impl AtmosDebugOverlay {
    /// Shows a hidden overlay and hides a shown one.
    pub fn toggle(&mut self)
        ensures
            final(self).0 == !old(self).0,
    {
        self.0 = !self.0;
    }
}

/// An overlay quad as the decisions see it: its entity, the tile it
/// covers, and the id of its mesh (quads may share one mesh).
#[derive(Debug, Clone, Copy, PartialEq, Eq, Structural)]
pub struct OverlayQuadInfo {
    pub entity: u64,
    pub position: IVec2,
    pub mesh: u64,
}

/// What to do to the overlay for one tile mutation.
#[derive(Debug, Clone, Copy, PartialEq, Eq, Structural)]
pub enum OverlayAction {
    /// Spawn a quad on `position`, reusing the mesh `mesh` or, when none is
    /// given, a new one.
    Spawn { position: IVec2, mesh: Option<u64> },
    /// Despawn the quad `entity` and free its material; free its mesh too
    /// when `free_mesh` (no other quad uses it).
    Despawn { entity: u64, free_mesh: bool },
}

/// Whether some quad covers `p`.
pub open spec fn has_quad_at(qs: Seq<OverlayQuadInfo>, p: IVec2) -> bool {
    exists|i: int| 0 <= i < qs.len() && #[trigger] qs[i].position == p
}

/// The position of the first quad that covers `p`.
pub open spec fn first_quad_at(qs: Seq<OverlayQuadInfo>, p: IVec2) -> Option<int> {
    if has_quad_at(qs, p) {
        Some(
            choose|i: int|
                0 <= i < qs.len() && qs[i].position == p && forall|j: int|
                    0 <= j < i ==> qs[j].position != p,
        )
    } else {
        None
    }
}

/// Whether a quad of another entity uses the mesh of quad `k`.
pub open spec fn mesh_shared(qs: Seq<OverlayQuadInfo>, k: int) -> bool {
    exists|j: int|
        0 <= j < qs.len() && #[trigger] qs[j].entity != qs[k].entity && qs[j].mesh == qs[k].mesh
}

/// The action for one mutation, judged against the quads that existed when
/// the frame began: a tile that became walkable gets a quad unless one
/// covers it already (reusing the first quad's mesh, if any); a tile that
/// became a wall loses the first quad that covers it.
pub open spec fn action_for(qs: Seq<OverlayQuadInfo>, ev: TileMutated) -> Option<OverlayAction> {
    if ev.kind == TileKind::Floor {
        if has_quad_at(qs, ev.position) {
            None
        } else {
            Some(
                OverlayAction::Spawn {
                    position: ev.position,
                    mesh: if qs.len() > 0 {
                        Some(qs[0].mesh)
                    } else {
                        None
                    },
                },
            )
        }
    } else {
        match first_quad_at(qs, ev.position) {
            Some(k) => Some(OverlayAction::Despawn { entity: qs[k].entity, free_mesh: !mesh_shared(qs, k) }),
            None => None,
        }
    }
}

/// The actions for a frame's mutations, in order.
pub open spec fn overlay_plan(qs: Seq<OverlayQuadInfo>, evs: Seq<TileMutated>) -> Seq<OverlayAction>
    decreases evs.len(),
{
    if evs.len() == 0 {
        Seq::empty()
    } else {
        let prev = overlay_plan(qs, evs.drop_last());
        match action_for(qs, evs.last()) {
            Some(a) => prev.push(a),
            None => prev,
        }
    }
}

/// A tile with a quad has a first quad.
proof fn lemma_first_quad_exists(qs: Seq<OverlayQuadInfo>, p: IVec2)
    requires
        has_quad_at(qs, p),
    ensures
        exists|i: int|
            0 <= i < qs.len() && qs[i].position == p && forall|j: int| 0 <= j < i ==> qs[j].position != p,
    decreases qs.len(),
{
    let init = qs.drop_last();
    if has_quad_at(init, p) {
        lemma_first_quad_exists(init, p);
        let i = choose|i: int|
            0 <= i < init.len() && init[i].position == p && forall|j: int|
                0 <= j < i ==> init[j].position != p;
        assert(qs[i] == init[i]);
        assert forall|j: int| 0 <= j < i implies qs[j].position != p by {
            assert(qs[j] == init[j]);
        }
    } else {
        let i = qs.len() - 1;
        let w = choose|w: int| 0 <= w < qs.len() && #[trigger] qs[w].position == p;
        if w < i {
            assert(init[w] == qs[w]);
        }
        assert forall|j: int| 0 <= j < i implies qs[j].position != p by {
            assert(qs[j] == init[j]);
        }
    }
}

/// The overlay never doubles a quad and never removes one for a walkable
/// tile: every quad a frame spawns lies on a tile that became walkable and
/// had no quad when the frame began, and every quad it despawns existed
/// then and lies on a tile that became a wall.
pub proof fn lemma_overlay_plan_sound(qs: Seq<OverlayQuadInfo>, evs: Seq<TileMutated>)
    ensures
        forall|a: int|
            0 <= a < overlay_plan(qs, evs).len() ==> match #[trigger] overlay_plan(qs, evs)[a] {
                OverlayAction::Spawn { position, .. } => !has_quad_at(qs, position) && exists|e: int|
                    0 <= e < evs.len() && evs[e] == TileMutated { position, kind: TileKind::Floor },
                OverlayAction::Despawn { entity, .. } => exists|k: int, e: int|
                    0 <= k < qs.len() && 0 <= e < evs.len() && qs[k].entity == entity
                        && evs[e] == TileMutated { position: qs[k].position, kind: TileKind::Wall },
            },
    decreases evs.len(),
{
    if evs.len() > 0 {
        let init = evs.drop_last();
        let ev = evs.last();
        lemma_overlay_plan_sound(qs, init);
        let prev = overlay_plan(qs, init);
        assert forall|a: int|
            0 <= a < overlay_plan(qs, evs).len() implies match #[trigger] overlay_plan(qs, evs)[a] {
            OverlayAction::Spawn { position, .. } => !has_quad_at(qs, position) && exists|e: int|
                0 <= e < evs.len() && evs[e] == TileMutated { position, kind: TileKind::Floor },
            OverlayAction::Despawn { entity, .. } => exists|k: int, e: int|
                0 <= k < qs.len() && 0 <= e < evs.len() && qs[k].entity == entity && evs[e]
                    == TileMutated { position: qs[k].position, kind: TileKind::Wall },
        } by {
            if a < prev.len() {
                assert(overlay_plan(qs, evs)[a] == prev[a]);
                match prev[a] {
                    OverlayAction::Spawn { position, .. } => {
                        let e = choose|e: int|
                            0 <= e < init.len() && init[e] == TileMutated { position, kind: TileKind::Floor };
                        assert(evs[e] == init[e]);
                    },
                    OverlayAction::Despawn { entity, .. } => {
                        let (k, e) = choose|k: int, e: int|
                            0 <= k < qs.len() && 0 <= e < init.len() && qs[k].entity == entity
                                && init[e] == TileMutated { position: qs[k].position, kind: TileKind::Wall };
                        assert(evs[e] == init[e]);
                    },
                }
            } else {
                let e = evs.len() - 1;
                assert(evs[e] == ev);
                if ev.kind == TileKind::Wall && has_quad_at(qs, ev.position) {
                    lemma_first_quad_exists(qs, ev.position);
                    let k = first_quad_at(qs, ev.position)->0;
                    assert(qs[k].position == ev.position);
                }
            }
        }
    }
}

/// The first quad covering `p`, by position in `quads`.
fn find_quad_at(quads: &Vec<OverlayQuadInfo>, p: IVec2) -> (r: Option<usize>)
    ensures
        match r {
            Some(k) => first_quad_at(quads@, p) == Some(k as int) && k < quads@.len(),
            None => !has_quad_at(quads@, p) && first_quad_at(quads@, p) is None,
        },
{
    let ghost qs = quads@;
    let mut i: usize = 0;
    while i < quads.len()
        invariant
            qs == quads@,
            i <= qs.len(),
            forall|j: int| 0 <= j < i ==> qs[j].position != p,
        decreases qs.len() - i,
    {
        if quads[i].position == p {
            proof {
                assert(qs[i as int].position == p);
                let c = choose|k: int|
                    0 <= k < qs.len() && qs[k].position == p && forall|j: int|
                        0 <= j < k ==> qs[j].position != p;
                assert(c == i) by {
                    if c < i {
                        assert(qs[c].position != p);
                    }
                    if c > i {
                        assert(qs[i as int].position != p);
                    }
                }
            }
            return Some(i);
        }
        i = i + 1;
    }
    proof {
        assert forall|j: int| 0 <= j < qs.len() implies #[trigger] qs[j].position != p by {}
    }
    None
}

/// Whether a quad of another entity than quad `k` uses its mesh.
fn mesh_in_use_elsewhere(quads: &Vec<OverlayQuadInfo>, k: usize) -> (r: bool)
    requires
        k < quads@.len(),
    ensures
        r == mesh_shared(quads@, k as int),
{
    let ghost qs = quads@;
    let entity = quads[k].entity;
    let mesh = quads[k].mesh;
    let mut i: usize = 0;
    while i < quads.len()
        invariant
            qs == quads@,
            k < qs.len(),
            entity == qs[k as int].entity,
            mesh == qs[k as int].mesh,
            i <= qs.len(),
            forall|j: int| 0 <= j < i ==> !(#[trigger] qs[j].entity != entity && qs[j].mesh == mesh),
        decreases qs.len() - i,
    {
        if quads[i].entity != entity && quads[i].mesh == mesh {
            return true;
        }
        i = i + 1;
    }
    false
}

/// The overlay actions for a frame's tile mutations, judged against the
/// quads that existed when the frame began; nothing happens while the
/// overlay is hidden.
pub fn plan_overlay_mutations(
    shown: bool,
    events: &Vec<TileMutated>,
    quads: &Vec<OverlayQuadInfo>,
) -> (r: Vec<OverlayAction>)
    ensures
        r@ == if shown {
            overlay_plan(quads@, events@)
        } else {
            Seq::<OverlayAction>::empty()
        },
{
    let mut out: Vec<OverlayAction> = Vec::new();
    if !shown {
        return out;
    }
    let mut i: usize = 0;
    while i < events.len()
        invariant
            i <= events@.len(),
            out@ == overlay_plan(quads@, events@.take(i as int)),
        decreases events@.len() - i,
    {
        let ev = events[i];
        proof {
            let t = events@.take(i as int + 1);
            assert(t.drop_last() =~= events@.take(i as int));
            assert(t.last() == ev);
        }
        if ev.kind.is_walkable() {
            match find_quad_at(quads, ev.position) {
                Some(_) => {},
                None => {
                    let mesh = if quads.len() > 0 {
                        Some(quads[0].mesh)
                    } else {
                        None
                    };
                    out.push(OverlayAction::Spawn { position: ev.position, mesh });
                },
            }
        } else {
            match find_quad_at(quads, ev.position) {
                Some(k) => {
                    let shared = mesh_in_use_elsewhere(quads, k);
                    out.push(OverlayAction::Despawn { entity: quads[k].entity, free_mesh: !shared });
                },
                None => {},
            }
        }
        i = i + 1;
    }
    assert(events@.take(events@.len() as int) =~= events@);
    out
}

/// The position of tile `i` of a grid of width `w`.
pub open spec fn tile_position(i: int, w: nat) -> IVec2 {
    IVec2 { x: (i % w as int) as i32, y: (i / w as int) as i32 }
}

/// The walkable tiles among the first `n` tiles, in row-major order, that
/// no quad in `existing` covers yet.
pub open spec fn missing_quads(g: GridView<TileKind>, existing: Seq<IVec2>, n: int) -> Seq<IVec2>
    decreases n,
{
    if n <= 0 {
        Seq::empty()
    } else {
        let prev = missing_quads(g, existing, n - 1);
        let p = tile_position(n - 1, g.width);
        if g.cell((n - 1) % g.width as int, (n - 1) / g.width as int) == Some(TileKind::Floor)
            && !existing.contains(p) {
            prev.push(p)
        } else {
            prev
        }
    }
}

/// Whether `p` is among `ps`.
fn contains_position(ps: &Vec<IVec2>, p: IVec2) -> (r: bool)
    ensures
        r == ps@.contains(p),
{
    let mut i: usize = 0;
    while i < ps.len()
        invariant
            i <= ps@.len(),
            forall|j: int| 0 <= j < i ==> ps@[j] != p,
        decreases ps@.len() - i,
    {
        if ps[i] == p {
            assert(ps@[i as int] == p);
            return true;
        }
        i = i + 1;
    }
    false
}

/// Where to spawn overlay quads this frame: while the overlay is shown and
/// a map exists, on every walkable tile without a quad, in row-major order,
/// when there are no quads yet or the map changed; otherwise nowhere.
pub fn overlay_spawn_positions(
    shown: bool,
    grid: Option<&TileGrid<TileKind>>,
    map_changed: bool,
    existing: &Vec<IVec2>,
) -> (r: Vec<IVec2>)
    ensures
        r@ == match grid {
            Some(g) => if shown && (existing@.len() == 0 || map_changed) {
                missing_quads(g@, existing@, (g@.width * g@.height) as int)
            } else {
                Seq::<IVec2>::empty()
            },
            None => Seq::<IVec2>::empty(),
        },
{
    let mut out: Vec<IVec2> = Vec::new();
    let grid = match grid {
        Some(g) => g,
        None => {
            return out;
        },
    };
    if !shown || (existing.len() > 0 && !map_changed) {
        return out;
    }
    proof {
        use_type_invariant(grid);
    }
    let w = grid.width();
    let h = grid.height();
    let ghost g = grid@;
    let mut y: u32 = 0;
    while y < h
        invariant
            g == grid@,
            g.wf(),
            w == g.width,
            h == g.height,
            y <= h,
            out@ == missing_quads(g, existing@, y * w),
        decreases h - y,
    {
        let mut x: u32 = 0;
        while x < w
            invariant
                g == grid@,
                g.wf(),
                w == g.width,
                h == g.height,
                y < h,
                x <= w,
                out@ == missing_quads(g, existing@, y * w + x),
            decreases w - x,
        {
            let pos = IVec2 { x: x as i32, y: y as i32 };
            proof {
                let n = y * w + x;
                lemma_fundamental_div_mod_converse(n, w as int, y as int, x as int);
                assert(0 <= y * w <= n) by (nonlinear_arith)
                    requires
                        n == y * w + x,
                        x >= 0,
                        y >= 0,
                        w >= 0,
                ;
                assert(tile_position(n, w as nat) == pos);
            }
            let walkable = match grid.get_copy(pos) {
                Some(k) => k.is_walkable(),
                None => false,
            };
            if walkable && !contains_position(existing, pos) {
                out.push(pos);
            }
            x = x + 1;
        }
        proof {
            assert(y * w + w == (y + 1) * w) by (nonlinear_arith);
        }
        y = y + 1;
    }
    assert(y * w == w * h) by (nonlinear_arith)
        requires
            y == h,
    ;
    out
}

/// Whether every overlay quad goes this frame: when the map is gone, or
/// when the overlay was hidden, as long as there are quads at all.
pub fn overlay_despawn_all(shown: bool, map_present: bool, quad_count: usize) -> (r: bool)
    ensures
        r == (quad_count > 0 && (!map_present || !shown)),
{
    quad_count > 0 && (!map_present || !shown)
}

} // verus!
