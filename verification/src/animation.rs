//! Animation state of creatures: its wire encoding, the lookup of the
//! animation-graph node that plays each state, and the search for the
//! entity of a creature's hierarchy that plays its animations.
use std::collections::{HashMap, HashSet};
use vstd::prelude::*;

use crate::items::EntityId;

verus! {

/// What a creature's body is doing.
#[derive(Clone, Copy, PartialEq, Eq, Debug, Structural)]
pub enum AnimState {
    Idle,
    Walk,
}

/// The wire byte of a state.
pub open spec fn anim_byte(s: AnimState) -> u8 {
    match s {
        AnimState::Idle => 0,
        AnimState::Walk => 1,
    }
}

/// The state a wire byte stands for; unknown bytes mean idle.
pub open spec fn anim_of_byte(b: u8) -> AnimState {
    if b == 1 {
        AnimState::Walk
    } else {
        AnimState::Idle
    }
}

impl Default for AnimState {
    fn default() -> (r: AnimState)
        ensures
            r == AnimState::Idle,
    {
        AnimState::Idle
    }
}

impl From<u8> for AnimState {
    fn from(value: u8) -> (r: AnimState) {
        if value == 1 {
            AnimState::Walk
        } else {
            AnimState::Idle
        }
    }
}

impl vstd::std_specs::convert::FromSpecImpl<u8> for AnimState {
    open spec fn obeys_from_spec() -> bool {
        true
    }

    open spec fn from_spec(value: u8) -> AnimState {
        anim_of_byte(value)
    }
}

impl From<AnimState> for u8 {
    fn from(state: AnimState) -> (r: u8) {
        match state {
            AnimState::Idle => 0,
            AnimState::Walk => 1,
        }
    }
}

impl vstd::std_specs::convert::FromSpecImpl<AnimState> for u8 {
    open spec fn obeys_from_spec() -> bool {
        true
    }

    open spec fn from_spec(state: AnimState) -> u8 {
        anim_byte(state)
    }
}

/// Encoding a state and decoding the byte gives the state back, and every
/// byte a state encodes to decodes to that state.
pub proof fn lemma_anim_byte_round_trip(s: AnimState, b: u8)
    ensures
        anim_of_byte(anim_byte(s)) == s,
        (b == 0 || b == 1) ==> anim_byte(anim_of_byte(b)) == b,
        b > 1 ==> anim_of_byte(b) == AnimState::Idle,
{
}

/// Maps animation states to nodes of an animation graph `G`.
pub struct AnimationController<G, N> {
    pub graph: G,
    pub state_map: Vec<(AnimState, N)>,
}

/// The node of the first entry of `m` for `state`.
pub open spec fn node_of<N>(m: Seq<(AnimState, N)>, state: AnimState) -> Option<N>
    decreases m.len(),
{
    if m.len() == 0 {
        None
    } else if m[0].0 == state {
        Some(m[0].1)
    } else {
        node_of(m.drop_first(), state)
    }
}

impl<G, N: Copy> AnimationController<G, N> {
    pub fn new(graph: G, state_map: Vec<(AnimState, N)>) -> (r: Self)
        ensures
            r.graph == graph,
            r.state_map@ == state_map@,
    {
        AnimationController { graph, state_map }
    }

    /// The graph node that plays `state`: the first one mapped to it.
    pub fn node_for(&self, state: AnimState) -> (r: Option<N>)
        ensures
            r == node_of(self.state_map@, state),
    {
        let ghost all = self.state_map@;
        assert(all.subrange(0, all.len() as int) =~= all);
        let mut i: usize = 0;
        while i < self.state_map.len()
            invariant
                all == self.state_map@,
                i <= all.len(),
                node_of(all, state) == node_of(all.subrange(i as int, all.len() as int), state),
            decreases all.len() - i,
        {
            proof {
                let t = all.subrange(i as int, all.len() as int);
                assert(t.drop_first() =~= all.subrange(i as int + 1, all.len() as int));
            }
            let (s, n) = self.state_map[i];
            if s == state {
                return Some(n);
            }
            i = i + 1;
        }
        None
    }
}

/// The state of a creature from whether it moves faster than the walking
/// threshold (decided by the caller on its velocity).
pub fn anim_state_for(moving: bool) -> (r: AnimState)
    ensures
        r == if moving {
            AnimState::Walk
        } else {
            AnimState::Idle
        },
{
    if moving {
        AnimState::Walk
    } else {
        AnimState::Idle
    }
}

/// The children of `e` in `children` (none when it has no entry).
pub open spec fn kids(children: Map<u64, Vec<EntityId>>, e: EntityId) -> Seq<EntityId> {
    if children.contains_key(e.0) {
        children[e.0]@
    } else {
        Seq::empty()
    }
}

/// The entities one level below `level`, in order: the children of its
/// first entity, then of its second, and so on.
pub open spec fn next_level(children: Map<u64, Vec<EntityId>>, level: Seq<EntityId>) -> Seq<EntityId>
    decreases level.len(),
{
    if level.len() == 0 {
        Seq::empty()
    } else {
        next_level(children, level.drop_last()) + kids(children, level.last())
    }
}

/// The first entity of `level` that has an animation player.
pub open spec fn first_player(players: Set<u64>, level: Seq<EntityId>) -> Option<EntityId>
    decreases level.len(),
{
    if level.len() == 0 {
        None
    } else if players.contains(level[0].0) {
        Some(level[0])
    } else {
        first_player(players, level.drop_first())
    }
}

/// Breadth-first search from `level` down `depth` more levels: the first
/// entity with an animation player, level by level, each level in order.
pub open spec fn find_player_from(
    children: Map<u64, Vec<EntityId>>,
    players: Set<u64>,
    level: Seq<EntityId>,
    depth: nat,
) -> Option<EntityId>
    decreases depth,
{
    match first_player(players, level) {
        Some(e) => Some(e),
        None => if depth == 0 {
            None
        } else {
            find_player_from(children, players, next_level(children, level), (depth - 1) as nat)
        },
    }
}

/// The first entity of `level` that has an animation player and, when
/// there is none, the entities one level below `level`.
fn scan_level(
    children: &HashMap<u64, Vec<EntityId>>,
    players: &HashSet<u64>,
    level: &Vec<EntityId>,
) -> (r: (Option<EntityId>, Vec<EntityId>))
    ensures
        r.0 == first_player(players@, level@),
        r.0 is None ==> r.1@ == next_level(children@, level@),
{
    let ghost all = level@;
    let mut next: Vec<EntityId> = Vec::new();
    let mut i: usize = 0;
    assert(all.subrange(0, all.len() as int) =~= all);
    while i < level.len()
        invariant
            all == level@,
            i <= all.len(),
            first_player(players@, all) == first_player(players@, all.subrange(i as int, all.len() as int)),
            next@ == next_level(children@, all.take(i as int)),
        decreases all.len() - i,
    {
        let e = level[i];
        proof {
            let t = all.subrange(i as int, all.len() as int);
            assert(t[0] == e);
            assert(t.drop_first() =~= all.subrange(i as int + 1, all.len() as int));
        }
        if players.contains(&e.0) {
            return (Some(e), next);
        }
        let ghost before = next@;
        match children.get(&e.0) {
            Some(cs) => {
                let mut j: usize = 0;
                while j < cs.len()
                    invariant
                        j <= cs@.len(),
                        next@ == before + cs@.take(j as int),
                    decreases cs@.len() - j,
                {
                    next.push(cs[j]);
                    assert(before + cs@.take(j as int + 1) =~= (before + cs@.take(j as int)).push(cs@[j as int]));
                    j = j + 1;
                }
                assert(cs@.take(cs@.len() as int) =~= cs@);
            },
            None => {},
        }
        proof {
            let t = all.take(i as int + 1);
            assert(t.drop_last() =~= all.take(i as int));
            assert(t.last() == e);
            assert(next@ =~= next_level(children@, all.take(i as int)) + kids(children@, e));
        }
        i = i + 1;
    }
    assert(all.take(all.len() as int) =~= all);
    assert(all.subrange(all.len() as int, all.len() as int) =~= Seq::<EntityId>::empty());
    (None, next)
}

/// The entity of `root`'s hierarchy that plays its animations: `root`
/// itself if it has an animation player, else the first descendant with one
/// in breadth-first order.  The search goes `depth` levels down; a
/// hierarchy of `n` entities is never deeper than `n`.
pub fn find_animation_player(
    children: &HashMap<u64, Vec<EntityId>>,
    players: &HashSet<u64>,
    root: EntityId,
    depth: u64,
) -> (r: Option<EntityId>)
    ensures
        r == find_player_from(children@, players@, seq![root], depth as nat),
{
    let mut level: Vec<EntityId> = Vec::new();
    level.push(root);
    let mut left: u64 = depth;
    loop
        invariant
            find_player_from(children@, players@, level@, left as nat) == find_player_from(
                children@,
                players@,
                seq![root],
                depth as nat,
            ),
        decreases left,
    {
        let (found, next) = scan_level(children, players, &level);
        match found {
            Some(e) => {
                return Some(e);
            },
            None => {},
        }
        if left == 0 {
            return None;
        }
        level = next;
        left = left - 1;
    }
}

} // verus!
