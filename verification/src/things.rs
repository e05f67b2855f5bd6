//! Things: replicated world objects, the index from network ids to local
//! entities, the template registry, and the item events carried on the
//! things stream.
use std::collections::HashMap;
use std::collections::HashSet;
use vstd::prelude::*;

use crate::items::EntityId;
use crate::network::{ClientId, NetId, Server};

verus! {

broadcast use vstd::std_specs::hash::group_hash_axioms;

/// Maps replicated ids to local entities.
pub struct NetIdIndex(pub HashMap<u64, EntityId>);

impl NetIdIndex {
    /// The entities by replicated id.
    pub open spec fn entries(&self) -> Map<u64, EntityId> {
        self.0@
    }

    /// The local entity of `net_id`.
    pub fn get(&self, net_id: NetId) -> (r: Option<EntityId>)
        ensures
            r == self.entries().get(net_id.0),
    {
        match self.0.get(&net_id.0) {
            Some(e) => Some(*e),
            None => None,
        }
    }

    /// Records that `net_id` is `entity` here.
    pub fn insert(&mut self, net_id: NetId, entity: EntityId)
        ensures
            final(self).entries() == old(self).entries().insert(net_id.0, entity),
    {
        self.0.insert(net_id.0, entity);
    }

    /// Forgets `net_id`, returning the entity it was.
    pub fn remove(&mut self, net_id: NetId) -> (r: Option<EntityId>)
        ensures
            r == old(self).entries().get(net_id.0),
            final(self).entries() == old(self).entries().remove(net_id.0),
    {
        self.0.remove(&net_id.0)
    }
}

/// The index after recording `entities[i]` under id `first + i`, in order.
pub open spec fn index_with_fresh(m: Map<u64, EntityId>, first: int, entities: Seq<EntityId>) -> Map<
    u64,
    EntityId,
>
    decreases entities.len(),
{
    if entities.len() == 0 {
        m
    } else {
        index_with_fresh(m, first, entities.drop_last()).insert(
            (first + entities.len() - 1) as u64,
            entities.last(),
        )
    }
}

/// Gives each thing that has no replicated id yet the session's next id,
/// in order, and records it in the index; returns the ids handed out.
pub fn assign_missing_net_ids(server: &mut Server, index: &mut NetIdIndex, entities: &Vec<EntityId>) -> (r:
    Vec<NetId>)
    requires
        old(server).upcoming() + entities@.len() <= u64::MAX,
    ensures
        r@.len() == entities@.len(),
        forall|i: int| 0 <= i < r@.len() ==> (#[trigger] r@[i]).0 == old(server).upcoming() + i,
        final(server).upcoming() == old(server).upcoming() + entities@.len(),
        final(index).entries() == index_with_fresh(
            old(index).entries(),
            old(server).upcoming() as int,
            entities@,
        ),
{
    let ghost first = server.upcoming() as int;
    let ghost m0 = index.entries();
    let mut ids: Vec<NetId> = Vec::new();
    let mut i: usize = 0;
    while i < entities.len()
        invariant
            i <= entities@.len(),
            first + entities@.len() <= u64::MAX,
            server.upcoming() == first + i,
            ids@.len() == i,
            forall|j: int| 0 <= j < i ==> (#[trigger] ids@[j]).0 == first + j,
            index.entries() == index_with_fresh(m0, first, entities@.take(i as int)),
        decreases entities@.len() - i,
    {
        let id = server.next_net_id();
        index.insert(id, entities[i]);
        ids.push(id);
        proof {
            let t = entities@.take(i as int + 1);
            assert(t.drop_last() =~= entities@.take(i as int));
            assert(t.last() == entities@[i as int]);
        }
        i = i + 1;
    }
    assert(entities@.take(entities@.len() as int) =~= entities@);
    ids
}

/// An item interaction as replicated to clients.  The landing position of a
/// drop travels beside it.
#[derive(Debug, Clone, Copy, PartialEq, Eq, Structural)]
pub enum ItemEvent {
    PickedUp { item: NetId, holder: NetId },
    Dropped { item: NetId },
    Stored { item: NetId, container: NetId },
    Taken { item: NetId, holder: NetId },
}

/// A template registered under a name.
pub struct NamedTemplate {
    pub name: String,
    pub kind: u16,
}

/// The template kinds that have builders, and the names of the named ones.
/// The builders themselves live with the caller, keyed by kind.
pub struct ThingRegistry {
    templates: HashSet<u16>,
    visual_builders: HashSet<u16>,
    named: NamedList,
}

/// The named templates in registration order; no name and no kind occurs
/// twice.
struct NamedList {
    items: Vec<NamedTemplate>,
}

/// No name and no kind occurs twice in `named`.
pub open spec fn names_unique(named: Seq<(Seq<char>, u16)>) -> bool {
    forall|i: int, j: int|
        #![trigger named[i], named[j]]
        0 <= i < j < named.len() ==> named[i].0 != named[j].0 && named[i].1 != named[j].1
}

impl NamedList {
    spec fn pairs(self) -> Seq<(Seq<char>, u16)> {
        self.items@.map_values(|t: NamedTemplate| (t.name@, t.kind))
    }

    #[verifier::type_invariant]
    spec fn unique(self) -> bool {
        names_unique(self.pairs())
    }
}

/// The index in `named` of the template called `name`, if any.
pub open spec fn index_of_name(named: Seq<(Seq<char>, u16)>, name: Seq<char>) -> Option<int> {
    if exists|i: int| 0 <= i < named.len() && named[i].0 == name {
        Some(choose|i: int| 0 <= i < named.len() && named[i].0 == name)
    } else {
        None
    }
}

/// Whether `name` or `kind` is already taken in `named`.
pub open spec fn pair_taken(named: Seq<(Seq<char>, u16)>, name: Seq<char>, kind: u16) -> bool {
    exists|i: int| 0 <= i < named.len() && (named[i].0 == name || named[i].1 == kind)
}

/// The named templates after registering `name` for `kind`: unchanged when
/// the name or the kind is already taken, else the pair is added last.
pub open spec fn named_after(named: Seq<(Seq<char>, u16)>, name: Seq<char>, kind: u16) -> Seq<
    (Seq<char>, u16),
> {
    if pair_taken(named, name, kind) {
        named
    } else {
        named.push((name, kind))
    }
}

/// The kinds with builders after registering `name` for `kind`.
pub open spec fn kinds_after(
    kinds: Set<u16>,
    named: Seq<(Seq<char>, u16)>,
    name: Seq<char>,
    kind: u16,
) -> Set<u16> {
    if pair_taken(named, name, kind) {
        kinds
    } else {
        kinds.insert(kind)
    }
}

/// Registering `name` for `kind` into `named` would not conflict: wherever
/// the name occurs, it stands for `kind`, and the other way round.
pub open spec fn pair_fits(named: Seq<(Seq<char>, u16)>, name: Seq<char>, kind: u16) -> bool {
    forall|i: int| 0 <= i < named.len() ==> ((#[trigger] named[i]).0 == name <==> named[i].1 == kind)
}

impl ThingRegistry {
    /// The named templates as (name, kind), in registration order.
    pub closed spec fn named(&self) -> Seq<(Seq<char>, u16)> {
        self.named.pairs()
    }

    /// Kinds with a functional builder.
    pub closed spec fn functional_kinds(&self) -> Set<u16> {
        self.templates@
    }

    /// Kinds with a visual builder.
    pub closed spec fn visual_kinds(&self) -> Set<u16> {
        self.visual_builders@
    }

    /// No name and no kind is named twice; every registry keeps this.
    pub open spec fn wf(&self) -> bool {
        names_unique(self.named())
    }


    /// The kind named `name`.
    pub open spec fn kind_named(&self, name: Seq<char>) -> Option<u16> {
        if exists|i: int| 0 <= i < self.named().len() && self.named()[i].0 == name {
            Some(self.named()[choose|i: int| 0 <= i < self.named().len() && self.named()[i].0 == name].1)
        } else {
            None
        }
    }

    /// The name of `kind`.
    pub open spec fn name_of(&self, kind: u16) -> Option<Seq<char>> {
        if exists|i: int| 0 <= i < self.named().len() && self.named()[i].1 == kind {
            Some(self.named()[choose|i: int| 0 <= i < self.named().len() && self.named()[i].1 == kind].0)
        } else {
            None
        }
    }

    /// An empty registry.
    pub fn new() -> (r: ThingRegistry)
        ensures
            r.wf(),
            r.named() == Seq::<(Seq<char>, u16)>::empty(),
            r.functional_kinds() == Set::<u16>::empty(),
            r.visual_kinds() == Set::<u16>::empty(),
    {
        let r = ThingRegistry { templates: HashSet::new(), visual_builders: HashSet::new(), named: NamedList { items: Vec::new() } };
        assert(r.named() =~= Seq::<(Seq<char>, u16)>::empty());
        r
    }

    /// Records a functional builder for `kind`, with no name.
    pub fn register(&mut self, kind: u16)
        ensures
            final(self).functional_kinds() == old(self).functional_kinds().insert(kind),
            final(self).visual_kinds() == old(self).visual_kinds(),
            final(self).named() == old(self).named(),
    {
        self.templates.insert(kind);
    }

    /// Records a visual builder for `kind`.
    pub fn register_visual(&mut self, kind: u16)
        ensures
            final(self).visual_kinds() == old(self).visual_kinds().insert(kind),
            final(self).functional_kinds() == old(self).functional_kinds(),
            final(self).named() == old(self).named(),
    {
        self.visual_builders.insert(kind);
    }

    /// Position of the template named `name`.
    fn find_name(&self, name: &String) -> (r: Option<usize>)
        ensures
            match r {
                Some(i) => i < self.named().len() && self.named()[i as int].0 == name@,
                None => forall|i: int| 0 <= i < self.named().len() ==> self.named()[i].0 != name@,
            },
    {
        let mut i: usize = 0;
        while i < self.named.items.len()
            invariant
                i <= self.named.items@.len(),
                forall|j: int| 0 <= j < i ==> self.named()[j].0 != name@,
            decreases self.named.items@.len() - i,
        {
            if self.named.items[i].name == *name {
                return Some(i);
            }
            i = i + 1;
        }
        None
    }

    /// Position of the template of kind `kind`.
    fn find_kind(&self, kind: u16) -> (r: Option<usize>)
        ensures
            match r {
                Some(i) => i < self.named().len() && self.named()[i as int].1 == kind,
                None => forall|i: int| 0 <= i < self.named().len() ==> self.named()[i].1 != kind,
            },
    {
        let mut i: usize = 0;
        while i < self.named.items.len()
            invariant
                i <= self.named.items@.len(),
                forall|j: int| 0 <= j < i ==> self.named()[j].1 != kind,
            decreases self.named.items@.len() - i,
        {
            if self.named.items[i].kind == kind {
                return Some(i);
            }
            i = i + 1;
        }
        None
    }

    /// Registers a template under `name` with kind `kind`, with both a
    /// visual and a functional builder.  Registering the same pair again
    /// changes nothing; the name may not already stand for another kind, nor
    /// the kind already carry another name.
    pub fn register_named(&mut self, name: &str, kind: u16)
        requires
            old(self).kind_named(name@) is Some ==> old(self).kind_named(name@) == Some(kind),
            old(self).name_of(kind) is Some ==> old(self).name_of(kind) == Some(name@),
        ensures
            final(self).wf(),
            (old(self).kind_named(name@) is Some || old(self).name_of(kind) is Some) ==> {
                &&& final(self).named() == old(self).named()
                &&& final(self).functional_kinds() == old(self).functional_kinds()
                &&& final(self).visual_kinds() == old(self).visual_kinds()
            },
            (old(self).kind_named(name@) is None && old(self).name_of(kind) is None) ==> {
                &&& final(self).named() == old(self).named().push((name@, kind))
                &&& final(self).functional_kinds() == old(self).functional_kinds().insert(kind)
                &&& final(self).visual_kinds() == old(self).visual_kinds().insert(kind)
            },
            final(self).named() == named_after(old(self).named(), name@, kind),
            final(self).functional_kinds() == kinds_after(
                old(self).functional_kinds(),
                old(self).named(),
                name@,
                kind,
            ),
            final(self).visual_kinds() == kinds_after(
                old(self).visual_kinds(),
                old(self).named(),
                name@,
                kind,
            ),
    {
        proof {
            use_type_invariant(&self.named);
        }
        let name_s = String::from_str(name);
        if self.find_name(&name_s).is_some() {
            return;
        }
        if self.find_kind(kind).is_some() {
            return;
        }
        let ghost before = self.named();
        let mut list = NamedList { items: Vec::new() };
        std::mem::swap(&mut list, &mut self.named);
        let NamedList { items } = list;
        let mut named = items;
        named.push(NamedTemplate { name: name_s, kind });
        proof {
            let after = named@.map_values(|t: NamedTemplate| (t.name@, t.kind));
            assert(after =~= before.push((name@, kind)));
            assert forall|i: int, j: int| 0 <= i < j < after.len() implies after[i].0 != after[j].0
                && after[i].1 != after[j].1 by {
                if j == before.len() {
                    assert(after[i] == before[i]);
                } else {
                    assert(after[i] == before[i] && after[j] == before[j]);
                }
            }
        }
        self.named = NamedList { items: named };
        assert(self.named() =~= before.push((name@, kind)));
        self.register_visual(kind);
        self.register(kind);
    }

    /// The kind of the template called `name`.
    pub fn kind_by_name(&self, name: &str) -> (r: Option<u16>)
        ensures
            r == self.kind_named(name@),
    {
        proof {
            use_type_invariant(&self.named);
        }
        let name_s = String::from_str(name);
        match self.find_name(&name_s) {
            Some(i) => {
                proof {
                    let c = choose|j: int| 0 <= j < self.named().len() && self.named()[j].0 == name@;
                    assert(c == i);
                }
                Some(self.named.items[i].kind)
            },
            None => None,
        }
    }

    /// The name of the template of kind `kind`.
    pub fn name_by_kind(&self, kind: u16) -> (r: Option<&str>)
        ensures
            match r {
                Some(n) => self.name_of(kind) == Some(n@),
                None => self.name_of(kind) is None,
            },
    {
        proof {
            use_type_invariant(&self.named);
        }
        match self.find_kind(kind) {
            Some(i) => {
                proof {
                    let c = choose|j: int| 0 <= j < self.named().len() && self.named()[j].1 == kind;
                    assert(c == i);
                }
                Some(self.named.items[i].name.as_str())
            },
            None => None,
        }
    }

    /// Every named template as (name, kind), in registration order.
    pub fn named_templates(&self) -> (r: Vec<(&str, u16)>)
        ensures
            r@.len() == self.named().len(),
            forall|i: int|
                0 <= i < r@.len() ==> (#[trigger] r@[i]).0@ == self.named()[i].0 && r@[i].1
                    == self.named()[i].1,
    {
        let mut out: Vec<(&str, u16)> = Vec::new();
        let mut i: usize = 0;
        while i < self.named.items.len()
            invariant
                i <= self.named.items@.len(),
                out@.len() == i,
                forall|j: int|
                    0 <= j < i ==> (#[trigger] out@[j]).0@ == self.named()[j].0 && out@[j].1
                        == self.named()[j].1,
            decreases self.named.items@.len() - i,
        {
            let n: &str = self.named.items[i].name.as_str();
            out.push((n, self.named.items[i].kind));
            i = i + 1;
        }
        out
    }

    /// Whether a functional builder exists for `kind`.
    pub fn has_template(&self, kind: u16) -> (r: bool)
        ensures
            r == self.functional_kinds().contains(kind),
    {
        self.templates.contains(&kind)
    }

    /// Whether a visual builder exists for `kind`.
    pub fn has_visual(&self, kind: u16) -> (r: bool)
        ensures
            r == self.visual_kinds().contains(kind),
    {
        self.visual_builders.contains(&kind)
    }
}

/// Registering a name, then asking for it, gives its kind back, and asking
/// for the kind gives the name back.
pub proof fn lemma_named_lookup_round_trip(reg: ThingRegistry, name: Seq<char>, kind: u16)
    requires
        reg.wf(),
        reg.named().contains((name, kind)),
    ensures
        reg.kind_named(name) == Some(kind),
        reg.name_of(kind) == Some(name),
{
    let i = choose|i: int| 0 <= i < reg.named().len() && reg.named()[i] == (name, kind);
    assert(reg.named()[i].0 == name);
    assert(reg.named()[i].1 == kind);
}

/// The kinds of spawn templates by name, up to the first unknown name.
pub struct SpawnTemplates {
    /// The kind of each template, in order, before the first unknown one.
    pub kinds: Vec<u16>,
    /// The first template name that no template carries.
    pub unknown: Option<String>,
}

/// Looks up the kind of each spawn point's template, in order, stopping at
/// the first name that is not registered.
pub fn resolve_spawn_templates(registry: &ThingRegistry, names: &Vec<String>) -> (r: SpawnTemplates)
    ensures
        r.kinds@.len() <= names@.len(),
        forall|i: int| 0 <= i < r.kinds@.len() ==> registry.kind_named(names@[i]@) == Some(#[trigger] r.kinds@[i]),
        match r.unknown {
            Some(n) => r.kinds@.len() < names@.len() && n@ == names@[r.kinds@.len() as int]@
                && registry.kind_named(n@) is None,
            None => r.kinds@.len() == names@.len(),
        },
{
    let mut kinds: Vec<u16> = Vec::new();
    let mut i: usize = 0;
    while i < names.len()
        invariant
            i <= names@.len(),
            kinds@.len() == i,
            forall|j: int| 0 <= j < i ==> registry.kind_named(names@[j]@) == Some(#[trigger] kinds@[j]),
        decreases names@.len() - i,
    {
        match registry.kind_by_name(names[i].as_str()) {
            Some(k) => {
                kinds.push(k);
            },
            None => {
                return SpawnTemplates { kinds, unknown: Some(names[i].clone()) };
            },
        }
        i = i + 1;
    }
    SpawnTemplates { kinds, unknown: None }
}

/// The marker entities spawned by the "spawns" map layer, each with the
/// template kind it was spawned as, in the order they were spawned.
pub struct SpawnMarkers {
    markers: Vec<(EntityId, u16)>,
}

impl View for SpawnMarkers {
    type V = Seq<(EntityId, u16)>;

    closed spec fn view(&self) -> Seq<(EntityId, u16)> {
        self.markers@
    }
}

/// The spawn points that saving the markers writes: each marker whose kind
/// has a name, as (entity, template name), in marker order; markers of an
/// unnamed kind are skipped.
pub open spec fn saved_spawn_points(reg: ThingRegistry, markers: Seq<(EntityId, u16)>) -> Seq<
    (EntityId, Seq<char>),
>
    decreases markers.len(),
{
    if markers.len() == 0 {
        Seq::empty()
    } else {
        let prev = saved_spawn_points(reg, markers.drop_last());
        match reg.name_of(markers.last().1) {
            Some(n) => prev.push((markers.last().0, n)),
            None => prev,
        }
    }
}

impl SpawnMarkers {
    /// No markers.
    pub fn new() -> (r: SpawnMarkers)
        ensures
            r@ == Seq::<(EntityId, u16)>::empty(),
    {
        SpawnMarkers { markers: Vec::new() }
    }

    /// Loads the spawn points whose templates are `templates`: for each
    /// point in order, the entity `spawn_as[i]` that the caller spawns for
    /// it becomes a marker of the kind its template names.  Loading stops
    /// at the first template that is not registered, with its error
    /// message; the markers spawned before it stay.
    pub fn load(&mut self, registry: &ThingRegistry, templates: &Vec<String>, spawn_as: &Vec<EntityId>) -> (r:
        Result<(), String>)
        requires
            spawn_as@.len() == templates@.len(),
        ensures
            ({
                let n = final(self)@.len() - old(self)@.len();
                &&& 0 <= n <= templates@.len()
                &&& final(self)@.subrange(0, old(self)@.len() as int) == old(self)@
                &&& forall|i: int|
                    0 <= i < n ==> (#[trigger] final(self)@[old(self)@.len() + i]).0 == spawn_as@[i]
                        && registry.kind_named(templates@[i]@) == Some(
                        final(self)@[old(self)@.len() + i].1,
                    )
                &&& (r is Ok) == (n == templates@.len())
                &&& r matches Err(m) ==> registry.kind_named(templates@[n]@) is None && m@
                    == "unknown spawn template: \""@ + templates@[n]@ + "\""@
            }),
    {
        let mut added: Vec<(EntityId, u16)> = Vec::new();
        let mut i: usize = 0;
        while i < templates.len()
            invariant
                spawn_as@.len() == templates@.len(),
                i <= templates@.len(),
                added@.len() == i,
                self.markers@ == old(self).markers@,
                forall|j: int|
                    0 <= j < i ==> (#[trigger] added@[j]).0 == spawn_as@[j] && registry.kind_named(
                        templates@[j]@,
                    ) == Some(added@[j].1),
            decreases templates@.len() - i,
        {
            match registry.kind_by_name(templates[i].as_str()) {
                Some(k) => {
                    added.push((spawn_as[i], k));
                },
                None => {
                    let m = unknown_template_message(templates[i].as_str());
                    let ghost a = added@;
                    self.markers.append(&mut added);
                    assert(self.markers@.subrange(0, old(self)@.len() as int) =~= old(self)@);
                    assert forall|j: int| 0 <= j < a.len() implies
                        #[trigger] self.markers@[old(self)@.len() + j] == a[j] by {}
                    return Err(m);
                },
            }
            i = i + 1;
        }
        let ghost a = added@;
        self.markers.append(&mut added);
        assert(self.markers@.subrange(0, old(self)@.len() as int) =~= old(self)@);
        assert forall|j: int| 0 <= j < a.len() implies #[trigger] self.markers@[old(self)@.len()
            + j] == a[j] by {}
        Ok(())
    }

    /// Unloads the layer: every marker goes, and the entities to despawn are
    /// handed back in marker order.
    pub fn unload(&mut self) -> (r: Vec<EntityId>)
        ensures
            final(self)@ == Seq::<(EntityId, u16)>::empty(),
            r@ == old(self)@.map_values(|m: (EntityId, u16)| m.0),
    {
        let mut out: Vec<EntityId> = Vec::new();
        let mut i: usize = 0;
        while i < self.markers.len()
            invariant
                i <= self.markers@.len(),
                out@ == self.markers@.take(i as int).map_values(|m: (EntityId, u16)| m.0),
            decreases self.markers@.len() - i,
        {
            out.push(self.markers[i].0);
            assert(self.markers@.take(i as int + 1).map_values(|m: (EntityId, u16)| m.0)
                =~= out@);
            i = i + 1;
        }
        assert(self.markers@.take(i as int) =~= self.markers@);
        self.markers = Vec::new();
        out
    }

    /// The spawn points to save: each marker whose kind has a name, with
    /// that name, in marker order (see `saved_spawn_points`).
    pub fn saved_points(&self, registry: &ThingRegistry) -> (r: Vec<(EntityId, String)>)
        ensures
            r@.map_values(|p: (EntityId, String)| (p.0, p.1@)) == saved_spawn_points(
                *registry,
                self@,
            ),
    {
        let mut out: Vec<(EntityId, String)> = Vec::new();
        let mut i: usize = 0;
        while i < self.markers.len()
            invariant
                i <= self.markers@.len(),
                out@.map_values(|p: (EntityId, String)| (p.0, p.1@)) == saved_spawn_points(
                    *registry,
                    self.markers@.take(i as int),
                ),
            decreases self.markers@.len() - i,
        {
            let (e, k) = self.markers[i];
            proof {
                let t = self.markers@.take(i as int + 1);
                assert(t.drop_last() =~= self.markers@.take(i as int));
            }
            match registry.name_by_kind(k) {
                Some(n) => {
                    let ghost prev = out@;
                    out.push((e, String::from_str(n)));
                    assert(out@.map_values(|p: (EntityId, String)| (p.0, p.1@)) =~= prev.map_values(
                        |p: (EntityId, String)| (p.0, p.1@),
                    ).push((e, n@)));
                },
                None => {},
            }
            i = i + 1;
        }
        assert(self.markers@.take(i as int) =~= self.markers@);
        out
    }
}

/// The message of the error for an unknown spawn template.
pub fn unknown_template_message(name: &str) -> (r: String)
    ensures
        r@ == "unknown spawn template: \""@ + name@ + "\""@,
{
    let mut r = String::from_str("unknown spawn template: \"");
    r.append(name);
    r.append("\"");
    r
}

/// The owner to announce to a joining client in a catch-up spawn: the
/// entity's controller when that is the joining client, else none.
pub fn catch_up_owner(controlled_by: Option<ClientId>, joining: ClientId) -> (r: Option<ClientId>)
    ensures
        r == if controlled_by == Some(joining) {
            Some(joining)
        } else {
            None::<ClientId>
        },
{
    match controlled_by {
        Some(c) => if c == joining {
            Some(c)
        } else {
            None
        },
        None => None,
    }
}

/// A message of the things stream as the client's lifecycle handling reads
/// it; positions and velocities travel beside it.
pub enum LifecycleMessage {
    Spawned { net_id: NetId, owner: Option<ClientId>, name: Option<String> },
    Despawned { net_id: NetId },
    StateUpdate { net_ids: Vec<NetId> },
}

/// What the client does for one lifecycle message.
pub enum LifecycleAction {
    /// The entity is known already (a listen server spawned it): add the
    /// client-side components only.
    Decorate { entity: EntityId, controlled: bool, show_name: bool },
    /// Spawn `entity` as the replica, add the client-side components; the
    /// index records it under the message's id.
    SpawnNew { entity: EntityId, controlled: bool, show_name: bool },
    /// Despawn this entity, if any; it has left the index.
    Despawn(Option<EntityId>),
    /// Apply each state to the entity of its id, where known.
    ApplyStates(Vec<Option<EntityId>>),
    /// Ignore the update (a listen server's transforms are authoritative).
    Skip,
}

/// Whether a spawned entity is this client's own: it has an owner, and the
/// owner is this client.
pub open spec fn is_controlled(owner: Option<ClientId>, local: Option<ClientId>) -> bool {
    owner is Some && owner == local
}

impl NetIdIndex {
    /// The entity of each id, where known.
    fn lookup_all(&self, ids: &Vec<NetId>) -> (r: Vec<Option<EntityId>>)
        ensures
            r@.len() == ids@.len(),
            forall|i: int| 0 <= i < r@.len() ==> #[trigger] r@[i] == self.entries().get(ids@[i].0),
    {
        let mut out: Vec<Option<EntityId>> = Vec::new();
        let mut i: usize = 0;
        while i < ids.len()
            invariant
                i <= ids@.len(),
                out@.len() == i,
                forall|j: int| 0 <= j < i ==> #[trigger] out@[j] == self.entries().get(ids@[j].0),
            decreases ids@.len() - i,
        {
            out.push(self.get(ids[i]));
            i = i + 1;
        }
        out
    }

    /// Decides what the client does with one lifecycle message.  A spawn of
    /// an unknown id spawns `spawn_as`, the entity the caller creates for
    /// it, and records it under the id, so a repeated spawn message only
    /// decorates it; a despawn forgets the id.
    pub fn plan_lifecycle(
        &mut self,
        msg: &LifecycleMessage,
        local: Option<ClientId>,
        listen_server: bool,
        spawn_as: EntityId,
    ) -> (r: LifecycleAction)
        ensures
            match *msg {
                LifecycleMessage::Spawned { net_id, owner, name } => {
                    let show = name is Some && name->0@.len() > 0;
                    if old(self).entries().contains_key(net_id.0) {
                        &&& final(self).entries() == old(self).entries()
                        &&& r matches LifecycleAction::Decorate { entity, controlled, show_name }
                            && old(self).entries()[net_id.0] == entity
                            && controlled == is_controlled(owner, local) && show_name == show
                    } else {
                        &&& final(self).entries() == old(self).entries().insert(net_id.0, spawn_as)
                        &&& r matches LifecycleAction::SpawnNew { entity, controlled, show_name }
                            && entity == spawn_as
                            && controlled == is_controlled(owner, local) && show_name == show
                    }
                },
                LifecycleMessage::Despawned { net_id } => {
                    &&& final(self).entries() == old(self).entries().remove(net_id.0)
                    &&& r == LifecycleAction::Despawn(old(self).entries().get(net_id.0))
                },
                LifecycleMessage::StateUpdate { net_ids } => {
                    &&& final(self).entries() == old(self).entries()
                    &&& if listen_server {
                        r == LifecycleAction::Skip
                    } else {
                        r matches LifecycleAction::ApplyStates(es) && es@.len() == net_ids@.len()
                            && forall|i: int|
                            0 <= i < es@.len() ==> #[trigger] es@[i] == old(self).entries().get(
                                net_ids@[i].0,
                            )
                    }
                },
            },
    {
        match msg {
            LifecycleMessage::Spawned { net_id, owner, name } => {
                let controlled = match owner {
                    Some(o) => match local {
                        Some(l) => *o == l,
                        None => false,
                    },
                    None => false,
                };
                let show_name = match name {
                    Some(n) => n.as_str().unicode_len() > 0,
                    None => false,
                };
                match self.get(*net_id) {
                    Some(entity) => LifecycleAction::Decorate { entity, controlled, show_name },
                    None => {
                        self.insert(*net_id, spawn_as);
                        LifecycleAction::SpawnNew { entity: spawn_as, controlled, show_name }
                    },
                }
            },
            LifecycleMessage::Despawned { net_id } => LifecycleAction::Despawn(self.remove(*net_id)),
            LifecycleMessage::StateUpdate { net_ids } => {
                if listen_server {
                    LifecycleAction::Skip
                } else {
                    LifecycleAction::ApplyStates(self.lookup_all(net_ids))
                }
            },
        }
    }
}

/// Template kind of a creature.
pub const CREATURE_TEMPLATE: u16 = 0;
/// Template kind of a bouncing ball.
pub const BALL_TEMPLATE: u16 = 1;
/// Template kind of a can, an item.
pub const CAN_TEMPLATE: u16 = 2;
/// Template kind of a toolbox, an item that is also a container.
pub const TOOLBOX_TEMPLATE: u16 = 3;
/// Number of slots of a toolbox.
pub const TOOLBOX_CAPACITY: usize = 6;

/// The four standard templates as (name, kind), in registration order.
pub open spec fn standard_pairs() -> Seq<(Seq<char>, u16)> {
    seq![
        ("creature"@, CREATURE_TEMPLATE),
        ("ball"@, BALL_TEMPLATE),
        ("can"@, CAN_TEMPLATE),
        ("toolbox"@, TOOLBOX_TEMPLATE),
    ]
}

/// The named templates after registering the first `n` standard pairs.
pub open spec fn named_after_standard(named: Seq<(Seq<char>, u16)>, n: nat) -> Seq<(Seq<char>, u16)>
    decreases n,
{
    if n == 0 {
        named
    } else {
        let prev = named_after_standard(named, (n - 1) as nat);
        named_after(prev, standard_pairs()[n - 1].0, standard_pairs()[n - 1].1)
    }
}

/// The kinds with builders after registering the first `n` standard pairs.
pub open spec fn kinds_after_standard(kinds: Set<u16>, named: Seq<(Seq<char>, u16)>, n: nat) -> Set<u16>
    decreases n,
{
    if n == 0 {
        kinds
    } else {
        kinds_after(
            kinds_after_standard(kinds, named, (n - 1) as nat),
            named_after_standard(named, (n - 1) as nat),
            standard_pairs()[n - 1].0,
            standard_pairs()[n - 1].1,
        )
    }
}

/// Registers the game's named templates "creature", "ball", "can" and
/// "toolbox", kinds 0 to 3, each with a visual and a functional builder,
/// one after another into whatever `registry` already holds: a pair whose
/// name or kind is taken already is left as it is.  None of the four may
/// conflict with what is registered (a name standing for another kind, or
/// a kind under another name).
pub fn register_standard_templates(registry: &mut ThingRegistry)
    requires
        forall|k: int|
            0 <= k < 4 ==> pair_fits(
                old(registry).named(),
                #[trigger] standard_pairs()[k].0,
                standard_pairs()[k].1,
            ),
    ensures
        final(registry).wf(),
        final(registry).named() == named_after_standard(old(registry).named(), 4),
        final(registry).functional_kinds() == kinds_after_standard(
            old(registry).functional_kinds(),
            old(registry).named(),
            4,
        ),
        final(registry).visual_kinds() == kinds_after_standard(
            old(registry).visual_kinds(),
            old(registry).named(),
            4,
        ),
{
    proof {
        reveal_strlit("creature");
        reveal_strlit("ball");
        reveal_strlit("can");
        reveal_strlit("toolbox");
        assert("creature"@.len() == 8 && "ball"@.len() == 4 && "can"@.len() == 3
            && "toolbox"@.len() == 7);
        assert("creature"@ != "ball"@ && "creature"@ != "can"@ && "creature"@ != "toolbox"@
            && "ball"@ != "can"@ && "ball"@ != "toolbox"@ && "can"@ != "toolbox"@);
        reveal_with_fuel(named_after_standard, 5);
        reveal_with_fuel(kinds_after_standard, 5);
    }
    let ghost n0 = registry.named();
    proof {
        assert(pair_fits(n0, standard_pairs()[0].0, standard_pairs()[0].1));
        assert(pair_fits(n0, standard_pairs()[1].0, standard_pairs()[1].1));
        assert(pair_fits(n0, standard_pairs()[2].0, standard_pairs()[2].1));
        assert(pair_fits(n0, standard_pairs()[3].0, standard_pairs()[3].1));
        assert(standard_pairs()[0] == ("creature"@, CREATURE_TEMPLATE));
        assert(standard_pairs()[1] == ("ball"@, BALL_TEMPLATE));
        assert(standard_pairs()[2] == ("can"@, CAN_TEMPLATE));
        assert(standard_pairs()[3] == ("toolbox"@, TOOLBOX_TEMPLATE));
        lemma_fits_allows(n0, "creature"@, CREATURE_TEMPLATE);
    }
    registry.register_named("creature", CREATURE_TEMPLATE);
    proof {
        assert(standard_pairs()[1] == ("ball"@, BALL_TEMPLATE));
        lemma_fits_kept(n0, "creature"@, CREATURE_TEMPLATE, "ball"@, BALL_TEMPLATE);
        lemma_fits_allows(registry.named(), "ball"@, BALL_TEMPLATE);
    }
    let ghost n1 = registry.named();
    registry.register_named("ball", BALL_TEMPLATE);
    proof {
        assert(standard_pairs()[2] == ("can"@, CAN_TEMPLATE));
        lemma_fits_kept(n0, "creature"@, CREATURE_TEMPLATE, "can"@, CAN_TEMPLATE);
        lemma_fits_kept(n1, "ball"@, BALL_TEMPLATE, "can"@, CAN_TEMPLATE);
        lemma_fits_allows(registry.named(), "can"@, CAN_TEMPLATE);
    }
    let ghost n2 = registry.named();
    registry.register_named("can", CAN_TEMPLATE);
    proof {
        assert(standard_pairs()[3] == ("toolbox"@, TOOLBOX_TEMPLATE));
        lemma_fits_kept(n0, "creature"@, CREATURE_TEMPLATE, "toolbox"@, TOOLBOX_TEMPLATE);
        lemma_fits_kept(n1, "ball"@, BALL_TEMPLATE, "toolbox"@, TOOLBOX_TEMPLATE);
        lemma_fits_kept(n2, "can"@, CAN_TEMPLATE, "toolbox"@, TOOLBOX_TEMPLATE);
        lemma_fits_allows(registry.named(), "toolbox"@, TOOLBOX_TEMPLATE);
    }
    registry.register_named("toolbox", TOOLBOX_TEMPLATE);
}

/// A pair that fits may be registered: the name, where it occurs, stands
/// for the kind, and the kind, where it occurs, carries the name.
proof fn lemma_fits_allows(named: Seq<(Seq<char>, u16)>, name: Seq<char>, kind: u16)
    requires
        pair_fits(named, name, kind),
    ensures
        (exists|i: int| 0 <= i < named.len() && named[i].0 == name) ==> named[choose|i: int|
            0 <= i < named.len() && named[i].0 == name].1 == kind,
        (exists|i: int| 0 <= i < named.len() && named[i].1 == kind) ==> named[choose|i: int|
            0 <= i < named.len() && named[i].1 == kind].0 == name,
{
}

/// Registering one pair keeps another pair with a different name and kind
/// fitting.
proof fn lemma_fits_kept(
    named: Seq<(Seq<char>, u16)>,
    name: Seq<char>,
    kind: u16,
    other: Seq<char>,
    other_kind: u16,
)
    requires
        pair_fits(named, other, other_kind),
        name != other,
        kind != other_kind,
    ensures
        pair_fits(named_after(named, name, kind), other, other_kind),
{
    let n2 = named_after(named, name, kind);
    assert forall|i: int| 0 <= i < n2.len() implies ((#[trigger] n2[i]).0 == other <==> n2[i].1
        == other_kind) by {
        if i < named.len() {
            assert(n2[i] == named[i]);
        }
    }
}

} // verus!
