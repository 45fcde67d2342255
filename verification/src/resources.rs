//! Shared game state: the registry of script-managed entities and their component data.

use crate::constants::PLAYER_ID;
use crate::str_map::StrMap;
use crate::text::str_eq;
use vstd::prelude::*;

verus! {

/// A JSON value, as scripts give component data.
#[verifier::external_type_specification]
#[verifier::external_body]
pub struct ExJsonValue(serde_json::Value);

/// Maps script entity identifiers to game entities (by their bits) and keeps the component
/// data that scripts attached to them.
pub struct EntityRegistry {
    /// Game entity of each identifier.
    pub by_id: StrMap<u64>,
    /// Component data of each identifier, by component name.
    pub components: StrMap<StrMap<serde_json::Value>>,
}

/// How a script-created entity looks, by its type.
#[derive(Clone, Copy, Debug, PartialEq, Eq)]
pub enum EntityStyle {
    /// A person: a blue cube of side 1.
    Npc,
    /// An effect: a yellow cube of side 0.5.
    Effect,
    /// Anything else: a grey cube of side 0.8.
    Plain,
}

/// The look of an entity of type `t`.
pub open spec fn style_of(t: Seq<char>) -> EntityStyle {
    if t == "npc"@ {
        EntityStyle::Npc
    } else if t == "effect"@ {
        EntityStyle::Effect
    } else {
        EntityStyle::Plain
    }
}

/// The look of a script-created entity of type `entity_type`.
pub fn entity_style(entity_type: &str) -> (r: EntityStyle)
    ensures
        r == style_of(entity_type@),
{
    if str_eq(entity_type, "npc") {
        EntityStyle::Npc
    } else if str_eq(entity_type, "effect") {
        EntityStyle::Effect
    } else {
        EntityStyle::Plain
    }
}

impl EntityRegistry {
    /// Well-formedness of both maps and of every component map.
    pub open spec fn wf(&self) -> bool {
        &&& self.by_id.wf()
        &&& self.components.wf()
        &&& forall|k: Seq<char>| #[trigger] self.components.map().dom().contains(k) ==> self.components.map()[k].wf()
    }

    /// The entities, by identifier.
    pub open spec fn entities(&self) -> Map<Seq<char>, u64> {
        self.by_id.map()
    }

    /// The component data, by identifier and then by component name.
    pub open spec fn component_data(&self) -> Map<Seq<char>, Map<Seq<char>, serde_json::Value>> {
        Map::new(
            |k: Seq<char>| self.components.map().dom().contains(k),
            |k: Seq<char>| self.components.map()[k].map(),
        )
    }

    /// An empty registry.
    pub fn new() -> (r: Self)
        ensures
            r.wf(),
            r.entities() == Map::<Seq<char>, u64>::empty(),
            r.component_data() == Map::<Seq<char>, Map<Seq<char>, serde_json::Value>>::empty(),
    {
        let r = EntityRegistry { by_id: StrMap::new(), components: StrMap::new() };
        assert(r.component_data() =~= Map::<Seq<char>, Map<Seq<char>, serde_json::Value>>::empty());
        r
    }

    /// Records that identifier `id` names game entity `entity`, replacing what it named.
    pub fn register(&mut self, id: String, entity: u64)
        requires
            old(self).wf(),
        ensures
            final(self).wf(),
            final(self).entities() == old(self).entities().insert(id@, entity),
            final(self).component_data() == old(self).component_data(),
    {
        let _ = self.by_id.insert(id, entity);
    }

    /// The game entity named `id`, if any.
    pub fn entity_of(&self, id: &str) -> (r: Option<u64>)
        requires
            self.wf(),
        ensures
            r == (if self.entities().dom().contains(id@) {
                Some(self.entities()[id@])
            } else {
                None
            }),
    {
        match self.by_id.get(id) {
            Some(e) => Some(*e),
            None => None,
        }
    }

    /// Forgets the entity named `id`: when it is known, its component data goes too and its
    /// game entity is returned, to be despawned; an unknown `id` changes nothing.
    pub fn destroy(&mut self, id: &str) -> (r: Option<u64>)
        requires
            old(self).wf(),
        ensures
            final(self).wf(),
            r == (if old(self).entities().dom().contains(id@) {
                Some(old(self).entities()[id@])
            } else {
                None
            }),
            final(self).entities() == old(self).entities().remove(id@),
            final(self).component_data() == (if r is Some {
                old(self).component_data().remove(id@)
            } else {
                old(self).component_data()
            }),
    {
        match self.by_id.remove(id) {
            Some(e) => {
                let _ = self.components.remove(id);
                assert(self.component_data() =~= old(self).component_data().remove(id@));
                Some(e)
            },
            None => None,
        }
    }

    /// Sets component `name` of the entity named `id` to `value`, creating its component
    /// map when it has none.
    pub fn add_component(&mut self, id: String, name: String, value: serde_json::Value)
        requires
            old(self).wf(),
        ensures
            final(self).wf(),
            final(self).entities() == old(self).entities(),
            final(self).component_data() == old(self).component_data().insert(
                id@,
                (if old(self).component_data().dom().contains(id@) {
                    old(self).component_data()[id@]
                } else {
                    Map::empty()
                }).insert(name@, value),
            ),
    {
        let mut comps = match self.components.remove(id.as_str()) {
            Some(c) => c,
            None => StrMap::new(),
        };
        let _ = comps.insert(name, value);
        let _ = self.components.insert(id, comps);
        assert(self.component_data() =~= old(self).component_data().insert(
            id@,
            (if old(self).component_data().dom().contains(id@) {
                old(self).component_data()[id@]
            } else {
                Map::empty()
            }).insert(name@, value),
        ));
    }

    /// Removes component `name` of the entity named `id`, if it has one.
    pub fn remove_component(&mut self, id: &str, name: &str)
        requires
            old(self).wf(),
        ensures
            final(self).wf(),
            final(self).entities() == old(self).entities(),
            final(self).component_data() == (if old(self).component_data().dom().contains(id@) {
                old(self).component_data().insert(id@, old(self).component_data()[id@].remove(name@))
            } else {
                old(self).component_data()
            }),
    {
        match self.components.remove(id) {
            Some(mut comps) => {
                let _ = comps.remove(name);
                let _ = self.components.insert(crate::text::to_owned_string(id), comps);
                assert(self.component_data() =~= old(self).component_data().insert(
                    id@,
                    old(self).component_data()[id@].remove(name@),
                ));
            },
            None => {
                assert(self.component_data() =~= old(self).component_data());
            },
        }
    }

    /// Forgets every entity but the player's, with its component data, as before the main
    /// script is run again; returns each forgotten identifier with its game entity.
    pub fn remove_script_entities(&mut self) -> (r: Vec<(String, u64)>)
        requires
            old(self).wf(),
        ensures
            final(self).wf(),
            final(self).entities() == old(self).entities().restrict(set![PLAYER_ID@]),
            final(self).component_data() == old(self).component_data().remove_keys(
                old(self).entities().dom().remove(PLAYER_ID@),
            ),
            r@.map_values(|p: (String, u64)| p.0@).no_duplicates(),
            r@.map_values(|p: (String, u64)| p.0@).to_set() == old(self).entities().dom().remove(PLAYER_ID@),
            forall|j: int| 0 <= j < r@.len() ==> old(self).entities()[#[trigger] r@[j].0@] == r@[j].1,
    {
        let keys = self.by_id.keys();
        let ghost ks = keys@.map_values(|s: String| s@);
        let ghost old_e = old(self).entities();
        let ghost old_c = old(self).component_data();
        let ghost player = PLAYER_ID@;
        let mut r: Vec<(String, u64)> = Vec::new();
        let mut i: usize = 0;
        while i < keys.len()
            invariant
                i <= keys@.len(),
                ks == keys@.map_values(|s: String| s@),
                ks.no_duplicates(),
                ks.to_set() == old_e.dom(),
                old_e == old(self).entities(),
                old_c == old(self).component_data(),
                player == PLAYER_ID@,
                self.wf(),
                self.entities() == old_e.remove_keys(ks.take(i as int).to_set().remove(player)),
                self.component_data() == old_c.remove_keys(ks.take(i as int).to_set().remove(player)),
                r@.map_values(|p: (String, u64)| p.0@).no_duplicates(),
                r@.map_values(|p: (String, u64)| p.0@).to_set() == ks.take(i as int).to_set().remove(player),
                forall|j: int| 0 <= j < r@.len() ==> old_e[#[trigger] r@[j].0@] == r@[j].1,
            decreases keys@.len() - i,
        {
            let ghost done = ks.take(i as int).to_set().remove(player);
            let ghost k = ks[i as int];
            proof {
                assert(keys@[i as int]@ == k);
                assert(ks.take(i + 1) =~= ks.take(i as int).push(k));
                ks.take(i as int).lemma_push_to_set_commute(k);
                assert(!ks.take(i as int).contains(k)) by {
                    if ks.take(i as int).contains(k) {
                        let j = choose|j: int| 0 <= j < i && ks.take(i as int)[j] == k;
                        assert(ks[j] == ks[i as int]);
                    }
                }
                assert(ks.contains(k));
                assert(old_e.dom().contains(k));
            }
            let key = &keys[i];
            if !str_eq(key.as_str(), PLAYER_ID) {
                let ghost cd_before = self.component_data();
                let removed = self.by_id.remove(key.as_str());
                let _ = self.components.remove(key.as_str());
                assert(self.component_data() =~= cd_before.remove(k));
                match removed {
                    Some(e) => {
                        let ghost prev = r@.map_values(|p: (String, u64)| p.0@);
                        r.push((key.clone(), e));
                        proof {
                            assert(r@.map_values(|p: (String, u64)| p.0@) =~= prev.push(k));
                            assert(prev.to_set().insert(k) =~= done.insert(k));
                            assert(!prev.contains(k)) by {
                                if prev.contains(k) {
                                    assert(prev.to_set().contains(k));
                                }
                            }
                            prev.lemma_push_to_set_commute(k);
                        }
                    },
                    None => {
                        assert(false);
                    },
                }
                proof {
                    assert(ks.take(i + 1).to_set().remove(player) =~= done.insert(k));
                    assert(self.entities() =~= old_e.remove_keys(done.insert(k)));
                    assert(self.component_data() =~= old_c.remove_keys(done.insert(k)));
                }
            } else {
                proof {
                    assert(k == player);
                    assert(ks.take(i + 1).to_set().remove(player) =~= done);
                }
            }
            i = i + 1;
        }
        proof {
            assert(ks.take(keys@.len() as int) =~= ks);
            assert(old_e.remove_keys(ks.to_set().remove(player)) =~= old_e.restrict(set![player]));
        }
        r
    }
}

/// What the registry gives back of what was written: after `register(id, e)`,
/// `entity_of(id)` is `e` and every other identifier keeps its entity; after `destroy(id)`,
/// `entity_of(id)` is nothing.
pub proof fn law_registry_reads_back(entities: Map<Seq<char>, u64>, id: Seq<char>, e: u64, other: Seq<char>)
    requires
        other != id,
    ensures
        entities.insert(id, e).dom().contains(id),
        entities.insert(id, e)[id] == e,
        entities.insert(id, e).dom().contains(other) == entities.dom().contains(other),
        entities.dom().contains(other) ==> entities.insert(id, e)[other] == entities[other],
        !entities.remove(id).dom().contains(id),
{
}

/// Watch state of the main script, for reloading it when it changes on disk.
pub struct ScriptHotReload {
    /// Path of the script.
    pub script_path: String,
    /// Modification time of the script when it was last loaded, in nanoseconds since the
    /// Unix epoch.
    pub last_modified: u128,
}

impl ScriptHotReload {
    /// Watch state for the script at `script_path`, whose modification time is `modified`
    /// when it could be read (the epoch otherwise).
    pub fn new(script_path: &str, modified: Option<u128>) -> (r: Self)
        ensures
            r.script_path@ == script_path@,
            r.last_modified == (match modified {
                Some(t) => t,
                None => 0,
            }),
    {
        let last_modified = match modified {
            Some(t) => t,
            None => 0,
        };
        ScriptHotReload { script_path: crate::text::to_owned_string(script_path), last_modified }
    }

    /// Whether a script modified at `current` is newer than the one last loaded.
    pub fn is_newer(&self, current: u128) -> (r: bool)
        ensures
            r == (current > self.last_modified),
    {
        current > self.last_modified
    }

    /// Records that the script modified at `current` was loaded.
    pub fn mark_loaded(&mut self, current: u128)
        ensures
            final(self).last_modified == current,
            final(self).script_path@ == old(self).script_path@,
    {
        self.last_modified = current;
    }
}

impl Default for EntityRegistry {
    fn default() -> (r: Self)
        ensures
            r.wf(),
            r.entities() == Map::<Seq<char>, u64>::empty(),
            r.component_data() == Map::<Seq<char>, Map<Seq<char>, serde_json::Value>>::empty(),
    {
        EntityRegistry::new()
    }
}

} // verus!
