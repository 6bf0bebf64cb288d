//! Finding entities by guid, and what is done to them.
use crate::character::Character;
use crate::client::{Client, ClientView};
use crate::command::UnitEffect;
use crate::creature;
use crate::creature::{Creature, Position};
use crate::map_state::{MapState, MapView, PendingMovement};
use crate::movement::MovementInfo;
use crate::slabs;
use crate::swing;
use crate::tables;
use vstd::prelude::*;

verus! {

/// Somebody on the map, by slab key.
#[derive(Debug, Clone, Copy, PartialEq, Eq, Structural)]
pub enum Entity {
    Player(usize),
    Creature(usize),
}

/// What came of an effect.
#[derive(Debug, Clone, Copy, PartialEq, Eq, Structural)]
pub enum ApplyEffectResult {
    AppliedLocally { creature_died: bool },
    Unknown,
}

/// A creature after an effect. A rooted creature stands still.
pub open spec fn creature_affected(c: Creature, effect: UnitEffect) -> Creature {
    match effect {
        UnitEffect::Root { until } => Creature {
            root_until: Some(until),
            info: MovementInfo { flags: 0, ..c.info },
            ..c
        },
        UnitEffect::Damage { amount } => Creature { health: swing::left_of(c.health, amount), ..c },
    }
}

/// A player after an effect. Damage to players comes from swings alone.
pub open spec fn character_affected(c: Character, effect: UnitEffect) -> Character {
    match effect {
        UnitEffect::Root { until } => Character {
            root_until: Some(until),
            info: MovementInfo { flags: 0, ..c.info },
            ..c
        },
        UnitEffect::Damage { .. } => c,
    }
}

pub fn apply_effect_to_creature(cr: &mut Creature, effect: &UnitEffect) -> (died: bool)
    ensures
        *final(cr) == creature_affected(*old(cr), *effect),
        died == (effect is Damage && final(cr).health == 0),
{
    match effect {
        UnitEffect::Root { until } => {
            cr.root_until = Some(*until);
            cr.info.flags = 0;
            false
        },
        UnitEffect::Damage { amount } => {
            cr.health = cr.health.saturating_sub(*amount);
            cr.health == 0
        },
    }
}

pub fn apply_effect_to_client(c: &mut Client, effect: &UnitEffect)
    ensures
        final(c)@ == (ClientView { character: character_affected(old(c)@.character, *effect), ..old(c)@ }),
{
    match effect {
        UnitEffect::Root { until } => {
            c.character.info.flags = 0;
            c.character.root_until = Some(*until);
        },
        UnitEffect::Damage { .. } => {},
    }
}

impl MapView {
    /// The player with that guid.
    pub open spec fn player(self, guid: u64) -> Option<usize> {
        if self.client_keys.contains_key(guid) && self.client_keys[guid] <= usize::MAX && self.clients.contains_key(
            self.client_keys[guid] as usize,
        ) {
            Some(self.client_keys[guid] as usize)
        } else {
            None
        }
    }

    /// The creature with that guid.
    pub open spec fn creature(self, guid: u64) -> Option<usize> {
        if self.creature_keys.contains_key(guid) && self.creature_keys[guid] <= usize::MAX
            && self.creatures.contains_key(self.creature_keys[guid] as usize) {
            Some(self.creature_keys[guid] as usize)
        } else {
            None
        }
    }

    /// Whoever has that guid, players first.
    pub open spec fn entity(self, guid: u64) -> Option<Entity> {
        match self.player(guid) {
            Some(k) => Some(Entity::Player(k)),
            None => match self.creature(guid) {
                Some(k) => Some(Entity::Creature(k)),
                None => None,
            },
        }
    }

    /// Where an entity is.
    pub open spec fn position_of(self, e: Entity) -> Position {
        match e {
            Entity::Player(k) => {
                let c = self.clients[k].character;
                Position { map: c.map, place: c.info.position, orientation: c.info.orientation }
            },
            Entity::Creature(k) => {
                let c = self.creatures[k];
                Position { map: c.map, place: c.info.position, orientation: c.info.orientation }
            },
        }
    }

    /// After an effect on whoever has that guid, creatures first.
    pub open spec fn affected(self, guid: u64, effect: UnitEffect) -> MapView {
        match self.creature(guid) {
            Some(k) => MapView {
                creatures: self.creatures.insert(k, creature_affected(self.creatures[k], effect)),
                ..self
            },
            None => match self.player(guid) {
                Some(k) => MapView {
                    clients: self.clients.insert(
                        k,
                        ClientView {
                            character: character_affected(self.clients[k].character, effect),
                            ..self.clients[k]
                        },
                    ),
                    ..self
                },
                None => self,
            },
        }
    }
}

/// Whether a player can move.
pub open spec fn may_move(c: Character, now: u64) -> bool {
    c.current_health != 0 && !creature::rooted_at(c.root_until, now)
}

impl MapState {
    /// Keep the movement of a player until the end of the tick; a later one
    /// takes its place.
    pub fn queue_movement(&mut self, source: &Character, opcode: u16)
        requires
            old(self).wf(),
        ensures
            final(self).wf(),
            final(self)@.keeps_clients_of(old(self)@),
            final(self)@ == (MapView {
                pending: old(self)@.pending.insert(
                    source.guid,
                    (PendingMovement {
                        opcode,
                        info: source.info,
                        anchor: source.info.position,
                        map: source.map,
                    }),
                ),
                ..old(self)@
            }),
    {
        self.pending_movement.insert(
            source.guid,
            PendingMovement { opcode, info: source.info, anchor: source.info.position, map: source.map },
        );
    }

    /// Hear where a player goes. Of the dead and the rooted it is not heard: they stay
    /// where they are. Returned is whether the player moved.
    pub fn hear_movement(&mut self, client: &mut Client, info: MovementInfo, opcode: u16, now: u64) -> (r: bool)
        requires
            old(self).wf(),
        ensures
            final(self).wf(),
            final(self)@.keeps_clients_of(old(self)@),
            r == may_move(old(client)@.character, now),
            final(client)@ == (if r {
                ClientView { character: Character { info, ..old(client)@.character }, ..old(client)@ }
            } else {
                old(client)@
            }),
            final(self)@ == (if r {
                MapView {
                    pending: old(self)@.pending.insert(
                        old(client)@.character.guid,
                        PendingMovement { opcode, info, anchor: info.position, map: old(client)@.character.map },
                    ),
                    ..old(self)@
                }
            } else {
                old(self)@
            }),
    {
        if client.character.is_dead() || client.character.is_rooted(now) {
            return false;
        }
        client.set_movement_info(info);
        self.queue_movement(&client.character, opcode);
        true
    }

    pub fn find_player(&self, guid: u64) -> (r: Option<usize>)
        ensures
            r == self@.player(guid),
    {
        match tables::numbers_get(&self.client_by_guid, guid) {
            Some(k) => {
                if k > usize::MAX as u64 {
                    return None;
                }
                match slabs::clients_get(&self.clients, k as usize) {
                    Some(_) => Some(k as usize),
                    None => None,
                }
            },
            None => None,
        }
    }

    pub fn find_creature(&self, guid: u64) -> (r: Option<usize>)
        ensures
            r == self@.creature(guid),
    {
        match tables::numbers_get(&self.creature_by_guid, guid) {
            Some(k) => {
                if k > usize::MAX as u64 {
                    return None;
                }
                match slabs::creatures_get(&self.creatures, k as usize) {
                    Some(_) => Some(k as usize),
                    None => None,
                }
            },
            None => None,
        }
    }

    pub fn find_guid(&self, guid: u64) -> (r: Option<Entity>)
        ensures
            r == self@.entity(guid),
    {
        match self.find_player(guid) {
            Some(k) => Some(Entity::Player(k)),
            None => match self.find_creature(guid) {
                Some(k) => Some(Entity::Creature(k)),
                None => None,
            },
        }
    }

    pub fn find_position(&self, guid: u64) -> (r: Option<Position>)
        ensures
            r == (match self@.entity(guid) {
                Some(e) => Some(self@.position_of(e)),
                None => None,
            }),
    {
        match self.find_guid(guid) {
            Some(Entity::Player(k)) => match slabs::clients_get(&self.clients, k) {
                Some(c) => {
                    assert(c@ == self@.clients[k]);
                    Some(c.position())
                },
                None => None,
            },
            Some(Entity::Creature(k)) => match slabs::creatures_get(&self.creatures, k) {
                Some(c) => Some(c.position()),
                None => None,
            },
            None => None,
        }
    }

    /// Apply an effect to whoever has that guid, creatures first.
    pub fn apply_effect(&mut self, guid: u64, effect: UnitEffect) -> (r: ApplyEffectResult)
        requires
            old(self).wf(),
        ensures
            final(self).wf(),
            final(self)@.keeps_clients_of(old(self)@),
            final(self)@ == old(self)@.affected(guid, effect),
            r == (match old(self)@.creature(guid) {
                Some(k) => ApplyEffectResult::AppliedLocally {
                    creature_died: effect is Damage && final(self)@.creatures[k].health == 0,
                },
                None => if old(self)@.player(guid) is Some {
                    ApplyEffectResult::AppliedLocally { creature_died: false }
                } else {
                    ApplyEffectResult::Unknown
                },
            }),
    {
        let ghost was = self@;
        if let Some(k) = self.find_creature(guid) {
            let mut died: bool = false;
            match slabs::creatures_get_mut(&mut self.creatures, k) {
                Some(c) => {
                    died = apply_effect_to_creature(c, &effect);
                },
                None => {},
            }
            assert(self@ =~= was.affected(guid, effect));
            return ApplyEffectResult::AppliedLocally { creature_died: died };
        }
        if let Some(k) = self.find_player(guid) {
            match slabs::clients_get_mut(&mut self.clients, k) {
                Some(c) => {
                    assert(c@ == was.clients[k]);
                    apply_effect_to_client(c, &effect);
                },
                None => {},
            }
            assert(self@.clients =~= was.affected(guid, effect).clients);
            assert(self@.clients.dom() =~= was.clients.dom());
            assert(self@ =~= was.affected(guid, effect));
            return ApplyEffectResult::AppliedLocally { creature_died: false };
        }
        ApplyEffectResult::Unknown
    }
}

/// An effect touches nobody but whoever has the guid.
pub proof fn an_effect_touches_one_entity(v: MapView, guid: u64, effect: UnitEffect, k: usize)
    ensures
        v.creature(guid) != Some(k) ==> v.affected(guid, effect).creatures.contains_key(k)
            == v.creatures.contains_key(k) && v.affected(guid, effect).creatures[k] == v.creatures[k],
        v.player(guid) != Some(k) ==> v.affected(guid, effect).clients.contains_key(k) == v.clients.contains_key(k)
            && v.affected(guid, effect).clients[k] == v.clients[k],
{
}

/// Damage takes that much health from the creature, down to none; a root holds it until
/// then and stops it. Players are rooted and stopped in the same way, and are not hurt.
/// Whoever has no such guid on the map is not known.
pub proof fn an_effect_does_what_it_says(m: &mut MapState, guid: u64, effect: UnitEffect, r: ApplyEffectResult)
    requires
        old(m).wf(),
        call_ensures(MapState::apply_effect, (m, guid, effect), r),
    ensures
        ({
            let k = old(m)@.creature_keys[guid] as usize;
            let p = old(m)@.client_keys[guid] as usize;
            let is_creature = old(m)@.creature_keys.contains_key(guid) && old(m)@.creatures.contains_key(k);
            let is_player = old(m)@.client_keys.contains_key(guid) && old(m)@.client_keys[guid] <= usize::MAX && old(m)@.clients.contains_key(p);
            &&& is_creature ==> {
                let (was, is) = (old(m)@.creatures[k], final(m)@.creatures[k]);
                &&& final(m)@.clients == old(m)@.clients
                &&& match effect {
                    UnitEffect::Damage { amount } => {
                        &&& is == (Creature { health: is.health, ..was })
                        &&& is.health as int == (if was.health <= amount {
                            0
                        } else {
                            was.health - amount
                        })
                        &&& r == ApplyEffectResult::AppliedLocally { creature_died: was.health <= amount }
                    },
                    UnitEffect::Root { until } => {
                        &&& is.root_until == Some(until)
                        &&& is.info.flags == 0
                        &&& is.info.position == was.info.position && is.health == was.health && is.guid == was.guid
                        &&& r == ApplyEffectResult::AppliedLocally { creature_died: false }
                    },
                }
            }
            &&& !is_creature && is_player ==> {
                let (was, is) = (old(m)@.clients[p].character, final(m)@.clients[p].character);
                &&& final(m)@.creatures == old(m)@.creatures
                &&& r == ApplyEffectResult::AppliedLocally { creature_died: false }
                &&& match effect {
                    UnitEffect::Damage { .. } => is == was,
                    UnitEffect::Root { until } => {
                        &&& is.root_until == Some(until)
                        &&& is.info.flags == 0
                        &&& is.info.position == was.info.position && is.current_health == was.current_health
                            && is.guid == was.guid
                    },
                }
            }
            &&& !is_creature && !is_player ==> r == ApplyEffectResult::Unknown && final(m)@ == old(m)@
            &&& forall|j: usize| j != k ==> #[trigger] final(m)@.creatures[j] == old(m)@.creatures[j]
            &&& forall|j: usize| j != p ==> #[trigger] final(m)@.clients[j] == old(m)@.clients[j]
        }),
{
}

/// The living who are not rooted move as they say, and those near are told so at the end
/// of the tick; the dead and the rooted stay where they are, and nothing is told.
pub proof fn only_the_free_move(m: &mut MapState, client: &mut Client, info: MovementInfo, opcode: u16, now: u64, r: bool)
    requires
        old(m).wf(),
        call_ensures(MapState::hear_movement, (m, client, info, opcode, now), r),
    ensures
        ({
            let me = old(client)@.character;
            let held = me.root_until is Some && me.root_until->0 > now;
            &&& r <==> me.current_health > 0 && !held
            &&& r ==> final(client)@.character.info == info && final(m)@.pending.contains_key(me.guid) && final(m)@.pending[me.guid] == (PendingMovement { opcode, info, anchor: info.position, map: me.map })
            &&& !r ==> final(client)@ == old(client)@ && final(m)@ == old(m)@
            &&& final(client)@ == (ClientView {
                character: Character { info: final(client)@.character.info, ..me },
                ..old(client)@
            })
            &&& forall|g: u64|
                g != me.guid && #[trigger] old(m)@.pending.contains_key(g) ==> final(m)@.pending.contains_key(g)
                    && final(m)@.pending[g] == old(m)@.pending[g]
        }),
{
}

/// Of several movements of a player in a tick the last is kept, with where they are.
pub proof fn the_last_movement_is_kept(m: &mut MapState, source: &Character, opcode: u16, u: ())
    requires
        old(m).wf(),
        call_ensures(MapState::queue_movement, (m, source, opcode), u),
    ensures
        final(m)@.pending == old(m)@.pending.insert(
            source.guid,
            PendingMovement { opcode, info: source.info, anchor: source.info.position, map: source.map },
        ),
        final(m)@.clients == old(m)@.clients,
        final(m)@.creatures == old(m)@.creatures,
{
}

/// Players and creatures are found by their guids, players first, and are where they stand.
pub proof fn entities_are_found_by_guid(
    m: &MapState,
    guid: u64,
    player: Option<usize>,
    creature: Option<usize>,
    any: Option<Entity>,
    place: Option<Position>,
    k: usize,
)
    requires
        m.wf(),
        call_ensures(MapState::find_player, (m, guid), player),
        call_ensures(MapState::find_creature, (m, guid), creature),
        call_ensures(MapState::find_guid, (m, guid), any),
        call_ensures(MapState::find_position, (m, guid), place),
    ensures
        m@.client_keys.contains_key(guid) && m@.client_keys[guid] == k && m@.clients.contains_key(k) ==> player
            == Some(k) && any == Some(Entity::Player(k)) && place == Some(
            Position {
                map: m@.clients[k].character.map,
                place: m@.clients[k].character.info.position,
                orientation: m@.clients[k].character.info.orientation,
            },
        ),
        m@.creature_keys.contains_key(guid) && m@.creature_keys[guid] == k && m@.creatures.contains_key(k)
            ==> creature == Some(k) && (player is None ==> any == Some(Entity::Creature(k)) && place == Some(
            Position {
                map: m@.creatures[k].map,
                place: m@.creatures[k].info.position,
                orientation: m@.creatures[k].info.orientation,
            },
        )),
        !m@.client_keys.contains_key(guid) ==> player is None,
        !m@.creature_keys.contains_key(guid) ==> creature is None,
        player is None && creature is None ==> any is None && place is None,
{
}

} // verus!
