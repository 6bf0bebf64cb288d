//! Creatures: what they are, how they behave, and how they are shown.
use crate::config::RespawnConfig;
use crate::movement::{MovementInfo, Place, FORWARD, WALK_MODE};
use std::sync::Arc;
use vstd::prelude::*;

verus! {

/// A position with the map it is on and the direction that is faced.
#[derive(Debug, Clone, Copy)]
pub struct Position {
    pub map: u32,
    pub place: Place,
    pub orientation: u32,
}

pub fn default_creature_health(config: &RespawnConfig) -> (r: u32)
    ensures
        r == config.default_creature_health,
{
    config.default_creature_health
}

pub fn corpse_despawn(config: &RespawnConfig) -> (r: u64)
    ensures
        r == crate::config::span_spec(config.corpse_despawn_secs, crate::clock::SECOND),
{
    config.corpse_despawn()
}

pub fn initial_respawn_delay(config: &RespawnConfig) -> (r: u64)
    ensures
        r == crate::config::span_spec(config.initial_respawn_delay_secs, crate::clock::SECOND),
{
    config.initial_respawn_delay()
}

/// Whether a creature lives, lies dead, or is waiting to come back.
#[derive(Debug, Clone, Copy, PartialEq, Eq, Structural)]
pub enum CreatureLifeState {
    Alive,
    Corpse { died_at: u64 },
    Respawning { respawn_at: u64 },
}

/// What a creature does on its own.
#[derive(Debug)]
pub enum CreatureBehavior {
    /// Runs to the nearest player.
    AggroChase,
    /// Stands still.
    Idle,
    /// Walks to random points around its anchor, with pauses.
    RandomWander { anchor: Place, radius: u32, target: Option<Place>, next_decision_at: u64 },
    /// Walks along its waypoints, with a pause at each.
    Waypoint { waypoints: Vec<Place>, waittimes_ms: Vec<u32>, current: usize, idle_until: Option<u64> },
}

impl CreatureBehavior {
    /// Whether the creature walks around.
    pub open spec fn walks(&self) -> bool {
        self is RandomWander || self is Waypoint
    }
}

/// What a client is sent to show a creature.
#[derive(Debug, Clone, Copy)]
pub struct UnitFrame {
    pub guid: u64,
    pub health: i32,
    pub max_health: i32,
    pub display_id: i32,
    pub level: i32,
    pub faction_template: i32,
    pub entry: i32,
    pub flags: u32,
    pub orientation: u32,
    pub position: Place,
}

#[derive(Debug)]
pub struct Creature {
    pub name: String,
    pub guid: u64,
    pub info: MovementInfo,
    pub map: u32,
    pub level: u8,
    pub display_id: u16,
    pub entry: u32,
    pub faction_template: u32,
    pub health: u32,
    pub max_health: u32,
    pub root_until: Option<u64>,
    pub behavior: CreatureBehavior,
    pub last_advanced_at: u64,
    pub last_heartbeat_at: u64,
    pub spawn_position: Place,
    pub spawn_orientation: u32,
    pub life_state: CreatureLifeState,
    pub last_alive_at: u64,
    pub respawn_delay: u64,
    /// The frame that was built last and is still good.
    pub cached_object: Option<Arc<UnitFrame>>,
}

/// A health that does not fit the wire is shown as the largest that does.
pub open spec fn shown_health(health: u32) -> i32 {
    if health > i32::MAX {
        i32::MAX
    } else {
        health as i32
    }
}

pub fn health_on_the_wire(health: u32) -> (r: i32)
    ensures
        r == shown_health(health),
{
    if health > 0x7fff_ffff {
        0x7fff_ffff
    } else {
        health as i32
    }
}

/// Whether a root that holds until `until` still holds at `now`.
pub open spec fn rooted_at(until: Option<u64>, now: u64) -> bool {
    until is Some && until->0 > now
}

impl Creature {
    pub fn is_rooted(&self, now: u64) -> (r: bool)
        ensures
            r == rooted_at(self.root_until, now),
    {
        match self.root_until {
            Some(t) => t > now,
            None => false,
        }
    }

    /// A creature of the default looks.
    pub fn new(name: String, guid: u64, position: Position, config: &RespawnConfig, now: u64) -> (r: Self)
        ensures
            r.name == name,
            r.guid == guid,
            r.display_id == 646,
            r.entry == 69,
            r.is_fresh(position, *config, now),
    {
        Self::with_display(name, guid, 646, 69, position, config, now)
    }

    /// What holds of every creature that was just made.
    pub open spec fn is_fresh(&self, position: Position, config: RespawnConfig, now: u64) -> bool {
        &&& self.info == (MovementInfo {
            flags: 0,
            timestamp: 0,
            position: position.place,
            orientation: position.orientation,
            fall_time: 0,
        })
        &&& self.map == position.map
        &&& self.level == 1
        &&& self.faction_template == 16
        &&& self.health == config.default_creature_health
        &&& self.max_health == config.default_creature_health
        &&& self.root_until is None
        &&& self.behavior is AggroChase
        &&& self.last_advanced_at == now
        &&& self.last_heartbeat_at == now
        &&& self.spawn_position == position.place
        &&& self.spawn_orientation == position.orientation
        &&& self.life_state is Alive
        &&& self.last_alive_at == now
        &&& self.respawn_delay == crate::config::span_spec(config.initial_respawn_delay_secs, crate::clock::SECOND)
        &&& self.cached_object is None
    }

    pub fn with_display(
        name: String,
        guid: u64,
        display_id: u16,
        entry: u32,
        position: Position,
        config: &RespawnConfig,
        now: u64,
    ) -> (r: Self)
        ensures
            r.name == name,
            r.guid == guid,
            r.display_id == display_id,
            r.entry == entry,
            r.is_fresh(position, *config, now),
    {
        Creature {
            name,
            guid,
            info: MovementInfo {
                flags: 0,
                timestamp: 0,
                position: position.place,
                orientation: position.orientation,
                fall_time: 0,
            },
            map: position.map,
            level: 1,
            display_id,
            entry,
            faction_template: 16,
            health: default_creature_health(config),
            max_health: default_creature_health(config),
            root_until: None,
            behavior: CreatureBehavior::AggroChase,
            last_advanced_at: now,
            last_heartbeat_at: now,
            spawn_position: position.place,
            spawn_orientation: position.orientation,
            life_state: CreatureLifeState::Alive,
            last_alive_at: now,
            respawn_delay: initial_respawn_delay(config),
            cached_object: None,
        }
    }

    pub fn position(&self) -> (r: Position)
        ensures
            r == (Position { map: self.map, place: self.info.position, orientation: self.info.orientation }),
    {
        Position { map: self.map, place: self.info.position, orientation: self.info.orientation }
    }

    /// The movement flags that a frame carries: a creature is shown walking
    /// forward or standing, nothing else.
    pub open spec fn shown_flags(&self) -> u32 {
        if crate::movement::has_flag(self.info.flags, FORWARD) {
            FORWARD | WALK_MODE
        } else {
            0
        }
    }

    pub fn living_block_flags(&self) -> (r: u32)
        ensures
            r == self.shown_flags(),
    {
        if self.info.flags & FORWARD != 0 {
            FORWARD | WALK_MODE
        } else {
            0
        }
    }

    /// The frame that shows the creature as it is.
    pub open spec fn frame(&self) -> UnitFrame {
        UnitFrame {
            guid: self.guid,
            health: shown_health(self.health),
            max_health: shown_health(self.max_health),
            display_id: self.display_id as i32,
            level: self.level as i32,
            faction_template: self.faction_template as i32,
            entry: self.entry as i32,
            flags: self.shown_flags(),
            orientation: self.info.orientation,
            position: self.info.position,
        }
    }

    pub fn build_create_object(&self) -> (r: UnitFrame)
        ensures
            r == self.frame(),
    {
        UnitFrame {
            guid: self.guid,
            health: health_on_the_wire(self.health),
            max_health: health_on_the_wire(self.max_health),
            display_id: self.display_id as i32,
            level: self.level as i32,
            faction_template: self.faction_template as i32,
            entry: self.entry as i32,
            flags: self.living_block_flags(),
            orientation: self.info.orientation,
            position: self.info.position,
        }
    }

    /// The frame that a client is sent: the one that is kept, if there is one.
    pub open spec fn served(&self) -> UnitFrame {
        match self.cached_object {
            Some(frame) => *frame,
            None => self.frame(),
        }
    }

    /// The frame that a client is sent, which is kept for the next time.
    pub fn cached_create_object(&mut self) -> (r: Arc<UnitFrame>)
        ensures
            *r == old(self).served(),
            final(self).cached_object == Some(r),
            *final(self) == (Creature { cached_object: final(self).cached_object, ..*old(self) }),
    {
        if let Some(frame) = &self.cached_object {
            return frame.clone();
        }
        let frame = Arc::new(self.build_create_object());
        self.cached_object = Some(frame.clone());
        frame
    }

    pub fn to_create_object(&mut self) -> (r: UnitFrame)
        ensures
            r == old(self).served(),
            final(self).cached_object == Some(Arc::new(r)),
            *final(self) == (Creature { cached_object: final(self).cached_object, ..*old(self) }),
    {
        let frame = self.cached_create_object();
        *frame
    }

    /// The kept frame no longer shows the creature as it is.
    pub fn invalidate_object_cache(&mut self)
        ensures
            *final(self) == (Creature { cached_object: None, ..*old(self) }),
    {
        self.cached_object = None;
    }
}

/// A frame shows the creature as it is; it is shown walking forward or standing.
pub proof fn a_frame_shows_the_creature(c: &Creature, f: UnitFrame)
    requires
        call_ensures(Creature::build_create_object, (c,), f),
    ensures
        f.guid == c.guid,
        f.display_id == c.display_id,
        f.level == c.level,
        f.position == c.info.position && f.orientation == c.info.orientation,
        c.health <= i32::MAX ==> f.health == c.health,
        c.health > i32::MAX ==> f.health == i32::MAX,
        c.max_health <= i32::MAX ==> f.max_health == c.max_health,
        c.max_health > i32::MAX ==> f.max_health == i32::MAX,
        c.entry <= i32::MAX ==> f.entry == c.entry,
        c.faction_template <= i32::MAX ==> f.faction_template == c.faction_template,
        c.info.flags & 1 == 1 ==> f.flags == 0x101,
        c.info.flags & 1 == 0 ==> f.flags == 0,
{
    let flags = c.info.flags;
    assert(flags & 1 == 1 <==> flags & 1 != 0) by (bit_vector);
    assert(1u32 | 0x100u32 == 0x101u32) by (bit_vector);
}

/// A frame is built once and served until it is put aside; then it shows the creature as it
/// is by then.
pub proof fn a_frame_is_kept_until_it_is_put_aside(
    a: &mut Creature,
    r: Arc<UnitFrame>,
    b: &mut Creature,
    u: (),
    c: &mut Creature,
    s: UnitFrame,
    fresh: UnitFrame,
)
    requires
        call_ensures(Creature::cached_create_object, (a,), r),
        *old(b) == *final(a),
        call_ensures(Creature::invalidate_object_cache, (b,), u),
        *old(c) == *final(b),
        call_ensures(Creature::to_create_object, (c,), s),
        call_ensures(Creature::build_create_object, (&*old(a),), fresh),
    ensures
        old(a).cached_object is None ==> *r == fresh,
        old(a).cached_object is Some ==> *r == *old(a).cached_object->0,
        final(a).cached_object == Some(r),
        final(b).cached_object is None,
        s == fresh,
        final(a).info == old(a).info && final(a).health == old(a).health && final(a).life_state == old(a).life_state,
        final(b).info == old(a).info && final(b).health == old(a).health,
{
}

/// A new creature stands where it was put, alive and with all its health, and chases players.
pub proof fn a_new_creature_chases(
    name: String,
    guid: u64,
    display_id: u16,
    entry: u32,
    position: Position,
    config: &RespawnConfig,
    now: u64,
    r: Creature,
    s: Creature,
)
    requires
        call_ensures(Creature::with_display, (name, guid, display_id, entry, position, config, now), r),
        call_ensures(Creature::new, (name, guid, position, config, now), s),
    ensures
        r.name == name && r.guid == guid && r.display_id == display_id && r.entry == entry,
        s.name == name && s.guid == guid && s.display_id == 646 && s.entry == 69,
        r.map == position.map && r.info.position == position.place && r.info.orientation == position.orientation,
        s.map == position.map && s.info.position == position.place && s.info.orientation == position.orientation,
        r.spawn_position == position.place && r.spawn_orientation == position.orientation,
        r.life_state is Alive && r.health == config.default_creature_health && r.max_health
            == config.default_creature_health && r.level == 1 && r.faction_template == 16,
        r.behavior is AggroChase && r.root_until is None && r.info.flags == 0 && r.cached_object is None,
        config.initial_respawn_delay_secs * 1_000_000_000 <= u64::MAX ==> r.respawn_delay
            == config.initial_respawn_delay_secs * 1_000_000_000,
{
}

/// Roots hold until their time, and not at it; a creature is where its movement says.
pub proof fn a_creature_is_where_it_stands(c: &Creature, now: u64, r: bool, p: Position, until: u64)
    requires
        call_ensures(Creature::is_rooted, (c, now), r),
        call_ensures(Creature::position, (c,), p),
    ensures
        c.root_until is None ==> !r,
        c.root_until == Some(until) ==> (r <==> now < until),
        p.map == c.map && p.place == c.info.position && p.orientation == c.info.orientation,
{
}

} // verus!
