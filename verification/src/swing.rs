//! Auto attacks.
use crate::character::Character;
use crate::client::ClientView;
use crate::creature;
use crate::creature::Creature;
use crate::map_state::{MapState, MapView};
use crate::movement;
use crate::movement::Place;
use crate::notice::{Audience, Notice, Outgoing};
use crate::numeric;
use crate::slabs;
use crate::tables;
use vstd::prelude::*;

verus! {

/// The swing timer after a swing at somebody out of reach: a tenth of a second.
pub const RETRY_TIMER: u32 = 0x3dcc_cccd;

/// The swing timer after a swing that hits: 1.8 seconds.
pub const UNARMED_SPEED: u32 = 0x3fe6_6666;

pub const MIN_SWING_DAMAGE: u32 = 10;

pub const SWING_DAMAGE_SPREAD: u64 = 11;

/// Who is swung at.
#[derive(Debug, Clone, Copy, PartialEq, Eq, Structural)]
pub enum SwingKind {
    Creature(usize),
    Player(usize),
}

/// Who is swung at, where they are and whether they move.
#[derive(Debug, Clone, Copy)]
pub struct SwingTarget {
    pub kind: SwingKind,
    pub place: Place,
    pub moving: bool,
}

/// Whether a character swings: it attacks, lives, and its timer has run out.
pub open spec fn swings(c: Character) -> bool {
    c.attacking && c.current_health != 0 && movement::is_spent(c.auto_attack_timer)
}

pub fn swing_is_due(c: &Character) -> (r: bool)
    ensures
        r == swings(*c),
{
    c.attacking && !c.is_dead() && movement::timer_is_spent(c.auto_attack_timer)
}

/// The character gives up its attack.
pub open spec fn at_ease(c: Character) -> Character {
    Character { attacking: false, target: 0, ..c }
}

/// Whether the client is a living player that can be swung at.
pub open spec fn can_be_hit(c: ClientView, target: u64, map: u32) -> bool {
    c.character.guid == target && c.character.current_health != 0 && c.character.map == map
}

/// The first of `keys`, from `from` on, whose client can be swung at.
pub open spec fn first_hit(clients: Map<usize, ClientView>, keys: Seq<usize>, from: int, target: u64, map: u32) -> Option<
    usize,
>
    decreases keys.len() - from,
{
    if from >= keys.len() {
        None
    } else if can_be_hit(clients[keys[from]], target, map) {
        Some(keys[from])
    } else {
        first_hit(clients, keys, from + 1, target, map)
    }
}

impl MapView {
    /// Who an attacker swings at: a creature on its map, else a living player
    /// on its map; never nobody, and never itself.
    pub open spec fn swing_target(self, attacker: Character) -> Option<SwingTarget> {
        let target = attacker.target;
        if target == 0 || target == attacker.guid {
            None
        } else if self.creature_keys.contains_key(target) {
            let k = self.creature_keys[target];
            if k <= usize::MAX && self.creatures.contains_key(k as usize) && self.creatures[k as usize].map
                == attacker.map {
                let c = self.creatures[k as usize];
                Some(
                    SwingTarget {
                        kind: SwingKind::Creature(k as usize),
                        place: c.info.position,
                        moving: movement::moving(c.info.flags),
                    },
                )
            } else {
                None
            }
        } else {
            match first_hit(self.clients, slabs::ordered(self.clients.dom()), 0, target, attacker.map) {
                Some(k) => {
                    let c = self.clients[k].character;
                    Some(
                        SwingTarget {
                            kind: SwingKind::Player(k),
                            place: c.info.position,
                            moving: movement::moving(c.info.flags),
                        },
                    )
                },
                None => None,
            }
        }
    }
}

impl MapState {
    /// Who an attacker, who is held out, swings at.
    pub fn resolve_swing(&self, attacker: &Character) -> (r: Option<SwingTarget>)
        ensures
            r == self@.swing_target(*attacker),
    {
        let target: u64 = attacker.target;
        if target == 0 || target == attacker.guid {
            return None;
        }
        if let Some(k) = tables::numbers_get(&self.creature_by_guid, target) {
            if k > usize::MAX as u64 {
                return None;
            }
            return match slabs::creatures_get(&self.creatures, k as usize) {
                Some(c) => if c.map == attacker.map {
                    Some(
                        SwingTarget {
                            kind: SwingKind::Creature(k as usize),
                            place: c.info.position,
                            moving: movement::is_moving(&c.info),
                        },
                    )
                } else {
                    None
                },
                None => None,
            };
        }
        let keys = slabs::clients_keys(&self.clients);
        proof {
            assert(slabs::clients(self.clients).dom() =~= self@.clients.dom());
            slabs::ordered_is(keys@, self@.clients.dom());
        }
        let mut i: usize = 0;
        while i < keys.len()
            invariant
                i <= keys.len(),
                slabs::in_order(keys@, self@.clients.dom()),
                keys@ == slabs::ordered(self@.clients.dom()),
                target == attacker.target,
                target != 0,
                target != attacker.guid,
                !self@.creature_keys.contains_key(target),
                first_hit(self@.clients, keys@, 0, target, attacker.map) == first_hit(
                    self@.clients,
                    keys@,
                    i as int,
                    target,
                    attacker.map,
                ),
            decreases keys.len() - i,
        {
            let key: usize = keys[i];
            assert(keys@.contains(key));
            if let Some(c) = slabs::clients_get(&self.clients, key) {
                assert(c@ == self@.clients[key]);
                let ch = &c.character;
                if ch.guid == target && !ch.is_dead() && ch.map == attacker.map {
                    return Some(
                        SwingTarget {
                            kind: SwingKind::Player(key),
                            place: ch.info.position,
                            moving: movement::is_moving(&ch.info),
                        },
                    );
                }
            }
            i += 1;
        }
        None
    }
}

/// The damage of a swing.
pub open spec fn swing_damage(roll: u64) -> u32 {
    (MIN_SWING_DAMAGE + roll % SWING_DAMAGE_SPREAD) as u32
}

/// A swing takes from ten up to and with twenty health.
pub proof fn a_swing_takes_ten_to_twenty(roll: u64)
    ensures
        10 <= swing_damage(roll) <= 20,
{
}

/// What is left of `health`.
pub open spec fn left_of(health: u32, damage: u32) -> u32 {
    if health >= damage {
        (health - damage) as u32
    } else {
        0
    }
}

/// A creature that was hit.
pub open spec fn hurt(c: Creature, damage: u32) -> Creature {
    Creature { health: left_of(c.health, damage), cached_object: None, ..c }
}

/// A player who was hit; one who has no health left falls and fights no more.
pub open spec fn wounded(c: Character, damage: u32, now: u64) -> Character {
    let health = left_of(c.current_health, damage);
    if health == 0 {
        Character { current_health: 0, time_of_death: Some(now), attacking: false, target: 0, ..c }
    } else {
        Character { current_health: health, ..c }
    }
}

/// A notice to the attacker and to those near `place`.
pub open spec fn to_both(map: u32, place: Place, what: Notice) -> Seq<Outgoing> {
    seq![
        Outgoing { to: Audience::Handled, what },
        Outgoing { to: Audience::Near { map, place }, what },
    ]
}

/// What a swing leads to.
#[verifier::ext_equal]
pub struct SwingOutcome {
    pub state: MapView,
    pub attacker: Character,
    pub said: Seq<Outgoing>,
}

impl MapView {
    /// What a swing of `attacker` at `kind` leads to.
    pub open spec fn struck(
        self,
        attacker: Character,
        kind: SwingKind,
        dist_sq: u32,
        range_sq: u32,
        roll: u64,
        now: u64,
    ) -> SwingOutcome {
        if numeric::below(range_sq, dist_sq) {
            SwingOutcome {
                state: self,
                attacker: Character { auto_attack_timer: RETRY_TIMER, ..attacker },
                said: Seq::empty(),
            }
        } else {
            let damage = swing_damage(roll);
            let a = Character { auto_attack_timer: UNARMED_SPEED, ..attacker };
            let hit = to_both(
                attacker.map,
                attacker.info.position,
                Notice::AttackerState { attacker: attacker.guid, target: attacker.target, damage },
            );
            match kind {
                SwingKind::Creature(k) => {
                    let c = hurt(self.creatures[k], damage);
                    let v = MapView { creatures: self.creatures.insert(k, c), ..self };
                    if c.health == 0 {
                        SwingOutcome { state: v.killed(k, now), attacker: at_ease(a), said: hit + v.told_of_kill(k) }
                    } else {
                        SwingOutcome {
                            state: v,
                            attacker: a,
                            said: hit + to_both(
                                c.map,
                                c.info.position,
                                Notice::UnitHealth { guid: c.guid, health: creature::shown_health(c.health) },
                            ),
                        }
                    }
                },
                SwingKind::Player(k) => {
                    let c = wounded(self.clients[k].character, damage, now);
                    let v = MapView {
                        clients: self.clients.insert(k, ClientView { character: c, ..self.clients[k] }),
                        ..self
                    };
                    SwingOutcome {
                        state: v,
                        attacker: if c.current_health == 0 {
                            at_ease(a)
                        } else {
                            a
                        },
                        said: hit + to_both(
                            c.map,
                            c.info.position,
                            Notice::PlayerHealth {
                                guid: attacker.target,
                                health: c.current_health as i32,
                                dead: c.current_health == 0,
                            },
                        ),
                    }
                },
            }
        }
    }
}

impl MapState {
    /// Swing at `kind`, who was resolved for the attacker. `dist_sq` is the
    /// squared distance and `range_sq` the squared reach.
    pub fn strike(
        &mut self,
        attacker: &mut Character,
        kind: SwingKind,
        dist_sq: u32,
        range_sq: u32,
        roll: u64,
        now: u64,
        out: &mut Vec<Outgoing>,
    )
        requires
            old(self).wf(),
            match kind {
                SwingKind::Creature(k) => old(self)@.creatures.contains_key(k),
                SwingKind::Player(k) => old(self)@.clients.contains_key(k),
            },
        ensures
            final(self).wf(),
            final(self)@.keeps_clients_of(old(self)@),
            final(self)@ == old(self)@.struck(*old(attacker), kind, dist_sq, range_sq, roll, now).state,
            *final(attacker) == old(self)@.struck(
                *old(attacker),
                kind,
                dist_sq,
                range_sq,
                roll,
                now,
            ).attacker,
            final(out)@ == old(out)@ + old(self)@.struck(
                *old(attacker),
                kind,
                dist_sq,
                range_sq,
                roll,
                now,
            ).said,
    {
        let ghost was = self@;
        let ghost said = out@;
        let ghost goal = was.struck(*attacker, kind, dist_sq, range_sq, roll, now);
        if numeric::is_below(range_sq, dist_sq) {
            attacker.auto_attack_timer = RETRY_TIMER;
            assert(out@ =~= said + goal.said);
            return;
        }
        attacker.auto_attack_timer = UNARMED_SPEED;
        let damage: u32 = MIN_SWING_DAMAGE + (roll % SWING_DAMAGE_SPREAD) as u32;
        let target: u64 = attacker.target;
        out.push(
            Outgoing {
                to: Audience::Handled,
                what: Notice::AttackerState { attacker: attacker.guid, target, damage },
            },
        );
        out.push(
            Outgoing {
                to: Audience::Near { map: attacker.map, place: attacker.info.position },
                what: Notice::AttackerState { attacker: attacker.guid, target, damage },
            },
        );
        let ghost hit = to_both(
            old(attacker).map,
            old(attacker).info.position,
            Notice::AttackerState { attacker: old(attacker).guid, target, damage },
        );
        assert(out@ =~= said + hit);
        match kind {
            SwingKind::Creature(k) => {
                let mut killed: bool = false;
                match slabs::creatures_get_mut(&mut self.creatures, k) {
                    Some(c) => {
                        c.health = c.health.saturating_sub(damage);
                        c.invalidate_object_cache();
                        killed = c.health == 0;
                        if !killed {
                            let health: i32 = creature::health_on_the_wire(c.health);
                            out.push(
                                Outgoing {
                                    to: Audience::Handled,
                                    what: Notice::UnitHealth { guid: c.guid, health },
                                },
                            );
                            out.push(
                                Outgoing {
                                    to: Audience::Near { map: c.map, place: c.info.position },
                                    what: Notice::UnitHealth { guid: c.guid, health },
                                },
                            );
                        }
                    },
                    None => {
                        assert(false);
                    },
                }
                assert(self@ =~= MapView {
                    creatures: was.creatures.insert(k, hurt(was.creatures[k], damage)),
                    ..was
                });
                if killed {
                    self.kill_creature(k, now, out);
                    attacker.attacking = false;
                    attacker.target = 0;
                }
                assert(out@ =~= said + goal.said);
            },
            SwingKind::Player(k) => {
                match slabs::clients_get_mut(&mut self.clients, k) {
                    Some(c) => {
                        assert(c@ == was.clients[k]);
                        let health: u32 = c.character.apply_damage(damage);
                        let dead: bool = health == 0;
                        if dead {
                            c.character.time_of_death = Some(now);
                            c.character.attacking = false;
                            c.character.target = 0;
                            attacker.attacking = false;
                            attacker.target = 0;
                        }
                        let shown: i32 = health as i32;
                        out.push(
                            Outgoing {
                                to: Audience::Handled,
                                what: Notice::PlayerHealth { guid: target, health: shown, dead },
                            },
                        );
                        out.push(
                            Outgoing {
                                to: Audience::Near { map: c.character.map, place: c.character.info.position },
                                what: Notice::PlayerHealth { guid: target, health: shown, dead },
                            },
                        );
                    },
                    None => {
                        assert(false);
                    },
                }
                assert(self@.clients =~= goal.state.clients);
                assert(self@.clients.dom() =~= was.clients.dom());
                assert(self@ =~= goal.state);
                assert(out@ =~= said + goal.said);
            },
        }
    }
}

/// A swing at somebody out of reach hurts nobody and is told to nobody.
pub proof fn out_of_reach_nobody_is_hurt(
    v: MapView,
    attacker: Character,
    kind: SwingKind,
    dist_sq: u32,
    range_sq: u32,
    roll: u64,
    now: u64,
)
    requires
        numeric::below(range_sq, dist_sq),
    ensures
        v.struck(attacker, kind, dist_sq, range_sq, roll, now).state == v,
        v.struck(attacker, kind, dist_sq, range_sq, roll, now).said.len() == 0,
{
}

/// Nobody swings at themselves, at nobody, or through to another map.
pub proof fn a_swing_stays_on_the_map(v: MapView, attacker: Character)
    requires
        v.swing_target(attacker) is Some,
        exists|s: Seq<usize>| slabs::in_order(s, v.clients.dom()),
    ensures
        attacker.target != 0,
        attacker.target != attacker.guid,
        match v.swing_target(attacker)->0.kind {
            SwingKind::Creature(k) => v.creatures.contains_key(k) && v.creatures[k].map == attacker.map,
            SwingKind::Player(k) => v.clients.contains_key(k) && v.clients[k].character.map == attacker.map
                && v.clients[k].character.current_health != 0 && v.clients[k].character.guid == attacker.target,
        },
{
    let keys = slabs::ordered(v.clients.dom());
    lemma_first_hit(v.clients, keys, 0, attacker.target, attacker.map);
    if let SwingKind::Player(k) = v.swing_target(attacker)->0.kind {
        assert(keys.contains(k));
    }
}

proof fn lemma_first_hit(clients: Map<usize, ClientView>, keys: Seq<usize>, from: int, target: u64, map: u32)
    requires
        0 <= from,
    ensures
        match first_hit(clients, keys, from, target, map) {
            Some(k) => keys.contains(k) && can_be_hit(clients[k], target, map),
            None => true,
        },
    decreases keys.len() - from,
{
    if from < keys.len() && !can_be_hit(clients[keys[from]], target, map) {
        lemma_first_hit(clients, keys, from + 1, target, map);
    }
}

/// A swing in reach takes ten to twenty health from a player, down to none, and everybody
/// near hears what was taken and what is left. Who has none left is dead from then on, and
/// neither of the two fights on; otherwise nothing else changes. The next swing is
/// due in 1.8 seconds.
pub proof fn a_swing_in_reach_wounds_a_player(
    m: &mut MapState,
    attacker: &mut Character,
    k: usize,
    dist_sq: u32,
    range_sq: u32,
    roll: u64,
    now: u64,
    out: &mut Vec<Outgoing>,
    u: (),
)
    requires
        old(m).wf(),
        old(m)@.clients.contains_key(k),
        dist_sq <= range_sq <= 0x7f80_0000 || !numeric::below(range_sq, dist_sq),
        call_ensures(
            MapState::strike,
            (m, attacker, SwingKind::Player(k), dist_sq, range_sq, roll, now, out),
            u,
        ),
    ensures
        ({
            let was = old(m)@.clients[k].character;
            let is = final(m)@.clients[k].character;
            let damage: u32 = (10 + roll % 11) as u32;
            let dead = was.current_health <= damage;
            let n = old(out)@.len() as int;
            let said = final(out)@;
            &&& is.current_health == (if dead {
                0
            } else {
                was.current_health - damage
            })
            &&& is == (if dead {
                Character { current_health: 0, time_of_death: Some(now), attacking: false, target: 0, ..was }
            } else {
                Character { current_health: is.current_health, ..was }
            })
            &&& final(attacker).auto_attack_timer == 0x3fe6_6666
            &&& *final(attacker) == (if dead {
                Character { auto_attack_timer: 0x3fe6_6666, attacking: false, target: 0, ..*old(attacker) }
            } else {
                Character { auto_attack_timer: 0x3fe6_6666, ..*old(attacker) }
            })
            &&& said.len() == n + 4
            &&& said.take(n) == old(out)@
            &&& said[n].to == Audience::Handled
            &&& said[n + 1].to == (Audience::Near { map: old(attacker).map, place: old(attacker).info.position })
            &&& said[n].what == said[n + 1].what
            &&& said[n].what == (Notice::AttackerState {
                attacker: old(attacker).guid,
                target: old(attacker).target,
                damage,
            })
            &&& said[n + 2].to == Audience::Handled
            &&& said[n + 3].to == (Audience::Near { map: was.map, place: was.info.position })
            &&& said[n + 2].what == said[n + 3].what
            &&& said[n + 2].what == (Notice::PlayerHealth {
                guid: old(attacker).target,
                health: is.current_health as i32,
                dead,
            })
            &&& final(m)@.clients[k] == (ClientView { character: is, ..old(m)@.clients[k] })
            &&& final(m)@ == (MapView { clients: old(m)@.clients.insert(k, final(m)@.clients[k]), ..old(m)@ })
        }),
{
    let n = old(out)@.len() as int;
    assert(final(out)@.take(n) =~= old(out)@);
}

/// A swing in reach takes ten to twenty health from a creature, down to none, and everybody
/// near hears of it. A living creature that has none left is a corpse from then on, its
/// death is told, and the attacker fights on no more.
pub proof fn a_swing_in_reach_wounds_a_creature(
    m: &mut MapState,
    attacker: &mut Character,
    k: usize,
    dist_sq: u32,
    range_sq: u32,
    roll: u64,
    now: u64,
    out: &mut Vec<Outgoing>,
    u: (),
)
    requires
        old(m).wf(),
        old(m)@.creatures.contains_key(k),
        dist_sq <= range_sq <= 0x7f80_0000 || !numeric::below(range_sq, dist_sq),
        call_ensures(
            MapState::strike,
            (m, attacker, SwingKind::Creature(k), dist_sq, range_sq, roll, now, out),
            u,
        ),
    ensures
        ({
            let was = old(m)@.creatures[k];
            let is = final(m)@.creatures[k];
            let damage: u32 = (10 + roll % 11) as u32;
            let dead = was.health <= damage;
            let n = old(out)@.len() as int;
            let said = final(out)@;
            &&& is.health == (if dead {
                0
            } else {
                was.health - damage
            })
            &&& is.life_state == (if dead && was.life_state is Alive {
                creature::CreatureLifeState::Corpse { died_at: now }
            } else {
                was.life_state
            })
            &&& is.info == was.info && is.guid == was.guid && is.max_health == was.max_health && is.behavior
                == was.behavior && is.cached_object is None
            &&& *final(attacker) == (if dead {
                Character { auto_attack_timer: 0x3fe6_6666, attacking: false, target: 0, ..*old(attacker) }
            } else {
                Character { auto_attack_timer: 0x3fe6_6666, ..*old(attacker) }
            })
            &&& said.len() >= n + 2
            &&& said.take(n) == old(out)@
            &&& said[n].to == Audience::Handled
            &&& said[n + 1].to == (Audience::Near { map: old(attacker).map, place: old(attacker).info.position })
            &&& said[n].what == said[n + 1].what
            &&& said[n].what == (Notice::AttackerState {
                attacker: old(attacker).guid,
                target: old(attacker).target,
                damage,
            })
            &&& !dead ==> said.len() == n + 4 && said[n + 2].to == Audience::Handled && said[n + 3].to == (
            Audience::Near { map: was.map, place: was.info.position }) && said[n + 2].what == said[n + 3].what
                && said[n + 2].what == (Notice::UnitHealth { guid: was.guid, health: creature::shown_health(is.health) })
            &&& dead && was.life_state is Alive ==> said.len() == n + 3 && said[n + 2].to == (Audience::Near {
                map: was.map,
                place: was.info.position,
            }) && said[n + 2].what == (Notice::UnitDied { guid: was.guid })
            &&& final(m)@.clients == old(m)@.clients
            &&& forall|j: usize| j != k ==> #[trigger] final(m)@.creatures[j] == old(m)@.creatures[j]
        }),
{
    let n = old(out)@.len() as int;
    assert(final(out)@.take(n) =~= old(out)@);
}

/// A swing at somebody farther away than the reach does nothing but that it is tried again
/// in a tenth of a second.
pub proof fn a_swing_out_of_reach_is_tried_again(
    m: &mut MapState,
    attacker: &mut Character,
    kind: SwingKind,
    dist_sq: u32,
    range_sq: u32,
    roll: u64,
    now: u64,
    out: &mut Vec<Outgoing>,
    u: (),
)
    requires
        old(m).wf(),
        match kind {
            SwingKind::Creature(k) => old(m)@.creatures.contains_key(k),
            SwingKind::Player(k) => old(m)@.clients.contains_key(k),
        },
        range_sq < dist_sq <= 0x7f80_0000,
        call_ensures(MapState::strike, (m, attacker, kind, dist_sq, range_sq, roll, now, out), u),
    ensures
        final(m)@ == old(m)@,
        final(out)@ == old(out)@,
        *final(attacker) == (Character { auto_attack_timer: 0x3dcc_cccd, ..*old(attacker) }),
{
    assert(final(out)@ =~= old(out)@);
}

/// A swing is due exactly of somebody who attacks, lives, and whose timer is at zero or
/// below.
pub proof fn who_attacks_swings_in_time(c: &Character, r: bool)
    requires
        call_ensures(swing_is_due, (c,), r),
    ensures
        r ==> c.attacking && c.current_health > 0,
        c.attacking && c.current_health > 0 && c.auto_attack_timer == 0 ==> r,
        c.attacking && c.current_health > 0 && 0x8000_0000 <= c.auto_attack_timer <= 0xff80_0000 ==> r,
        0 < c.auto_attack_timer <= 0x7f80_0000 ==> !r,
{
}

proof fn lemma_a_hit_is_first(clients: Map<usize, ClientView>, keys: Seq<usize>, from: int, at: int, target: u64, map: u32)
    requires
        0 <= from <= at < keys.len(),
        can_be_hit(clients[keys[at]], target, map),
    ensures
        first_hit(clients, keys, from, target, map) is Some,
    decreases at - from,
{
    if from < at && !can_be_hit(clients[keys[from]], target, map) {
        lemma_a_hit_is_first(clients, keys, from + 1, at, target, map);
    }
}

/// Whoever is attacked is found: a creature of that guid on the attacker's map, and
/// otherwise a living player of that guid on it. Nobody else is, neither the attacker nor
/// nobody, and they are where they are and move as they do.
pub proof fn whoever_is_attacked_is_found(m: &MapState, attacker: &Character, r: Option<SwingTarget>, p: usize)
    requires
        m.wf(),
        call_ensures(MapState::resolve_swing, (m, attacker), r),
    ensures
        attacker.target == 0 || attacker.target == attacker.guid ==> r is None,
        attacker.target != 0 && attacker.target != attacker.guid ==> {
            let target = attacker.target;
            &&& m@.creature_keys.contains_key(target) ==> {
                let k = m@.creature_keys[target] as usize;
                if m@.creatures.contains_key(k) && m@.creatures[k].map == attacker.map {
                    &&& r is Some
                    &&& r->0.kind == SwingKind::Creature(k)
                    &&& r->0.place == m@.creatures[k].info.position
                    &&& r->0.moving == (m@.creatures[k].info.flags % 16 != 0)
                } else {
                    r is None
                }
            }
            &&& !m@.creature_keys.contains_key(target) && m@.clients.contains_key(p) && m@.clients[p].character.guid
                == target && m@.clients[p].character.current_health > 0 && m@.clients[p].character.map == attacker.map
                ==> r is Some
            &&& !m@.creature_keys.contains_key(target) && r is Some ==> r->0.kind is Player && {
                let k = r->0.kind->Player_0;
                let c = m@.clients[k].character;
                &&& m@.clients.contains_key(k)
                &&& c.guid == target
                &&& c.current_health > 0
                &&& c.map == attacker.map
                &&& r->0.place == c.info.position
                &&& r->0.moving == (c.info.flags % 16 != 0)
            }
        },
{
    crate::map_state::clients_are_in_order(*m);
    let keys = slabs::ordered(m@.clients.dom());
    let target = attacker.target;
    lemma_first_hit(m@.clients, keys, 0, target, attacker.map);
    if m@.clients.contains_key(p) && can_be_hit(m@.clients[p], target, attacker.map) {
        assert(keys.contains(p));
        let at = choose|at: int| 0 <= at < keys.len() && keys[at] == p;
        lemma_a_hit_is_first(m@.clients, keys, 0, at, target, attacker.map);
    }
    if m@.creature_keys.contains_key(target) {
        let f = m@.creatures[m@.creature_keys[target] as usize].info.flags;
        assert((f & 1 != 0 || f & 2 != 0 || f & 4 != 0 || f & 8 != 0) <==> f % 16 != 0) by (bit_vector);
    } else if let Some(k) = first_hit(m@.clients, keys, 0, target, attacker.map) {
        assert(keys.contains(k));
        let f = m@.clients[k].character.info.flags;
        assert((f & 1 != 0 || f & 2 != 0 || f & 4 != 0 || f & 8 != 0) <==> f % 16 != 0) by (bit_vector);
    }
}

} // verus!
