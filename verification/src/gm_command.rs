//! What the commands of game masters do.
use crate::character::Character;
use crate::client::{Client, ClientView};
use crate::clock;
use crate::command::{CommandQueue, WorldCommand};
use crate::config::RespawnConfig;
use crate::creature::{Creature, CreatureBehavior, CreatureLifeState, Position};
use crate::database::{DbView, WorldDatabase};
use crate::dice;
use crate::entities::Entity;
use crate::gm_parser::GmCommand;
use crate::inventory;
use crate::inventory::BAG_START;
use crate::item::{Item, ItemObject};
use crate::map_state::{MapState, MapView};
use crate::numeric;
use crate::player;
use crate::player::TeleportKind;
use crate::rank;
use crate::rank::Ranked;
use crate::slabs;
use crate::spells;
use crate::spells::NovaOutcome;
use vstd::prelude::*;

verus! {

/// What came of giving an item: the slot that it is in, if there was room.
#[derive(Debug, Clone, Copy)]
pub struct Award {
    pub item: Item,
    pub object: ItemObject,
    pub slot: Option<u8>,
}

/// Put an item into the backpack of a character.
pub fn award_item(item: Item, c: &mut Character) -> (r: Award)
    ensures
        r.item == item,
        call_ensures(Item::to_create_item_object, (item, old(c).guid), r.object),
        match r.slot {
            Some(slot) => inventory::first_free(old(c).inventory@, BAG_START as int) == Some(slot as int)
                && final(c).inventory@ == old(c).inventory@.update(slot as int, Some(item)),
            None => inventory::first_free(old(c).inventory@, BAG_START as int) is None && final(c).inventory@ == old(
                c,
            ).inventory@,
        },
        *final(c) == (Character { inventory: final(c).inventory, ..*old(c) }),
{
    let slot: Option<u8> = c.inventory.insert_into_first_slot(item);
    Award { item, object: item.to_create_item_object(c.guid), slot }
}

/// How creatures behave.
#[derive(Debug, Clone, Copy, PartialEq, Eq, Structural)]
pub enum Habit {
    Idle,
    Wander,
    Waypoint,
    Aggro,
}

pub open spec fn habit(c: Creature) -> Habit {
    match c.behavior {
        CreatureBehavior::Idle => Habit::Idle,
        CreatureBehavior::RandomWander { .. } => Habit::Wander,
        CreatureBehavior::Waypoint { .. } => Habit::Waypoint,
        CreatureBehavior::AggroChase => Habit::Aggro,
    }
}

/// How many of the creatures under `keys` behave like that.
pub open spec fn with_habit(creatures: Map<usize, Creature>, keys: Seq<usize>, h: Habit) -> nat
    decreases keys.len(),
{
    if keys.len() == 0 {
        0
    } else {
        with_habit(creatures, keys.drop_last(), h) + if habit(creatures[keys.last()]) == h {
            1nat
        } else {
            0nat
        }
    }
}

/// Whether creatures live.
#[derive(Debug, Clone, Copy, PartialEq, Eq, Structural)]
pub enum Condition {
    Alive,
    Corpse,
    Respawning,
}

pub open spec fn condition(c: Creature) -> Condition {
    match c.life_state {
        CreatureLifeState::Alive => Condition::Alive,
        CreatureLifeState::Corpse { .. } => Condition::Corpse,
        CreatureLifeState::Respawning { .. } => Condition::Respawning,
    }
}

/// How many of the creatures under `keys` are in that condition.
pub open spec fn in_condition(creatures: Map<usize, Creature>, keys: Seq<usize>, s: Condition) -> nat
    decreases keys.len(),
{
    if keys.len() == 0 {
        0
    } else {
        in_condition(creatures, keys.drop_last(), s) + if condition(creatures[keys.last()]) == s {
            1nat
        } else {
            0nat
        }
    }
}

/// How many creatures behave how.
#[derive(Debug, Clone, Copy)]
pub struct HabitCounts {
    pub idle: usize,
    pub wander: usize,
    pub waypoint: usize,
    pub aggro: usize,
}

/// How many creatures are in which condition.
#[derive(Debug, Clone, Copy)]
pub struct ConditionCounts {
    pub alive: usize,
    pub corpse: usize,
    pub respawning: usize,
}

impl MapState {
    pub fn count_habits(&self) -> (r: HabitCounts)
        ensures
            ({
                let keys = slabs::ordered(self@.creatures.dom());
                &&& r.idle == with_habit(self@.creatures, keys, Habit::Idle)
                &&& r.wander == with_habit(self@.creatures, keys, Habit::Wander)
                &&& r.waypoint == with_habit(self@.creatures, keys, Habit::Waypoint)
                &&& r.aggro == with_habit(self@.creatures, keys, Habit::Aggro)
            }),
    {
        let keys = slabs::creatures_keys(&self.creatures);
        proof {
            slabs::ordered_is(keys@, self@.creatures.dom());
        }
        let mut r = HabitCounts { idle: 0, wander: 0, waypoint: 0, aggro: 0 };
        let mut i: usize = 0;
        assert(keys@.take(0) =~= Seq::<usize>::empty());
        while i < keys.len()
            invariant
                i <= keys@.len(),
                slabs::in_order(keys@, self@.creatures.dom()),
                r.idle <= i,
                r.wander <= i,
                r.waypoint <= i,
                r.aggro <= i,
                r.idle == with_habit(self@.creatures, keys@.take(i as int), Habit::Idle),
                r.wander == with_habit(self@.creatures, keys@.take(i as int), Habit::Wander),
                r.waypoint == with_habit(self@.creatures, keys@.take(i as int), Habit::Waypoint),
                r.aggro == with_habit(self@.creatures, keys@.take(i as int), Habit::Aggro),
            decreases keys.len() - i,
        {
            let key: usize = keys[i];
            assert(keys@.contains(key));
            assert(keys@.take(i + 1).drop_last() =~= keys@.take(i as int));
            assert(keys@.take(i + 1).last() == key);
            if let Some(c) = slabs::creatures_get(&self.creatures, key) {
                match &c.behavior {
                    CreatureBehavior::Idle => {
                        r.idle = r.idle + 1;
                    },
                    CreatureBehavior::RandomWander { .. } => {
                        r.wander = r.wander + 1;
                    },
                    CreatureBehavior::Waypoint { .. } => {
                        r.waypoint = r.waypoint + 1;
                    },
                    CreatureBehavior::AggroChase => {
                        r.aggro = r.aggro + 1;
                    },
                }
            }
            i += 1;
        }
        assert(keys@.take(i as int) =~= keys@);
        r
    }

    pub fn count_conditions(&self) -> (r: ConditionCounts)
        ensures
            ({
                let keys = slabs::ordered(self@.creatures.dom());
                &&& r.alive == in_condition(self@.creatures, keys, Condition::Alive)
                &&& r.corpse == in_condition(self@.creatures, keys, Condition::Corpse)
                &&& r.respawning == in_condition(self@.creatures, keys, Condition::Respawning)
            }),
    {
        let keys = slabs::creatures_keys(&self.creatures);
        proof {
            slabs::ordered_is(keys@, self@.creatures.dom());
        }
        let mut r = ConditionCounts { alive: 0, corpse: 0, respawning: 0 };
        let mut i: usize = 0;
        assert(keys@.take(0) =~= Seq::<usize>::empty());
        while i < keys.len()
            invariant
                i <= keys@.len(),
                slabs::in_order(keys@, self@.creatures.dom()),
                r.alive <= i,
                r.corpse <= i,
                r.respawning <= i,
                r.alive == in_condition(self@.creatures, keys@.take(i as int), Condition::Alive),
                r.corpse == in_condition(self@.creatures, keys@.take(i as int), Condition::Corpse),
                r.respawning == in_condition(self@.creatures, keys@.take(i as int), Condition::Respawning),
            decreases keys.len() - i,
        {
            let key: usize = keys[i];
            assert(keys@.contains(key));
            assert(keys@.take(i + 1).drop_last() =~= keys@.take(i as int));
            assert(keys@.take(i + 1).last() == key);
            if let Some(c) = slabs::creatures_get(&self.creatures, key) {
                match c.life_state {
                    CreatureLifeState::Alive => {
                        r.alive = r.alive + 1;
                    },
                    CreatureLifeState::Corpse { .. } => {
                        r.corpse = r.corpse + 1;
                    },
                    CreatureLifeState::Respawning { .. } => {
                        r.respawning = r.respawning + 1;
                    },
                }
            }
            i += 1;
        }
        assert(keys@.take(i as int) =~= keys@);
        r
    }
}

/// What a game master is told of who is online.
#[derive(Debug)]
pub struct PlayersReport {
    pub total: usize,
    pub near: usize,
    /// The maps with most players, the fullest first.
    pub per_map: Vec<Ranked>,
    pub creatures: ConditionCounts,
}

/// How many maps a report lists.
pub const MAPS_LISTED: usize = 6;

/// How many regions a report lists.
pub const REGIONS_LISTED: usize = 4;

/// The maps of the players under `keys`.
pub open spec fn maps_of(clients: Map<usize, ClientView>, keys: Seq<usize>) -> Seq<u64> {
    keys.map_values(|k: usize| clients[k].character.map as u64)
}

/// How many entries of `dists` are of players on `map` at most that far away.
pub open spec fn how_many_near(clients: Map<usize, ClientView>, dists: Seq<(usize, u32)>, map: u32, radius_sq: u32) -> nat
    decreases dists.len(),
{
    if dists.len() == 0 {
        0
    } else {
        let d = dists.last();
        how_many_near(clients, dists.drop_last(), map, radius_sq) + if clients.contains_key(d.0)
            && clients[d.0].character.map == map && numeric::at_most(d.1, radius_sq) {
            1nat
        } else {
            0nat
        }
    }
}

/// Whether `r` lists the first `n` of a ranking.
pub open spec fn tops(r: Seq<Ranked>, main: Seq<u64>, side: Seq<u64>, n: int) -> bool {
    exists|all: Seq<Ranked>| #[trigger]
        rank::ranks(all, main, side) && r == (if all.len() > n {
            all.take(n)
        } else {
            all
        })
}

impl MapState {
    fn maps_of_players(&self) -> (r: Vec<u64>)
        ensures
            r@ == maps_of(self@.clients, slabs::ordered(self@.clients.dom())),
    {
        let keys = slabs::clients_keys(&self.clients);
        proof {
            assert(slabs::clients(self.clients).dom() =~= self@.clients.dom());
            slabs::ordered_is(keys@, self@.clients.dom());
        }
        let mut r: Vec<u64> = Vec::new();
        let mut i: usize = 0;
        assert(r@ =~= maps_of(self@.clients, keys@.take(0)));
        while i < keys.len()
            invariant
                i <= keys@.len(),
                slabs::in_order(keys@, self@.clients.dom()),
                r@ == maps_of(self@.clients, keys@.take(i as int)),
            decreases keys.len() - i,
        {
            let key: usize = keys[i];
            assert(keys@.contains(key));
            match slabs::clients_get(&self.clients, key) {
                Some(c) => {
                    assert(c@ == self@.clients[key]);
                    r.push(c.character.map as u64);
                },
                None => {
                    assert(false);
                },
            }
            i += 1;
            assert(r@ =~= maps_of(self@.clients, keys@.take(i as int)));
        }
        assert(keys@.take(i as int) =~= keys@);
        r
    }

    fn count_near(&self, dists: &Vec<(usize, u32)>, map: u32, radius_sq: u32) -> (r: usize)
        ensures
            r == how_many_near(self@.clients, dists@, map, radius_sq),
    {
        let mut n: usize = 0;
        let mut i: usize = 0;
        assert(dists@.take(0) =~= Seq::<(usize, u32)>::empty());
        while i < dists.len()
            invariant
                i <= dists@.len(),
                n <= i,
                n == how_many_near(self@.clients, dists@.take(i as int), map, radius_sq),
            decreases dists.len() - i,
        {
            let d: (usize, u32) = dists[i];
            assert(dists@.take(i + 1).drop_last() =~= dists@.take(i as int));
            assert(dists@.take(i + 1).last() == d);
            if let Some(c) = slabs::clients_get(&self.clients, d.0) {
                assert(c@ == self@.clients[d.0]);
                if c.character.map == map && numeric::is_at_most(d.1, radius_sq) {
                    n += 1;
                }
            }
            i += 1;
        }
        assert(dists@.take(i as int) =~= dists@);
        n
    }

    /// Report who is online. `dists` holds how far away the players are.
    pub fn report_players(&self, map: u32, dists: &Vec<(usize, u32)>, radius_sq: u32) -> (r: PlayersReport)
        ensures
            r.total == self@.clients.dom().len(),
            r.near == how_many_near(self@.clients, dists@, map, radius_sq),
            tops(
                r.per_map@,
                maps_of(self@.clients, slabs::ordered(self@.clients.dom())),
                Seq::empty(),
                MAPS_LISTED as int,
            ),
            call_ensures(MapState::count_conditions, (self,), r.creatures),
    {
        assert(slabs::clients(self.clients).dom() =~= self@.clients.dom());
        let maps = self.maps_of_players();
        let none: Vec<u64> = Vec::new();
        let all = rank::rank(&maps, &none);
        assert(none@ =~= Seq::<u64>::empty());
        assert(rank::ranks(all@, maps@, Seq::empty()));
        PlayersReport {
            total: slabs::clients_len(&self.clients),
            near: self.count_near(dists, map, radius_sq),
            per_map: rank::top(&all, MAPS_LISTED),
            creatures: self.count_conditions(),
        }
    }
}

/// What a game master is told of where the players are.
#[derive(Debug)]
pub struct RegionsReport {
    pub populated: usize,
    pub top: Vec<Ranked>,
}

/// Report the regions with most players, the fullest first, and where two are
/// equally full the one with more creatures. `players` and `creatures` hold the
/// region of each.
pub fn report_regions(players: &Vec<u64>, creatures: &Vec<u64>) -> (r: RegionsReport)
    ensures
        tops(r.top@, players@, creatures@, REGIONS_LISTED as int),
        exists|all: Seq<Ranked>| #[trigger]
            rank::ranks(all, players@, creatures@) && r.populated == all.len(),
{
    let all = rank::rank(players, creatures);
    assert(rank::ranks(all@, players@, creatures@));
    RegionsReport { populated: all.len(), top: rank::top(&all, REGIONS_LISTED) }
}

/// How far away everybody is from a game master.
#[derive(Debug)]
pub struct Surroundings {
    pub creature_dists: Vec<(usize, u32)>,
    pub client_dists: Vec<(usize, u32)>,
    /// As on the ground, without regard to height.
    pub flat_dists: Vec<(usize, u32)>,
    pub sight_sq: u32,
    /// The run speed that a command asks for: the usual one times the number given.
    pub run_speed: u32,
    pub player_regions: Vec<u64>,
    pub creature_regions: Vec<u64>,
}

/// What came of a command.
#[derive(Debug)]
pub enum GmOutcome {
    /// The rest is arithmetic on coordinates, a file or a look at the terrain.
    Pending(GmCommand),
    Teleported { kind: TeleportKind, to: Position },
    SpeedSet { guid: u64, speed: u32 },
    Awarded(Award),
    Spawned { name: String, display_id: u16 },
    NpcMoved { who: Option<u64> },
    Boom(Vec<(u64, u32)>),
    Nova(NovaOutcome),
    Creatures(HabitCounts),
    Players(PlayersReport),
    Cells(RegionsReport),
    Info(Entity),
    NotFound(u64),
    Yells(Vec<(u64, String)>),
}

/// Whether `c` is the creature that is spawned when `next_guid` is the next guid.
pub open spec fn is_spawn(
    c: Creature,
    name: Seq<char>,
    display_id: u16,
    next_guid: u64,
    at: Position,
    config: RespawnConfig,
    now: u64,
) -> bool {
    &&& c.name@ == name
    &&& c.guid == next_guid + 1
    &&& c.entry == next_guid as u32
    &&& c.display_id == display_id
    &&& c.is_fresh(at, config, now)
}

/// The name and the look of a new creature, and the dice afterwards: what is not
/// given is drawn at random, the look first.
pub open spec fn drawn(display_id: Option<u16>, name: Option<String>, x: u64) -> (Seq<char>, u16, u64) {
    let mid = if display_id is Some {
        x
    } else {
        dice::after(x)
    };
    let shown = match display_id {
        Some(d) => d,
        None => dice::display_id(mid),
    };
    match name {
        Some(n) => (n@, shown, mid),
        None => {
            let first = dice::after(mid);
            let n = (first % 6 + 5) as nat;
            (dice::letters(first, n), shown, dice::after_n(first, n))
        },
    }
}

/// Spawn a creature where the game master stands. Look and name are drawn at
/// random where they are not given.
pub fn spawn_creature(
    display_id: Option<u16>,
    name: Option<String>,
    at: Position,
    db: &mut WorldDatabase,
    commands: &mut CommandQueue,
    dice: &mut u64,
    config: &RespawnConfig,
    now: u64,
) -> (r: (String, u16))
    requires
        old(db).wf(),
        old(db)@.next_guid + 2 <= u64::MAX,
    ensures
        final(db).wf(),
        final(db)@ == (DbView { next_guid: (old(db)@.next_guid + 2) as u64, ..old(db)@ }),
        final(commands)@.len() == old(commands)@.len() + 1,
        final(commands)@.drop_last() == old(commands)@,
        final(commands)@.last() matches WorldCommand::SpawnCreature(c) && is_spawn(
            c,
            r.0@,
            r.1,
            old(db)@.next_guid,
            at,
            *config,
            now,
        ),
        (r.0@, r.1, *final(dice)) == drawn(display_id, name, *old(dice)),
{
    let display_id: u16 = match display_id {
        Some(d) => d,
        None => dice::random_display_id(dice),
    };
    let name: String = match name {
        Some(n) => n,
        None => dice::random_name(dice),
    };
    let entry: u32 = db.new_guid() as u32;
    let guid: u64 = db.new_guid();
    let creature = Creature::with_display(name.clone(), guid, display_id, entry, at, config, now);
    commands.push(WorldCommand::SpawnCreature(creature));
    assert(commands@.drop_last() =~= old(commands)@);
    (name, display_id)
}

/// The states of the dice before each of `n` yells.
pub open spec fn dice_before_yell(x: u64, n: nat) -> u64
    decreases n,
{
    if n == 0 {
        x
    } else {
        let before = dice_before_yell(x, (n - 1) as nat);
        dice::after_n(before, dice::yell(before).1)
    }
}

/// Let everybody under `senders` yell.
pub fn yell_all(senders: &Vec<u64>, dice: &mut u64) -> (r: Vec<(u64, String)>)
    ensures
        r@.len() == senders@.len(),
        forall|i: int|
            0 <= i < r@.len() ==> (#[trigger] r@[i]).0 == senders@[i] && r@[i].1@ == dice::yell(
                dice_before_yell(*old(dice), i as nat),
            ).0,
        *final(dice) == dice_before_yell(*old(dice), senders@.len()),
{
    let mut r: Vec<(u64, String)> = Vec::new();
    let mut i: usize = 0;
    while i < senders.len()
        invariant
            i <= senders@.len(),
            r@.len() == i,
            *dice == dice_before_yell(*old(dice), i as nat),
            forall|j: int|
                0 <= j < i ==> (#[trigger] r@[j]).0 == senders@[j] && r@[j].1@ == dice::yell(
                    dice_before_yell(*old(dice), j as nat),
                ).0,
        decreases senders.len() - i,
    {
        let text = dice::swifty_invasion_yell(dice);
        r.push((senders[i], text));
        i += 1;
    }
    r
}

/// The guids of the players under `keys`.
pub open spec fn player_guids(clients: Map<usize, ClientView>, keys: Seq<usize>) -> Seq<u64> {
    keys.map_values(|k: usize| clients[k].character.guid)
}

impl MapState {
    fn guids_of_players(&self) -> (r: Vec<u64>)
        ensures
            r@ == player_guids(self@.clients, slabs::ordered(self@.clients.dom())),
    {
        let keys = slabs::clients_keys(&self.clients);
        proof {
            assert(slabs::clients(self.clients).dom() =~= self@.clients.dom());
            slabs::ordered_is(keys@, self@.clients.dom());
        }
        let mut r: Vec<u64> = Vec::new();
        let mut i: usize = 0;
        assert(r@ =~= player_guids(self@.clients, keys@.take(0)));
        while i < keys.len()
            invariant
                i <= keys@.len(),
                slabs::in_order(keys@, self@.clients.dom()),
                r@ == player_guids(self@.clients, keys@.take(i as int)),
            decreases keys.len() - i,
        {
            let key: usize = keys[i];
            assert(keys@.contains(key));
            match slabs::clients_get(&self.clients, key) {
                Some(c) => {
                    assert(c@ == self@.clients[key]);
                    r.push(c.character.guid);
                },
                None => {
                    assert(false);
                },
            }
            i += 1;
            assert(r@ =~= player_guids(self@.clients, keys@.take(i as int)));
        }
        assert(keys@.take(i as int) =~= keys@);
        r
    }
}

/// Everything that a command can touch.
#[verifier::ext_equal]
pub struct GmScene {
    pub client: ClientView,
    pub map: MapView,
    pub db: DbView,
    pub queued: Seq<WorldCommand>,
    pub dice: u64,
}

/// Whether a command turns the scene `a` into the scene `b` with the outcome `r`.
pub open spec fn executed(
    command: GmCommand,
    a: GmScene,
    b: GmScene,
    r: GmOutcome,
    around: Surroundings,
    config: RespawnConfig,
    now: u64,
) -> bool {
    let me = a.client.character;
    match command {
        GmCommand::Teleport(p) => {
            &&& r == (GmOutcome::Teleported {
                kind: if p.map == me.map {
                    TeleportKind::Near
                } else {
                    TeleportKind::Far
                },
                to: p,
            })
            &&& b == (GmScene {
                client: ClientView {
                    character: player::moved_to(me, p),
                    in_process_of_teleport: true,
                    ..a.client
                },
                ..a
            })
        },
        GmCommand::SetRunSpeed(_) => {
            &&& r == (GmOutcome::SpeedSet { guid: me.guid, speed: around.run_speed })
            &&& b == (GmScene {
                client: ClientView { character: Character { movement_speed: around.run_speed, ..me }, ..a.client },
                ..a
            })
        },
        GmCommand::AddItem(data) => {
            let item = Item { item: data, guid: a.db.next_guid, amount: 1, creator: me.guid };
            let after = b.client.character;
            &&& r matches GmOutcome::Awarded(award) && award.item == item && match award.slot {
                Some(slot) => inventory::first_free(me.inventory@, BAG_START as int) == Some(slot as int)
                    && after.inventory@ == me.inventory@.update(slot as int, Some(item)),
                None => inventory::first_free(me.inventory@, BAG_START as int) is None && after.inventory@
                    == me.inventory@,
            } && call_ensures(Item::to_create_item_object, (item, me.guid), award.object)
            &&& b == (GmScene {
                client: ClientView { character: Character { inventory: after.inventory, ..me }, ..a.client },
                db: DbView { next_guid: (a.db.next_guid + 1) as u64, ..a.db },
                ..a
            })
        },
        GmCommand::Spawn { display_id, name } => {
            let at = Position { map: me.map, place: me.info.position, orientation: me.info.orientation };
            &&& r matches GmOutcome::Spawned { name: given, display_id: shown } && b.queued.len() == a.queued.len() + 1
                && (b.queued.last() matches WorldCommand::SpawnCreature(c) && is_spawn(
                c,
                given@,
                shown,
                a.db.next_guid,
                at,
                config,
                now,
            )) && (given@, shown, b.dice) == drawn(display_id, name, a.dice)
            &&& b == (GmScene {
                db: DbView { next_guid: (a.db.next_guid + 2) as u64, ..a.db },
                queued: a.queued.push(b.queued.last()),
                dice: b.dice,
                ..a
            })
        },
        GmCommand::MoveNpc => {
            &&& r == (GmOutcome::NpcMoved {
                who: if a.map.creatures.contains_key(0) {
                    Some(a.map.creatures[0].guid)
                } else {
                    None
                },
            })
            &&& b == a
        },
        GmCommand::Boom => {
            let hits = a.map.boom_hits(around.creature_dists@, me.map);
            &&& r matches GmOutcome::Boom(told) && told@ == hits
            &&& b == (GmScene {
                map: a.map.boomed(around.creature_dists@, me.map),
                queued: a.queued + spells::kills(hits),
                ..a
            })
        },
        GmCommand::Nova => {
            let until = clock::later_spec(now, spells::ROOT_DURATION);
            let mid = a.map.creatures_frozen(around.creature_dists@, me.map, until);
            &&& r matches GmOutcome::Nova(told) && told.creature_hits@ == a.map.nova_hits(
                around.creature_dists@,
                me.map,
                until,
            ) && told.creature_stops@ == a.map.nova_stops(around.creature_dists@, me.map, until)
                && told.client_hits@ == mid.player_hits(around.client_dists@, me.map, me.guid, until)
            &&& b == (GmScene { map: mid.players_frozen(around.client_dists@, me.map, me.guid, until), ..a })
        },
        GmCommand::WorldDbInfo => {
            let keys = slabs::ordered(a.map.creatures.dom());
            &&& r matches GmOutcome::Creatures(n) && n.idle == with_habit(a.map.creatures, keys, Habit::Idle)
                && n.wander == with_habit(a.map.creatures, keys, Habit::Wander) && n.waypoint == with_habit(
                a.map.creatures,
                keys,
                Habit::Waypoint,
            ) && n.aggro == with_habit(a.map.creatures, keys, Habit::Aggro)
            &&& b == a
        },
        GmCommand::Players => {
            let keys = slabs::ordered(a.map.creatures.dom());
            &&& r matches GmOutcome::Players(n) && n.total == a.map.clients.dom().len() && n.near == how_many_near(
                a.map.clients,
                around.flat_dists@,
                me.map,
                around.sight_sq,
            ) && tops(
                n.per_map@,
                maps_of(a.map.clients, slabs::ordered(a.map.clients.dom())),
                Seq::empty(),
                MAPS_LISTED as int,
            ) && n.creatures.alive == in_condition(a.map.creatures, keys, Condition::Alive) && n.creatures.corpse
                == in_condition(a.map.creatures, keys, Condition::Corpse) && n.creatures.respawning == in_condition(
                a.map.creatures,
                keys,
                Condition::Respawning,
            )
            &&& b == a
        },
        GmCommand::Cells => {
            &&& r matches GmOutcome::Cells(n) && tops(
                n.top@,
                around.player_regions@,
                around.creature_regions@,
                REGIONS_LISTED as int,
            ) && (exists|all: Seq<Ranked>| #[trigger]
                rank::ranks(all, around.player_regions@, around.creature_regions@) && n.populated == all.len())
            &&& b == a
        },
        GmCommand::Information(guid) => {
            &&& r == (match a.map.entity(guid) {
                Some(e) => GmOutcome::Info(e),
                None => GmOutcome::NotFound(guid),
            })
            &&& b == a
        },
        GmCommand::ShouldHaveLineOfSight(guid) | GmCommand::ShouldNotHaveLineOfSight(guid) => {
            &&& r == (match a.map.player(guid) {
                Some(k) => GmOutcome::Info(Entity::Player(k)),
                None => GmOutcome::NotFound(guid),
            })
            &&& b == a
        },
        GmCommand::Swifty => {
            let senders = player_guids(a.map.clients, slabs::ordered(a.map.clients.dom())).push(me.guid);
            &&& r matches GmOutcome::Yells(told) && told@.len() == senders.len() && (forall|i: int|
                0 <= i < told@.len() ==> (#[trigger] told@[i]).0 == senders[i] && told@[i].1@ == dice::yell(
                    dice_before_yell(a.dice, i as nat),
                ).0)
            &&& b == (GmScene { dice: dice_before_yell(a.dice, senders.len()), ..a })
        },
        _ => r == GmOutcome::Pending(command) && b == a,
    }
}

/// Carry out a command of the client, which is held out of its map.
pub fn gm_command(
    command: GmCommand,
    client: &mut Client,
    map: &mut MapState,
    db: &mut WorldDatabase,
    commands: &mut CommandQueue,
    dice: &mut u64,
    around: &Surroundings,
    config: &RespawnConfig,
    now: u64,
) -> (r: GmOutcome)
    requires
        old(map).wf(),
        old(db).wf(),
        old(db)@.next_guid + 2 <= u64::MAX,
    ensures
        final(map).wf(),
        final(map)@.keeps_clients_of(old(map)@),
        final(db).wf(),
        executed(
            command,
            (GmScene {
                client: old(client)@,
                map: old(map)@,
                db: old(db)@,
                queued: old(commands)@,
                dice: *old(dice),
            }),
            (GmScene {
                client: final(client)@,
                map: final(map)@,
                db: final(db)@,
                queued: final(commands)@,
                dice: *final(dice),
            }),
            r,
            *around,
            *config,
            now,
        ),
{
    let ghost a = GmScene { client: client@, map: map@, db: db@, queued: commands@, dice: *dice };
    match command {
        GmCommand::Teleport(p) => {
            let kind = player::prepare_teleport(p, client);
            GmOutcome::Teleported { kind, to: p }
        },
        GmCommand::SetRunSpeed(_) => {
            client.character.movement_speed = around.run_speed;
            GmOutcome::SpeedSet { guid: client.character.guid, speed: around.run_speed }
        },
        GmCommand::AddItem(data) => {
            let item = Item::new(data, client.character.guid, 1, db);
            GmOutcome::Awarded(award_item(item, &mut client.character))
        },
        GmCommand::Spawn { display_id, name } => {
            let at = client.position();
            let (name, display_id) = spawn_creature(display_id, name, at, db, commands, dice, config, now);
            proof {
                let b = GmScene { client: client@, map: map@, db: db@, queued: commands@, dice: *dice };
                assert(commands@ =~= a.queued.push(commands@.last()));
                assert(b =~= GmScene {
                    db: DbView { next_guid: (a.db.next_guid + 2) as u64, ..a.db },
                    queued: a.queued.push(b.queued.last()),
                    dice: b.dice,
                    ..a
                });
            }
            GmOutcome::Spawned { name, display_id }
        },
        GmCommand::MoveNpc => {
            let who: Option<u64> = match slabs::creatures_get(&map.creatures, 0) {
                Some(c) => Some(c.guid),
                None => None,
            };
            GmOutcome::NpcMoved { who }
        },
        GmCommand::Boom => GmOutcome::Boom(map.boom(&around.creature_dists, client.character.map, commands)),
        GmCommand::Nova => GmOutcome::Nova(
            map.nova(&client.character, &around.creature_dists, &around.client_dists, now),
        ),
        GmCommand::WorldDbInfo => GmOutcome::Creatures(map.count_habits()),
        GmCommand::Players => GmOutcome::Players(
            map.report_players(client.character.map, &around.flat_dists, around.sight_sq),
        ),
        GmCommand::Cells => GmOutcome::Cells(report_regions(&around.player_regions, &around.creature_regions)),
        GmCommand::Information(guid) => match map.find_guid(guid) {
            Some(e) => GmOutcome::Info(e),
            None => GmOutcome::NotFound(guid),
        },
        GmCommand::ShouldHaveLineOfSight(guid) => match map.find_player(guid) {
            Some(k) => GmOutcome::Info(Entity::Player(k)),
            None => GmOutcome::NotFound(guid),
        },
        GmCommand::ShouldNotHaveLineOfSight(guid) => match map.find_player(guid) {
            Some(k) => GmOutcome::Info(Entity::Player(k)),
            None => GmOutcome::NotFound(guid),
        },
        GmCommand::Swifty => {
            let mut senders = map.guids_of_players();
            senders.push(client.character.guid);
            GmOutcome::Yells(yell_all(&senders, dice))
        },
        other => GmOutcome::Pending(other),
    }
}

/// A game master who teleports is where they went, and on the way until they arrive; one who
/// sets their speed has it; and neither changes anything else.
pub proof fn a_game_master_goes_where_told(
    command: GmCommand,
    client: &mut Client,
    map: &mut MapState,
    db: &mut WorldDatabase,
    commands: &mut CommandQueue,
    dice: &mut u64,
    around: &Surroundings,
    config: &RespawnConfig,
    now: u64,
    r: GmOutcome,
    p: Position,
)
    requires
        old(map).wf(),
        old(db).wf(),
        old(db)@.next_guid + 2 <= u64::MAX,
        call_ensures(gm_command, (command, client, map, db, commands, dice, around, config, now), r),
    ensures
        command == GmCommand::Teleport(p) ==> {
            &&& final(client)@.character.map == p.map
            &&& final(client)@.character.info.position == p.place
            &&& final(client)@.character.info.orientation == p.orientation
            &&& final(client)@.in_process_of_teleport
            &&& r is Teleported && r->to == p
            &&& r->Teleported_kind is Near <==> old(client)@.character.map == p.map
        },
        command is SetRunSpeed ==> final(client)@.character.movement_speed == around.run_speed && r
            == (GmOutcome::SpeedSet { guid: old(client)@.character.guid, speed: around.run_speed })
            && final(client)@.character.info == old(client)@.character.info,
        command is Teleport || command is SetRunSpeed ==> final(map)@ == old(map)@ && final(db)@ == old(db)@ && final(commands)@ == old(commands)@ && final(client)@.character.inventory == old(client)@.character.inventory
            && final(client)@.character.current_health == old(client)@.character.current_health
            && final(client)@.visible == old(client)@.visible,
{
}

/// An item that is added is new, is made by the game master and is in the first empty slot of
/// their backpack; with no room it is in none. What is spawned stands where the game master
/// stands, with the look and name that were given.
pub proof fn a_game_master_gets_what_they_ask(
    command: GmCommand,
    client: &mut Client,
    map: &mut MapState,
    db: &mut WorldDatabase,
    commands: &mut CommandQueue,
    dice: &mut u64,
    around: &Surroundings,
    config: &RespawnConfig,
    now: u64,
    r: GmOutcome,
    data: crate::item::ItemData,
    i: int,
)
    requires
        old(map).wf(),
        old(db).wf(),
        old(db)@.next_guid + 2 <= u64::MAX,
        call_ensures(gm_command, (command, client, map, db, commands, dice, around, config, now), r),
        0 <= i < 113,
    ensures
        command == GmCommand::AddItem(data) ==> {
            let was = old(client)@.character.inventory@;
            let after = final(client)@.character.inventory@;
            let item = Item {
                item: data,
                guid: old(db)@.next_guid,
                amount: 1,
                creator: old(client)@.character.guid,
            };
            &&& r is Awarded
            &&& r->Awarded_0.item == item
            &&& r->Awarded_0.slot is Some ==> 23 <= r->Awarded_0.slot->0 <= 38 && was[r->Awarded_0.slot->0 as int] is None
                && after[r->Awarded_0.slot->0 as int] == Some(item)
            &&& r->Awarded_0.slot is Some && i != r->Awarded_0.slot->0 ==> after[i] == was[i]
            &&& r->Awarded_0.slot is Some && 23 <= i < r->Awarded_0.slot->0 ==> was[i] is Some
            &&& r->Awarded_0.slot is None ==> after == was && (23 <= i <= 38 ==> was[i] is Some)
            &&& final(db)@.next_guid == old(db)@.next_guid + 1
        },
        command is Spawn ==> {
            let me = old(client)@.character;
            let cmd = final(commands)@.last();
            &&& r is Spawned
            &&& final(commands)@.len() == old(commands)@.len() + 1
            &&& cmd is SpawnCreature
            &&& cmd->SpawnCreature_0.map == me.map && cmd->SpawnCreature_0.info.position == me.info.position
                && cmd->SpawnCreature_0.info.orientation == me.info.orientation
            &&& cmd->SpawnCreature_0.guid == old(db)@.next_guid + 1
            &&& cmd->SpawnCreature_0.life_state is Alive && cmd->SpawnCreature_0.health
                == config.default_creature_health
            &&& cmd->SpawnCreature_0.name@ == r->Spawned_name@ && cmd->SpawnCreature_0.display_id
                == r->Spawned_display_id
            &&& command->display_id is Some ==> r->Spawned_display_id == command->display_id->0
            &&& command->name is Some ==> r->Spawned_name@ == command->name->0@
            &&& final(db)@.next_guid == old(db)@.next_guid + 2
            &&& final(client)@ == old(client)@ && final(map)@ == old(map)@
        },
{
    inventory::the_first_free_slot_is_the_first(old(client)@.character.inventory@, 23, i);
}

proof fn lemma_habits(creatures: Map<usize, Creature>, keys: Seq<usize>)
    ensures
        with_habit(creatures, keys, Habit::Idle) + with_habit(creatures, keys, Habit::Wander) + with_habit(
            creatures,
            keys,
            Habit::Waypoint,
        ) + with_habit(creatures, keys, Habit::Aggro) == keys.len(),
        with_habit(creatures, keys, Habit::Idle) == keys.filter(|k: usize| creatures[k].behavior is Idle).len(),
        with_habit(creatures, keys, Habit::Wander) == keys.filter(
            |k: usize| creatures[k].behavior is RandomWander,
        ).len(),
        with_habit(creatures, keys, Habit::Waypoint) == keys.filter(
            |k: usize| creatures[k].behavior is Waypoint,
        ).len(),
        with_habit(creatures, keys, Habit::Aggro) == keys.filter(
            |k: usize| creatures[k].behavior is AggroChase,
        ).len(),
        in_condition(creatures, keys, Condition::Alive) + in_condition(creatures, keys, Condition::Corpse)
            + in_condition(creatures, keys, Condition::Respawning) == keys.len(),
        in_condition(creatures, keys, Condition::Alive) == keys.filter(
            |k: usize| creatures[k].life_state is Alive,
        ).len(),
        in_condition(creatures, keys, Condition::Corpse) == keys.filter(
            |k: usize| creatures[k].life_state is Corpse,
        ).len(),
        in_condition(creatures, keys, Condition::Respawning) == keys.filter(
            |k: usize| creatures[k].life_state is Respawning,
        ).len(),
    decreases keys.len(),
{
    reveal(Seq::filter);
    if keys.len() > 0 {
        lemma_habits(creatures, keys.drop_last());
    }
}

/// Creatures are counted by how they behave and by whether they live, each once.
pub proof fn creatures_are_counted_once(m: &MapState, h: HabitCounts, c: ConditionCounts)
    requires
        m.wf(),
        call_ensures(MapState::count_habits, (m,), h),
        call_ensures(MapState::count_conditions, (m,), c),
    ensures
        ({
            let keys = slabs::ordered(m@.creatures.dom());
            &&& h.idle == keys.filter(|k: usize| m@.creatures[k].behavior is Idle).len()
            &&& h.wander == keys.filter(|k: usize| m@.creatures[k].behavior is RandomWander).len()
            &&& h.waypoint == keys.filter(|k: usize| m@.creatures[k].behavior is Waypoint).len()
            &&& h.aggro == keys.filter(|k: usize| m@.creatures[k].behavior is AggroChase).len()
            &&& c.alive == keys.filter(|k: usize| m@.creatures[k].life_state is Alive).len()
            &&& c.corpse == keys.filter(|k: usize| m@.creatures[k].life_state is Corpse).len()
            &&& c.respawning == keys.filter(|k: usize| m@.creatures[k].life_state is Respawning).len()
            &&& h.idle + h.wander + h.waypoint + h.aggro == keys.len()
            &&& c.alive + c.corpse + c.respawning == keys.len()
        }),
{
    lemma_habits(m@.creatures, slabs::ordered(m@.creatures.dom()));
}

proof fn lemma_near(clients: Map<usize, ClientView>, dists: Seq<(usize, u32)>, map: u32, radius_sq: u32)
    requires
        radius_sq <= 0x7f80_0000,
        forall|i: int| 0 <= i < dists.len() ==> (#[trigger] dists[i]).1 <= 0x7f80_0000,
    ensures
        how_many_near(clients, dists, map, radius_sq) == dists.filter(
            |d: (usize, u32)| clients.contains_key(d.0) && clients[d.0].character.map == map && d.1 <= radius_sq,
        ).len(),
    decreases dists.len(),
{
    reveal(Seq::filter);
    if dists.len() > 0 {
        let init = dists.drop_last();
        assert forall|i: int| 0 <= i < init.len() implies (#[trigger] init[i]).1 <= 0x7f80_0000 by {
            assert(init[i] == dists[i]);
        }
        lemma_near(clients, init, map, radius_sq);
        assert(dists[dists.len() - 1].1 <= 0x7f80_0000);
    }
}

/// A report counts everybody, and near the game master those on the same map within the
/// radius; it lists at most six maps, each with how many are on it, the fullest first.
pub proof fn a_report_counts_the_players(
    m: &MapState,
    map: u32,
    dists: &Vec<(usize, u32)>,
    radius_sq: u32,
    r: PlayersReport,
    i: int,
    j: int,
)
    requires
        m.wf(),
        call_ensures(MapState::report_players, (m, map, dists, radius_sq), r),
        radius_sq <= 0x7f80_0000,
        forall|i: int| 0 <= i < dists@.len() ==> (#[trigger] dists@[i]).1 <= 0x7f80_0000,
    ensures
        r.total == m@.clients.dom().len(),
        r.near == dists@.filter(
            |d: (usize, u32)| m@.clients.contains_key(d.0) && m@.clients[d.0].character.map == map && d.1 <= radius_sq,
        ).len(),
        r.per_map@.len() <= 6,
        0 <= i < j < r.per_map@.len() ==> r.per_map@[i].key != r.per_map@[j].key && r.per_map@[i].major
            >= r.per_map@[j].major,
        0 <= i < r.per_map@.len() ==> r.per_map@[i].major > 0,
{
    lemma_near(m@.clients, dists@, map, radius_sq);
    let main = maps_of(m@.clients, slabs::ordered(m@.clients.dom()));
    let all = choose|all: Seq<Ranked>| #[trigger]
        rank::ranks(all, main, Seq::empty()) && r.per_map@ == (if all.len() > 6 {
            all.take(6)
        } else {
            all
        });
    if 0 <= i < r.per_map@.len() {
        assert(r.per_map@[i] == all[i]);
        rank::lemma_counted(main, all[i].key);
    }
    if 0 <= i < j < r.per_map@.len() {
        assert(r.per_map@[j] == all[j]);
        assert(rank::at_least(all[i], all[j]));
    }
}

/// A report of regions lists at most four, the fullest first and each once, and says how many
/// there are.
pub proof fn a_report_ranks_the_regions(players: &Vec<u64>, creatures: &Vec<u64>, r: RegionsReport, i: int, j: int)
    requires
        call_ensures(report_regions, (players, creatures), r),
    ensures
        r.top@.len() <= 4,
        0 <= i < j < r.top@.len() ==> r.top@[i].key != r.top@[j].key && r.top@[i].major >= r.top@[j].major,
        0 <= i < j < r.top@.len() && r.top@[i].major == r.top@[j].major ==> r.top@[i].minor >= r.top@[j].minor,
        0 <= i < r.top@.len() ==> players@.contains(r.top@[i].key),
{
    let all = choose|all: Seq<Ranked>| #[trigger]
        rank::ranks(all, players@, creatures@) && r.top@ == (if all.len() > 4 {
            all.take(4)
        } else {
            all
        });
    if 0 <= i < r.top@.len() {
        assert(r.top@[i] == all[i]);
    }
    if 0 <= i < j < r.top@.len() {
        assert(r.top@[j] == all[j]);
        assert(rank::at_least(all[i], all[j]));
    }
}

/// Commands that only ask change nothing. Who is asked about by guid is told of, players
/// before creatures; somebody whose sight is asked about has to be a player.
pub proof fn who_asks_changes_nothing(
    command: GmCommand,
    client: &mut Client,
    map: &mut MapState,
    db: &mut WorldDatabase,
    commands: &mut CommandQueue,
    dice: &mut u64,
    around: &Surroundings,
    config: &RespawnConfig,
    now: u64,
    r: GmOutcome,
    guid: u64,
)
    requires
        old(map).wf(),
        old(db).wf(),
        old(db)@.next_guid + 2 <= u64::MAX,
        call_ensures(gm_command, (command, client, map, db, commands, dice, around, config, now), r),
    ensures
        command == GmCommand::Information(guid) ==> (match old(map)@.player(guid) {
            Some(k) => r == GmOutcome::Info(Entity::Player(k)),
            None => match old(map)@.creature(guid) {
                Some(k) => r == GmOutcome::Info(Entity::Creature(k)),
                None => r == GmOutcome::NotFound(guid),
            },
        }),
        command == GmCommand::ShouldHaveLineOfSight(guid) || command == GmCommand::ShouldNotHaveLineOfSight(guid) ==> (
        match old(map)@.player(guid) {
            Some(k) => r == GmOutcome::Info(Entity::Player(k)),
            None => r == GmOutcome::NotFound(guid),
        }),
        command is MoveNpc ==> r is NpcMoved && (old(map)@.creatures.contains_key(0) ==> r->who == Some(
            old(map)@.creatures[0].guid,
        )) && (!old(map)@.creatures.contains_key(0) ==> r->who is None),
        command is Information || command is ShouldHaveLineOfSight || command is ShouldNotHaveLineOfSight
            || command is MoveNpc || command is WorldDbInfo || command is Players || command is Cells
            || command is WhereAmI || command is Step || command is TeleportTo || command is Extend || command is Float
            || command is Mark || command is RangeToTarget ==> final(client)@ == old(client)@ && final(map)@ == old(map)@ && final(db)@ == old(db)@ && final(commands)@ == old(commands)@ && *final(dice) == *old(dice),
        command is WhereAmI || command is Step || command is TeleportTo || command is Extend || command is Float
            || command is Mark || command is RangeToTarget ==> r == GmOutcome::Pending(command),
{
}

/// An explosion of a game master hits the creatures around them, as far as it reaches; a nova
/// roots who is around them. Neither touches the game master.
pub proof fn spells_of_game_masters_hit(
    command: GmCommand,
    client: &mut Client,
    map: &mut MapState,
    db: &mut WorldDatabase,
    commands: &mut CommandQueue,
    dice: &mut u64,
    around: &Surroundings,
    config: &RespawnConfig,
    now: u64,
    r: GmOutcome,
    i: int,
)
    requires
        old(map).wf(),
        old(db).wf(),
        old(db)@.next_guid + 2 <= u64::MAX,
        call_ensures(gm_command, (command, client, map, db, commands, dice, around, config, now), r),
        spells::once_each(around.creature_dists@),
        0 <= i < around.creature_dists@.len(),
        old(map)@.creatures.contains_key(around.creature_dists@[i].0),
        now + 6_000_000_000 <= u64::MAX,
    ensures
        ({
            let d = around.creature_dists@[i];
            let c = old(map)@.creatures[d.0];
            let after = final(map)@.creatures[d.0];
            let mine = c.map == old(client)@.character.map;
            &&& command is Boom && mine && d.1 <= 0x42c8_0000 && c.health > 1332 ==> after.health == c.health - 1332
            &&& command is Boom && mine && d.1 <= 0x42c8_0000 && c.health <= 1332 ==> after.health == 0 && final(commands)@.contains(WorldCommand::KillCreature(c.guid))
            &&& command is Boom && !(mine && d.1 <= 0x42c8_0000) ==> after == c
            &&& command is Nova && mine && d.1 <= 0x4344_0000 ==> after.root_until == Some(
                (now + 6_000_000_000) as u64,
            )
            &&& command is Nova && !(mine && d.1 <= 0x4344_0000) ==> after == c
        }),
        command is Boom || command is Nova ==> final(client)@ == old(client)@ && final(db)@ == old(db)@,
{
    let me = old(client)@.character;
    let until = (now + 6_000_000_000) as u64;
    spells::lemma_boom_at(old(map)@, around.creature_dists@, me.map, i);
    spells::lemma_nova_at(old(map)@, around.creature_dists@, me.map, until, i);
    spells::lemma_frozen_creatures(old(map)@, around.creature_dists@, me.map, until, 0);
    let mid = old(map)@.creatures_frozen(around.creature_dists@, me.map, until);
    spells::lemma_frozen_players(mid, around.client_dists@, me.map, me.guid, until, 0);
    let hits = old(map)@.boom_hits(around.creature_dists@, me.map);
    let guid = old(map)@.creatures[around.creature_dists@[i].0].guid;
    spells::lemma_kills(hits, guid);
    let cmd = WorldCommand::KillCreature(guid);
    if spells::kills(hits).contains(cmd) && command is Boom {
        let k = spells::kills(hits);
        let j = choose|j: int| 0 <= j < k.len() && k[j] == cmd;
        assert(final(commands)@[old(commands)@.len() + j] == cmd);
    }
}

/// Everybody yells, the game master last, each in their own name.
pub proof fn everybody_yells(
    client: &mut Client,
    map: &mut MapState,
    db: &mut WorldDatabase,
    commands: &mut CommandQueue,
    dice: &mut u64,
    around: &Surroundings,
    config: &RespawnConfig,
    now: u64,
    r: GmOutcome,
    k: usize,
)
    requires
        old(map).wf(),
        old(db).wf(),
        old(db)@.next_guid + 2 <= u64::MAX,
        call_ensures(gm_command, (GmCommand::Swifty, client, map, db, commands, dice, around, config, now), r),
    ensures
        r is Yells,
        r->Yells_0@.len() == slabs::ordered(old(map)@.clients.dom()).len() + 1,
        r->Yells_0@.last().0 == old(client)@.character.guid,
        old(map)@.clients.contains_key(k) ==> exists|i: int|
            0 <= i < r->Yells_0@.len() && (#[trigger] r->Yells_0@[i]).0 == old(map)@.clients[k].character.guid,
        final(map)@ == old(map)@ && final(client)@ == old(client)@,
{
    let keys = slabs::ordered(old(map)@.clients.dom());
    crate::map_state::clients_are_in_order(*old(map));
    let told = r->Yells_0@;
    let n = told.len() - 1;
    assert(told[n].0 == old(client)@.character.guid);
    if old(map)@.clients.contains_key(k) {
        assert(keys.contains(k));
        let i = choose|i: int| 0 <= i < keys.len() && keys[i] == k;
        assert(told[i].0 == old(map)@.clients[k].character.guid);
    }
}

} // verus!
