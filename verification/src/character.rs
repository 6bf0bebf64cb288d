//! Player characters.
use crate::config::CombatConfig;
use crate::creature::Position;
use crate::database::WorldDatabase;
use crate::inventory;
use crate::inventory::Inventory;
use crate::item;
use crate::movement::MovementInfo;
use vstd::prelude::*;

verus! {

/// A player character. `race` and `class` are numbered as on the wire; `gender`
/// is 0 for male and 1 for female.
#[derive(Debug)]
pub struct Character {
    pub guid: u64,
    pub name: String,
    pub account: String,
    pub race: u8,
    pub class: u8,
    pub gender: u8,
    pub skin: u8,
    pub face: u8,
    pub hairstyle: u8,
    pub haircolor: u8,
    pub facialhair: u8,
    pub level: u8,
    pub area: u32,
    pub map: u32,
    pub info: MovementInfo,
    pub movement_speed: u32,
    pub target: u64,
    pub attacking: bool,
    pub auto_attack_timer: u32,
    pub inventory: Inventory,
    pub root_until: Option<u64>,
    pub current_health: u32,
    pub max_health: u32,
    pub time_of_death: Option<u64>,
}

impl Clone for Character {
    fn clone(&self) -> (r: Self)
        ensures
            r == *self,
    {
        Character {
            guid: self.guid,
            name: self.name.clone(),
            account: self.account.clone(),
            race: self.race,
            class: self.class,
            gender: self.gender,
            skin: self.skin,
            face: self.face,
            hairstyle: self.hairstyle,
            haircolor: self.haircolor,
            facialhair: self.facialhair,
            level: self.level,
            area: self.area,
            map: self.map,
            info: self.info,
            movement_speed: self.movement_speed,
            target: self.target,
            attacking: self.attacking,
            auto_attack_timer: self.auto_attack_timer,
            inventory: self.inventory,
            root_until: self.root_until,
            current_health: self.current_health,
            max_health: self.max_health,
            time_of_death: self.time_of_death,
        }
    }
}

/// Two characters are the same if they have the same guid.
impl PartialEq for Character {
    fn eq(&self, other: &Self) -> (r: bool) {
        self.guid == other.guid
    }
}

impl vstd::std_specs::cmp::PartialEqSpecImpl for Character {
    open spec fn obeys_eq_spec() -> bool {
        true
    }

    open spec fn eq_spec(&self, other: &Self) -> bool {
        self.guid == other.guid
    }
}

impl Eq for Character {

}

/// The attributes that a race, class and level give.
#[derive(Debug, Clone, Copy, PartialEq, Eq, Structural)]
pub struct BaseStats {
    pub strength: u8,
    pub agility: u8,
    pub stamina: u8,
    pub intellect: u8,
    pub spirit: u8,
    pub health: u16,
    pub mana: u16,
}

/// The attributes that the game data gives a race, a class and a level.
pub uninterp spec fn base_stats(race: u8, class: u8, level: u8) -> Option<BaseStats>;

/// `RaceClass::base_stats_for` of `wow_world_base`, for a race and a class by
/// their numbers: there is nothing for a race or class that does not exist or
/// does not go together, nor for a level outside of 1 to 60.
#[verifier::external_body]
fn base_stats_for(race: u8, class: u8, level: u8) -> (r: Option<BaseStats>)
    ensures
        r == base_stats(race, class, level),
        level == 0 || level > 60 ==> r is None,
{
    let race = wow_world_base::vanilla::Race::try_from(race).ok()?;
    let class = wow_world_base::vanilla::Class::try_from(class).ok()?;
    let both = wow_world_base::vanilla::RaceClass::try_from((race, class)).ok()?;
    let s = both.base_stats_for(level)?;
    Some(BaseStats {
        strength: s.strength,
        agility: s.agility,
        stamina: s.stamina,
        intellect: s.intellect,
        spirit: s.spirit,
        health: s.health,
        mana: s.mana,
    })
}

/// The resource that a class spends.
#[derive(Debug, Clone, Copy, PartialEq, Eq, Structural)]
pub enum Power {
    Mana,
    Rage,
    Focus,
    Energy,
    Happiness,
}

pub const RACE_HUMAN: u8 = 1;

pub const CLASS_WARRIOR: u8 = 1;

pub const CLASS_ROGUE: u8 = 4;

pub const CLASS_MAGE: u8 = 8;

/// Warriors have rage, rogues have energy, and every other class has mana.
pub open spec fn power_of(class: u8) -> Power {
    if class == CLASS_WARRIOR {
        Power::Rage
    } else if class == CLASS_ROGUE {
        Power::Energy
    } else {
        Power::Mana
    }
}

pub fn power_type(class: u8) -> (r: Power)
    ensures
        r == power_of(class),
{
    if class == CLASS_WARRIOR {
        Power::Rage
    } else if class == CLASS_ROGUE {
        Power::Energy
    } else {
        Power::Mana
    }
}

/// Mana with intellect: the first twenty points give one each, further points
/// fifteen each.
pub open spec fn mana_with(mana: u16, intellect: u8) -> int {
    mana + if intellect < 20 {
        intellect as int
    } else {
        20 + (intellect - 20) * 15
    }
}

pub fn calculate_mana(mana: u16, intellect: u8) -> (r: i32)
    ensures
        r == mana_with(mana, intellect),
{
    let bonus: i32 = if intellect < 20 {
        intellect as i32
    } else {
        20 + (intellect as i32 - 20) * 15
    };
    mana as i32 + bonus
}

/// The attributes of a level, of the first level where there are none for it,
/// and next to nothing where there are none at all.
pub open spec fn stats_or_fallback(at_level: Option<BaseStats>, at_first: Option<BaseStats>) -> BaseStats {
    match at_level {
        Some(s) => s,
        None => match at_first {
            Some(s) => s,
            None => BaseStats {
                strength: 0,
                agility: 0,
                stamina: 0,
                intellect: 0,
                spirit: 0,
                health: 1,
                mana: 0,
            },
        },
    }
}

pub fn choose_stats(at_level: Option<BaseStats>, at_first: Option<BaseStats>) -> (r: BaseStats)
    ensures
        r == stats_or_fallback(at_level, at_first),
{
    match at_level {
        Some(s) => s,
        None => match at_first {
            Some(s) => s,
            None => BaseStats {
                strength: 0,
                agility: 0,
                stamina: 0,
                intellect: 0,
                spirit: 0,
                health: 1,
                mana: 0,
            },
        },
    }
}

/// How a character looks.
#[derive(Debug, Clone, Copy)]
pub struct Looks {
    pub skin: u8,
    pub face: u8,
    pub hair_style: u8,
    pub hair_color: u8,
    pub facial_hair: u8,
}

/// The bit pattern of the usual running speed: seven yards per second.
pub const DEFAULT_RUNNING_SPEED: u32 = 0x40e0_0000;

/// The highest level.
pub const MAX_LEVEL: u8 = 60;

/// Where somebody who has just been put there stands.
pub open spec fn at_rest(p: Position) -> MovementInfo {
    MovementInfo { flags: 0, timestamp: 0, position: p.place, orientation: p.orientation, fall_time: 0 }
}

/// Whether `c` is a character as it is created: unhurt, of level `level`, with
/// nothing going on, and filed under no account yet.
pub open spec fn is_fresh(
    c: Character,
    guid: u64,
    name: Seq<char>,
    race: u8,
    class: u8,
    gender: u8,
    looks: Looks,
    level: u8,
    start: Position,
    health: u32,
    slots: Seq<Option<item::Item>>,
) -> bool {
    &&& c.guid == guid
    &&& c.name@ == name
    &&& c.account@ == Seq::<char>::empty()
    &&& c.race == race
    &&& c.class == class
    &&& c.gender == gender
    &&& c.skin == looks.skin
    &&& c.face == looks.face
    &&& c.hairstyle == looks.hair_style
    &&& c.haircolor == looks.hair_color
    &&& c.facialhair == looks.facial_hair
    &&& c.level == level
    &&& c.area == 0
    &&& c.map == start.map
    &&& c.info == at_rest(start)
    &&& c.movement_speed == DEFAULT_RUNNING_SPEED
    &&& c.target == 0
    &&& !c.attacking
    &&& c.auto_attack_timer == 0
    &&& c.inventory@ == slots
    &&& c.root_until is None
    &&& c.current_health == health
    &&& c.max_health == health
    &&& c.time_of_death is None
}

/// The character with another account.
pub open spec fn with_account(c: Character, account: String) -> Character {
    Character { account, ..c }
}

/// The items that a new character gets.
pub open spec fn outfit(race: u8, class: u8) -> Seq<item::StarterItem> {
    inventory::known_items(item::starter_items(race, class)->0)
}

/// Whether `c` is the character that is created when `next_guid` is the next
/// guid: its items get theirs first.
pub open spec fn is_created(
    c: Character,
    next_guid: u64,
    name: Seq<char>,
    race: u8,
    class: u8,
    gender: u8,
    looks: Looks,
    level: u8,
    start: Position,
    health: u32,
) -> bool {
    is_fresh(
        c,
        (next_guid + outfit(race, class).len()) as u64,
        name,
        race,
        class,
        gender,
        looks,
        level,
        start,
        health,
        inventory::placed(outfit(race, class), inventory::data_of(outfit(race, class)), next_guid as int),
    )
}

impl Character {
    /// A character who carries `inventory`.
    pub fn with_inventory(
        guid: u64,
        name: String,
        race: u8,
        class: u8,
        gender: u8,
        looks: Looks,
        start: Position,
        health: u32,
        inventory: Inventory,
    ) -> (r: Self)
        ensures
            is_fresh(r, guid, name@, race, class, gender, looks, 1, start, health, inventory@),
    {
        Character {
            guid,
            name,
            account: String::new(),
            race,
            class,
            gender,
            skin: looks.skin,
            face: looks.face,
            hairstyle: looks.hair_style,
            haircolor: looks.hair_color,
            facialhair: looks.facial_hair,
            level: 1,
            area: 0,
            map: start.map,
            info: MovementInfo {
                flags: 0,
                timestamp: 0,
                position: start.place,
                orientation: start.orientation,
                fall_time: 0,
            },
            movement_speed: DEFAULT_RUNNING_SPEED,
            target: 0,
            attacking: false,
            auto_attack_timer: 0,
            inventory,
            root_until: None,
            current_health: health,
            max_health: health,
            time_of_death: None,
        }
    }

    /// A new character with what its race and class start with, at `start`;
    /// nobody, if that race and class do not go together.
    pub fn new(
        db: &mut WorldDatabase,
        name: String,
        race: u8,
        class: u8,
        gender: u8,
        looks: Looks,
        start: Position,
        combat: &CombatConfig,
    ) -> (r: Option<Self>)
        requires
            old(db).wf(),
            old(db)@.next_guid + 11 <= u64::MAX,
        ensures
            final(db).wf(),
            r is Some <==> item::starter_items(race, class) is Some,
            race == RACE_HUMAN && class == CLASS_WARRIOR ==> r is Some,
            match r {
                Some(c) => {
                    &&& outfit(race, class).len() <= 10
                    &&& is_created(
                        c,
                        old(db)@.next_guid,
                        name@,
                        race,
                        class,
                        gender,
                        looks,
                        1,
                        start,
                        combat.pvp_max_health,
                    )
                    &&& final(db)@ == (crate::database::DbView {
                        next_guid: (old(db)@.next_guid + outfit(race, class).len() + 1) as u64,
                        ..old(db)@
                    })
                },
                None => final(db)@ == old(db)@,
            },
    {
        let starter = match item::starter_items_for(race, class) {
            Some(s) => s,
            None => {
                return None;
            },
        };
        let inventory = Inventory::new(&starter, db);
        let guid: u64 = db.new_guid();
        Some(
            Self::with_inventory(
                guid,
                name,
                race,
                class,
                gender,
                looks,
                start,
                combat.pvp_max_health,
                inventory,
            ),
        )
    }

    /// A new character of the highest level.
    pub fn test_character(
        db: &mut WorldDatabase,
        name: String,
        race: u8,
        class: u8,
        gender: u8,
        start: Position,
        combat: &CombatConfig,
    ) -> (r: Option<Self>)
        requires
            old(db).wf(),
            old(db)@.next_guid + 11 <= u64::MAX,
        ensures
            final(db).wf(),
            r is Some <==> item::starter_items(race, class) is Some,
            race == RACE_HUMAN && class == CLASS_WARRIOR ==> r is Some,
            match r {
                Some(c) => {
                    &&& outfit(race, class).len() <= 10
                    &&& is_created(
                        c,
                        old(db)@.next_guid,
                        name@,
                        race,
                        class,
                        gender,
                        (Looks { skin: 0, face: 0, hair_style: 0, hair_color: 0, facial_hair: 0 }),
                        MAX_LEVEL,
                        start,
                        combat.pvp_max_health,
                    )
                    &&& final(db)@ == (crate::database::DbView {
                        next_guid: (old(db)@.next_guid + outfit(race, class).len() + 1) as u64,
                        ..old(db)@
                    })
                },
                None => final(db)@ == old(db)@,
            },
    {
        let looks = Looks { skin: 0, face: 0, hair_style: 0, hair_color: 0, facial_hair: 0 };
        match Self::new(db, name, race, class, gender, looks, start, combat) {
            Some(c) => {
                let mut c = c;
                c.level = MAX_LEVEL;
                Some(c)
            },
            None => None,
        }
    }

    /// The attributes that the character has.
    pub open spec fn stats(&self) -> BaseStats {
        stats_or_fallback(
            base_stats(self.race, self.class, self.level),
            base_stats(self.race, self.class, 1),
        )
    }

    pub fn default_stats(&self) -> (r: BaseStats)
        ensures
            r == self.stats(),
    {
        choose_stats(
            base_stats_for(self.race, self.class, self.level),
            base_stats_for(self.race, self.class, 1),
        )
    }

    pub fn is_rooted(&self, now: u64) -> (r: bool)
        ensures
            r == crate::creature::rooted_at(self.root_until, now),
    {
        match self.root_until {
            Some(t) => t > now,
            None => false,
        }
    }

    pub fn is_dead(&self) -> (r: bool)
        ensures
            r == (self.current_health == 0),
    {
        self.current_health == 0
    }

    /// Lose `amount` health, down to none, and tell what is left.
    pub fn apply_damage(&mut self, amount: u32) -> (r: u32)
        ensures
            r as int == (if old(self).current_health >= amount {
                old(self).current_health - amount
            } else {
                0
            }),
            *final(self) == (Character { current_health: r, ..*old(self) }),
    {
        self.current_health = self.current_health.saturating_sub(amount);
        self.current_health
    }

    pub fn respawn_full_health(&mut self)
        ensures
            *final(self) == (Character {
                current_health: old(self).max_health,
                time_of_death: None,
                attacking: false,
                auto_attack_timer: 0,
                ..*old(self)
            }),
    {
        self.current_health = self.max_health;
        self.time_of_death = None;
        self.attacking = false;
        self.auto_attack_timer = 0;
    }

    pub fn strength(&self) -> (r: i32)
        ensures
            r == self.stats().strength,
    {
        self.default_stats().strength as i32
    }

    pub fn base_mana(&self) -> (r: i32)
        ensures
            r == self.stats().mana,
    {
        self.default_stats().mana as i32
    }

    /// Classes without mana have none.
    pub fn max_mana(&self) -> (r: i32)
        ensures
            r == (if power_of(self.class) == Power::Mana {
                mana_with(self.stats().mana, self.stats().intellect)
            } else {
                0
            }),
    {
        if power_type(self.class) == Power::Mana {
            let s = self.default_stats();
            calculate_mana(s.mana, s.intellect)
        } else {
            0
        }
    }

    pub fn agility(&self) -> (r: i32)
        ensures
            r == self.stats().agility,
    {
        self.default_stats().agility as i32
    }

    pub fn stamina(&self) -> (r: i32)
        ensures
            r == self.stats().stamina,
    {
        self.default_stats().stamina as i32
    }

    pub fn intellect(&self) -> (r: i32)
        ensures
            r == self.stats().intellect,
    {
        self.default_stats().intellect as i32
    }

    pub fn spirit(&self) -> (r: i32)
        ensures
            r == self.stats().spirit,
    {
        self.default_stats().spirit as i32
    }
}

/// Damage takes that much health, down to none; whoever has none left is dead, and nothing
/// else changes.
pub proof fn damage_takes_health(c: &mut Character, amount: u32, r: u32, after: &Character, dead: bool)
    requires
        call_ensures(Character::apply_damage, (c, amount), r),
        *after == *final(c),
        call_ensures(Character::is_dead, (after,), dead),
    ensures
        old(c).current_health >= amount ==> final(c).current_health == old(c).current_health - amount,
        old(c).current_health <= amount ==> final(c).current_health == 0,
        r == final(c).current_health,
        dead <==> old(c).current_health <= amount,
        *final(c) == (Character { current_health: final(c).current_health, ..*old(c) }),
{
}

/// Whoever comes back has all their health, is not dead, and attacks nobody.
pub proof fn who_comes_back_is_unhurt(c: &mut Character, u: ())
    requires
        call_ensures(Character::respawn_full_health, (c,), u),
    ensures
        final(c).current_health == old(c).max_health,
        final(c).time_of_death is None,
        !final(c).attacking,
        final(c).auto_attack_timer == 0,
        final(c).info == old(c).info && final(c).map == old(c).map && final(c).guid == old(c).guid && final(c).max_health
            == old(c).max_health && final(c).inventory == old(c).inventory && final(c).target == old(c).target,
{
}

/// Roots hold until their time, and not at it.
pub proof fn roots_hold_until_their_time(c: &Character, now: u64, r: bool, until: u64)
    requires
        call_ensures(Character::is_rooted, (c, now), r),
    ensures
        c.root_until is None ==> !r,
        c.root_until == Some(until) ==> (r <==> now < until),
{
}

/// The first twenty points of intellect give one mana each, and every further one fifteen.
pub proof fn intellect_gives_mana(mana: u16, intellect: u8, r: i32, more: i32)
    requires
        call_ensures(calculate_mana, (mana, intellect), r),
        intellect < 255,
        call_ensures(calculate_mana, (mana, (intellect + 1) as u8), more),
    ensures
        intellect == 0 ==> r == mana,
        intellect < 20 ==> more == r + 1,
        intellect >= 20 ==> more == r + 15,
        intellect <= 20 ==> r == mana + intellect,
{
}

/// Warriors have rage, rogues have energy, and all others have mana.
pub proof fn classes_have_their_power(class: u8, r: Power)
    requires
        call_ensures(power_type, (class,), r),
    ensures
        r is Rage <==> class == 1,
        r is Energy <==> class == 4,
        r is Mana <==> class != 1 && class != 4,
{
}

/// The attributes are those of the level, else those of the first level; where there are
/// none, there is one point of health.
pub proof fn attributes_are_those_of_the_level(c: &Character, r: BaseStats)
    requires
        call_ensures(Character::default_stats, (c,), r),
    ensures
        base_stats(c.race, c.class, c.level) is Some ==> r == base_stats(c.race, c.class, c.level)->0,
        base_stats(c.race, c.class, c.level) is None && base_stats(c.race, c.class, 1) is Some ==> r == base_stats(
            c.race,
            c.class,
            1,
        )->0,
        base_stats(c.race, c.class, c.level) is None && base_stats(c.race, c.class, 1) is None ==> r.health == 1
            && r.mana == 0 && r.strength == 0 && r.agility == 0 && r.stamina == 0 && r.intellect == 0 && r.spirit == 0,
{
}

/// Every attribute is the one of its name.
pub proof fn attributes_are_told_apart(
    c: &Character,
    stats: BaseStats,
    strength: i32,
    agility: i32,
    stamina: i32,
    intellect: i32,
    spirit: i32,
    mana: i32,
    max_mana: i32,
)
    requires
        call_ensures(Character::default_stats, (c,), stats),
        call_ensures(Character::strength, (c,), strength),
        call_ensures(Character::agility, (c,), agility),
        call_ensures(Character::stamina, (c,), stamina),
        call_ensures(Character::intellect, (c,), intellect),
        call_ensures(Character::spirit, (c,), spirit),
        call_ensures(Character::base_mana, (c,), mana),
        call_ensures(Character::max_mana, (c,), max_mana),
    ensures
        strength == stats.strength,
        agility == stats.agility,
        stamina == stats.stamina,
        intellect == stats.intellect,
        spirit == stats.spirit,
        mana == stats.mana,
        c.class == 1 || c.class == 4 ==> max_mana == 0,
        c.class != 1 && c.class != 4 && stats.intellect <= 20 ==> max_mana == stats.mana + stats.intellect,
        c.class != 1 && c.class != 4 && stats.intellect > 20 ==> max_mana == stats.mana + 20 + 15 * (stats.intellect
            - 20),
{
}

/// A new character stands at the start, of the first level and unhurt, with the name and the
/// looks that were chosen, and with nothing going on; its guid is new, and so is the next.
pub proof fn a_new_character_is_as_chosen(
    db: &mut WorldDatabase,
    name: String,
    race: u8,
    class: u8,
    gender: u8,
    looks: Looks,
    start: Position,
    combat: &CombatConfig,
    r: Option<Character>,
)
    requires
        old(db).wf(),
        old(db)@.next_guid + 11 <= u64::MAX,
        call_ensures(Character::new, (db, name, race, class, gender, looks, start, combat), r),
    ensures
        r is Some <==> item::starter_items(race, class) is Some,
        r is None ==> final(db)@ == old(db)@,
        r is Some ==> {
            let c = r->0;
            &&& c.name@ == name@
            &&& c.race == race && c.class == class && c.gender == gender
            &&& c.skin == looks.skin && c.face == looks.face && c.hairstyle == looks.hair_style && c.haircolor
                == looks.hair_color && c.facialhair == looks.facial_hair
            &&& c.level == 1
            &&& c.map == start.map && c.info.position == start.place && c.info.orientation == start.orientation
                && c.info.flags == 0
            &&& c.movement_speed == 0x40e0_0000
            &&& c.current_health == combat.pvp_max_health && c.max_health == combat.pvp_max_health
            &&& c.target == 0 && !c.attacking && c.auto_attack_timer == 0 && c.root_until is None
                && c.time_of_death is None
            &&& c.guid >= old(db)@.next_guid && final(db)@.next_guid == c.guid + 1
            &&& final(db)@.rows == old(db)@.rows
        },
{
}

/// A character for tests is of level sixty, and looks plain.
pub proof fn a_test_character_is_of_the_highest_level(
    db: &mut WorldDatabase,
    name: String,
    race: u8,
    class: u8,
    gender: u8,
    start: Position,
    combat: &CombatConfig,
    r: Option<Character>,
)
    requires
        old(db).wf(),
        old(db)@.next_guid + 11 <= u64::MAX,
        call_ensures(Character::test_character, (db, name, race, class, gender, start, combat), r),
    ensures
        r is Some ==> {
            let c = r->0;
            &&& c.level == 60
            &&& c.name@ == name@
            &&& c.race == race && c.class == class && c.gender == gender
            &&& c.skin == 0 && c.face == 0 && c.hairstyle == 0 && c.haircolor == 0 && c.facialhair == 0
            &&& c.map == start.map && c.info.position == start.place && c.info.orientation == start.orientation
            &&& c.current_health == combat.pvp_max_health && c.max_health == combat.pvp_max_health
            &&& c.guid >= old(db)@.next_guid && final(db)@.next_guid == c.guid + 1
        },
{
}

} // verus!
