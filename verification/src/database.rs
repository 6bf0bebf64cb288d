//! The characters of all accounts.
use crate::character;
use crate::character::{Character, Looks};
use crate::config::CombatConfig;
use crate::creature::Position;
use crate::keyed::NamedTable;
use crate::map_state;
use crate::tables;
use crate::text;
use ahash::AHashMap;
use vstd::prelude::*;

verus! {

/// The account of the characters that a fresh server comes with.
pub const DEV_ACCOUNT: &'static str = "DEV";

/// The characters of all accounts, in rows, with the row of each guid and the
/// rows of each account.
pub struct WorldDatabase {
    characters_for_all_accounts: Vec<Character>,
    by_guid: AHashMap<u64, u64>,
    by_account: NamedTable<Vec<usize>>,
    next_guid: u64,
}

/// The database, as contracts speak of it.
#[verifier::ext_equal]
pub struct DbView {
    pub rows: Seq<Character>,
    pub by_guid: Map<u64, u64>,
    pub by_account: Map<Seq<char>, Seq<usize>>,
    pub next_guid: u64,
}

impl View for WorldDatabase {
    type V = DbView;

    closed spec fn view(&self) -> DbView {
        DbView {
            rows: self.characters_for_all_accounts@,
            by_guid: tables::numbers(self.by_guid),
            by_account: self.by_account@.map_values(|v: Vec<usize>| v@),
            next_guid: self.next_guid,
        }
    }
}

/// `s` with `to` in the place of the first `from`.
pub open spec fn renumbered(s: Seq<usize>, from: usize, to: usize) -> Seq<usize> {
    match map_state::place_in(s, from, 0) {
        Some(i) => s.update(i, to),
        None => s,
    }
}

impl DbView {
    /// The rows that are filed under an account.
    pub open spec fn bucket(self, account: Seq<char>) -> Seq<usize> {
        if self.by_account.contains_key(account) {
            self.by_account[account]
        } else {
            Seq::empty()
        }
    }

    /// The characters that are filed under an account.
    pub open spec fn characters_of(self, account: Seq<char>) -> Seq<Character> {
        self.bucket(account).filter(|i: usize| i < self.rows.len()).map_values(|i: usize| self.rows[i as int])
    }

    pub open spec fn by_guid(self, guid: u64) -> Option<Character> {
        if self.by_guid.contains_key(guid) {
            Some(self.rows[self.by_guid[guid] as int])
        } else {
            None
        }
    }

    /// With one more character, which is filed under its account.
    pub open spec fn entered(self, c: Character) -> DbView {
        DbView {
            rows: self.rows.push(c),
            by_guid: self.by_guid.insert(c.guid, self.rows.len() as u64),
            by_account: self.by_account.insert(c.account@, self.bucket(c.account@).push(self.rows.len() as usize)),
            next_guid: self.next_guid,
        }
    }

    /// With all of `cs` entered, one after the other.
    pub open spec fn all_entered(self, cs: Seq<Character>) -> DbView
        decreases cs.len(),
    {
        if cs.len() == 0 {
            self
        } else {
            self.all_entered(cs.drop_last()).entered(cs.last())
        }
    }

    /// With the character that has the guid of `c` replaced by `c`.
    pub open spec fn replaced(self, c: Character) -> DbView {
        if self.by_guid.contains_key(c.guid) {
            DbView { rows: self.rows.update(self.by_guid[c.guid] as int, c), ..self }
        } else {
            self
        }
    }

    /// Whether the account may delete the character.
    pub open spec fn may_delete(self, account: Seq<char>, guid: u64) -> bool {
        self.by_guid.contains_key(guid) && self.rows[self.by_guid[guid] as int].account@ == account
    }

    /// Without a character; the last row takes its place.
    pub open spec fn deleted(self, account: Seq<char>, guid: u64) -> DbView {
        let at = self.by_guid[guid];
        let last = (self.rows.len() - 1) as usize;
        let rows = self.rows.update(at as int, self.rows.last()).drop_last();
        let unlisted = if self.by_account.contains_key(account) {
            self.by_account.insert(account, map_state::without(self.by_account[account], at as usize))
        } else {
            self.by_account
        };
        if at < rows.len() {
            let moved = rows[at as int];
            DbView {
                rows,
                by_guid: self.by_guid.remove(guid).insert(moved.guid, at),
                by_account: if unlisted.contains_key(moved.account@) {
                    unlisted.insert(moved.account@, renumbered(unlisted[moved.account@], last, at as usize))
                } else {
                    unlisted
                },
                next_guid: self.next_guid,
            }
        } else {
            DbView {
                rows,
                by_guid: self.by_guid.remove(guid),
                by_account: unlisted,
                next_guid: self.next_guid,
            }
        }
    }

    /// Whether every character is found by its guid and, once, under its
    /// account, and nothing else is found.
    pub open spec fn in_step(self) -> bool {
        &&& self.rows.len() <= usize::MAX
        &&& forall|i: int|
            0 <= i < self.rows.len() ==> self.by_guid.contains_key((#[trigger] self.rows[i]).guid)
                && self.by_guid[self.rows[i].guid] == i
        &&& forall|g: u64| #[trigger]
            self.by_guid.contains_key(g) ==> self.by_guid[g] < self.rows.len()
                && self.rows[self.by_guid[g] as int].guid == g
        &&& forall|a: Seq<char>, i: usize| #[trigger]
            self.bucket(a).contains(i) <==> i < self.rows.len() && self.rows[i as int].account@ == a
        &&& forall|a: Seq<char>| (#[trigger] self.bucket(a)).no_duplicates()
    }
}

/// Whether `c` is the character `name` that a fresh server comes with: a human
/// warrior of the highest level, created when `next_guid` was the next guid.
pub open spec fn is_seed(
    c: Character,
    next_guid: u64,
    name: Seq<char>,
    gender: u8,
    start: Position,
    health: u32,
) -> bool {
    &&& c.account@ == DEV_ACCOUNT@
    &&& exists|none: String|
        #![trigger character::with_account(c, none)]
        character::is_created(
            character::with_account(c, none),
            next_guid,
            name,
            character::RACE_HUMAN,
            character::CLASS_WARRIOR,
            gender,
            (Looks { skin: 0, face: 0, hair_style: 0, hair_color: 0, facial_hair: 0 }),
            character::MAX_LEVEL,
            start,
            health,
        )
}

/// The guids that creating a human warrior uses up.
pub open spec fn guids_of_seed() -> nat {
    character::outfit(character::RACE_HUMAN, character::CLASS_WARRIOR).len() + 1
}

/// Whether `db` is the database of a fresh server.
pub open spec fn is_started(db: DbView, start: Position, health: u32) -> bool {
    &&& db.in_step()
    &&& db.rows.len() == 3
    &&& is_seed(db.rows[0], 0, "Dev"@, 1, start, health)
    &&& is_seed(db.rows[1], guids_of_seed() as u64, "HumOne"@, 1, start, health)
    &&& is_seed(db.rows[2], (2 * guids_of_seed()) as u64, "HumTwo"@, 0, start, health)
    &&& db.next_guid == 3 * guids_of_seed()
}

/// A database with nobody in it.
pub open spec fn empty_db() -> DbView {
    DbView { rows: Seq::empty(), by_guid: Map::empty(), by_account: Map::empty(), next_guid: 0 }
}

fn renumber(keys: &mut Vec<usize>, from: usize, to: usize)
    ensures
        final(keys)@ == renumbered(old(keys)@, from, to),
{
    let mut i: usize = 0;
    while i < keys.len()
        invariant
            keys@ == old(keys)@,
            i <= keys.len(),
            map_state::place_in(keys@, from, 0) == map_state::place_in(keys@, from, i as int),
        decreases keys.len() - i,
    {
        if keys[i] == from {
            keys[i] = to;
            return;
        }
        i += 1;
    }
}

impl WorldDatabase {
    /// The rows that guids lead to exist and hold those guids.
    pub closed spec fn wf(&self) -> bool {
        &&& self.by_account.wf()
        &&& forall|g: u64|
            #![trigger tables::numbers(self.by_guid).contains_key(g)]
            #![trigger tables::numbers(self.by_guid)[g]]
            tables::numbers(self.by_guid).contains_key(g) ==> tables::numbers(self.by_guid)[g]
                < self.characters_for_all_accounts@.len()
                && self.characters_for_all_accounts@[tables::numbers(self.by_guid)[g] as int].guid == g
    }

    fn empty() -> (r: Self)
        ensures
            r.wf(),
            r@ == empty_db(),
    {
        let r = WorldDatabase {
            characters_for_all_accounts: Vec::new(),
            by_guid: tables::numbers_new(),
            by_account: NamedTable::new(),
            next_guid: 0,
        };
        assert(r@ =~= empty_db());
        r
    }

    /// The database of a fresh server: three characters to try things out with.
    pub fn new(start: Position, combat: &CombatConfig) -> (r: Self)
        ensures
            r.wf(),
            is_started(r@, start, combat.pvp_max_health),
    {
        let mut db = Self::empty();
        assert(db@.in_step());
        db.seed("Dev", 1, start, combat);
        db.seed("HumOne", 1, start, combat);
        db.seed("HumTwo", 0, start, combat);
        db
    }

    fn seed(&mut self, name: &str, gender: u8, start: Position, combat: &CombatConfig)
        requires
            old(self).wf(),
            old(self)@.in_step(),
            old(self)@.rows.len() < 3,
            old(self)@.next_guid == old(self)@.rows.len() * guids_of_seed(),
            old(self)@.rows.len() > 0 ==> guids_of_seed() <= 11,
            forall|g: u64| old(self)@.by_guid.contains_key(g) ==> g < old(self)@.next_guid,
        ensures
            final(self).wf(),
            final(self)@.in_step(),
            guids_of_seed() <= 11,
            final(self)@.rows.len() == old(self)@.rows.len() + 1,
            final(self)@.rows.drop_last() == old(self)@.rows,
            is_seed(final(self)@.rows.last(), old(self)@.next_guid, name@, gender, start, combat.pvp_max_health),
            final(self)@.next_guid == old(self)@.next_guid + guids_of_seed(),
            final(self)@.next_guid == final(self)@.rows.len() * guids_of_seed(),
            forall|g: u64| final(self)@.by_guid.contains_key(g) ==> g < final(self)@.next_guid,
    {
        let ghost was = self@;
        assert(was.next_guid <= 22) by (nonlinear_arith)
            requires
                was.next_guid == was.rows.len() * guids_of_seed(),
                was.rows.len() < 3,
                was.rows.len() > 0 ==> guids_of_seed() <= 11,
        ;
        let c = Character::test_character(
            self,
            name.to_string(),
            character::RACE_HUMAN,
            character::CLASS_WARRIOR,
            gender,
            start,
            combat,
        );
        match c {
            Some(c) => {
                let ghost made = c;
                let ghost mid = self@;
                self.create_character_in_account(DEV_ACCOUNT, c);
                proof {
                    let row = self@.rows.last();
                    assert(character::with_account(row, made.account) == made);
                    assert(mid.rows == was.rows && mid.by_guid == was.by_guid && mid.by_account == was.by_account);
                    assert(mid.in_step()) by {
                        assert forall|a: Seq<char>| #[trigger] mid.bucket(a) == was.bucket(a) by {}
                        assert forall|a: Seq<char>, i: usize| #[trigger]
                            mid.bucket(a).contains(i) <==> i < mid.rows.len() && mid.rows[i as int].account@ == a by {
                            assert(was.bucket(a).contains(i) <==> i < was.rows.len() && was.rows[i as int].account@ == a);
                        }
                    }
                    assert(!mid.by_guid.contains_key(row.guid));
                    entering_keeps_step(mid, row, (row.guid + 1) as u64);
                    assert(self@.rows.drop_last() =~= was.rows);
                    assert((was.rows.len() + 1) * guids_of_seed() == was.rows.len() * guids_of_seed() + guids_of_seed())
                        by (nonlinear_arith);
                }
            },
            None => {
                assert(false);
            },
        }
    }

    /// The characters that are filed under an account, in the order in which
    /// they are filed.
    pub fn get_characters_for_account(&self, account_name: &str) -> (r: Vec<Character>)
        requires
            self.wf(),
        ensures
            r@ == self@.characters_of(account_name@),
    {
        let mut r: Vec<Character> = Vec::new();
        let bucket = match self.by_account.get(account_name) {
            Some(b) => b,
            None => {
                proof {
                    reveal(Seq::filter);
                    assert(r@ =~= self@.characters_of(account_name@));
                }
                return r;
            },
        };
        let ghost chosen = |i: usize| i < self@.rows.len();
        let ghost row = |i: usize| self@.rows[i as int];
        assert(bucket@ == self@.bucket(account_name@));
        let mut i: usize = 0;
        proof {
            reveal(Seq::filter);
            assert(bucket@.take(0) =~= Seq::<usize>::empty());
            assert(r@ =~= bucket@.take(0).filter(chosen).map_values(row));
        }
        while i < bucket.len()
            invariant
                i <= bucket.len(),
                chosen == (|i: usize| i < self@.rows.len()),
                row == (|i: usize| self@.rows[i as int]),
                r@ == bucket@.take(i as int).filter(chosen).map_values(row),
            decreases bucket.len() - i,
        {
            let at: usize = bucket[i];
            proof {
                reveal(Seq::filter);
                assert(bucket@.take(i + 1).drop_last() =~= bucket@.take(i as int));
                assert(bucket@.take(i + 1).last() == at);
            }
            let ghost before = bucket@.take(i as int).filter(chosen);
            if at < self.characters_for_all_accounts.len() {
                r.push(self.characters_for_all_accounts[at].clone());
                assert(before.push(at).map_values(row) =~= before.map_values(row).push(self@.rows[at as int]));
            }
            i += 1;
        }
        assert(bucket@.take(i as int) =~= bucket@);
        r
    }

    /// Enter a character under an account.
    pub fn create_character_in_account(&mut self, account_name: &str, character: Character)
        requires
            old(self).wf(),
        ensures
            final(self).wf(),
            final(self)@.rows.len() == old(self)@.rows.len() + 1,
            final(self)@ == old(self)@.entered(final(self)@.rows.last()),
            final(self)@.rows.last().account@ == account_name@,
            (Character { account: character.account, ..final(self)@.rows.last() }) == character,
    {
        let ghost was = self@;
        let mut c = character;
        c.account = account_name.to_string();
        let ghost cc = c;
        let guid: u64 = c.guid;
        let idx: usize = self.characters_for_all_accounts.len();
        self.characters_for_all_accounts.push(c);
        tables::numbers_insert(&mut self.by_guid, guid, idx as u64);
        let ghost filed = self.by_account@;
        let mut known: bool = true;
        match self.by_account.get_mut(account_name) {
            Some(bucket) => {
                bucket.push(idx);
            },
            None => {
                known = false;
            },
        }
        if !known {
            let mut bucket: Vec<usize> = Vec::new();
            bucket.push(idx);
            self.by_account.insert(account_name.to_string(), bucket);
            assert(bucket@ =~= Seq::<usize>::empty().push(idx));
        }
        proof {
            assert(self@.by_account =~= was.entered(cc).by_account);
            assert(self@ =~= was.entered(cc));
            assert(self@.rows.last() == cc);
        }
    }

    /// The character, only if it belongs to the account.
    pub fn get_character_for_account(&self, account_name: &str, guid: u64) -> (r: Option<Character>)
        requires
            self.wf(),
        ensures
            r == (if self@.may_delete(account_name@, guid) {
                self@.by_guid(guid)
            } else {
                None
            }),
    {
        match tables::numbers_get(&self.by_guid, guid) {
            Some(i) => {
                assert(i < self.characters_for_all_accounts.len());
                let c = &self.characters_for_all_accounts[i as usize];
                if text::same(c.account.as_str(), account_name) {
                    Some(c.clone())
                } else {
                    None
                }
            },
            None => None,
        }
    }

    /// A guid that was not handed out before.
    pub fn new_guid(&mut self) -> (r: u64)
        requires
            old(self).wf(),
            old(self)@.next_guid < u64::MAX,
        ensures
            final(self).wf(),
            r == old(self)@.next_guid,
            final(self)@ == (DbView { next_guid: (old(self)@.next_guid + 1) as u64, ..old(self)@ }),
    {
        let g: u64 = self.next_guid;
        self.next_guid = self.next_guid + 1;
        g
    }

    pub fn next_guid(&self) -> (r: u64)
        ensures
            r == self@.next_guid,
    {
        self.next_guid
    }

    pub fn all_characters(&self) -> (r: &Vec<Character>)
        ensures
            r@ == self@.rows,
    {
        &self.characters_for_all_accounts
    }

    /// A database with those characters, each under the account that it names.
    pub fn from_parts(characters: Vec<Character>, next_guid: u64) -> (r: Self)
        ensures
            r.wf(),
            r@ == (DbView { next_guid, ..empty_db().all_entered(characters@) }),
    {
        let mut r = Self::empty();
        let ghost input = characters@;
        let mut rest = characters;
        let ghost mut done: int = 0;
        assert(input.take(0) =~= Seq::<Character>::empty());
        while rest.len() > 0
            invariant
                r.wf(),
                0 <= done <= input.len(),
                rest@ == input.skip(done),
                r@ == empty_db().all_entered(input.take(done)),
            decreases rest.len(),
        {
            let c = rest.remove(0);
            r.enter(c);
            proof {
                assert(input.take(done + 1).drop_last() =~= input.take(done));
                assert(input.take(done + 1).last() == c);
                done = done + 1;
                assert(rest@ =~= input.skip(done));
            }
        }
        assert(input.take(done) =~= input);
        r.next_guid = next_guid;
        r
    }

    fn enter(&mut self, c: Character)
        requires
            old(self).wf(),
        ensures
            final(self).wf(),
            final(self)@ == old(self)@.entered(c),
    {
        let ghost was = self@;
        let account = c.account.clone();
        let guid: u64 = c.guid;
        let idx: usize = self.characters_for_all_accounts.len();
        self.characters_for_all_accounts.push(c);
        tables::numbers_insert(&mut self.by_guid, guid, idx as u64);
        let mut known: bool = true;
        match self.by_account.get_mut(account.as_str()) {
            Some(bucket) => {
                bucket.push(idx);
            },
            None => {
                known = false;
            },
        }
        if !known {
            let mut bucket: Vec<usize> = Vec::new();
            bucket.push(idx);
            self.by_account.insert(account, bucket);
            assert(bucket@ =~= Seq::<usize>::empty().push(idx));
        }
        assert(self@.by_account =~= was.entered(c).by_account);
        assert(self@ =~= was.entered(c));
    }

    pub fn get_character_by_guid(&self, guid: u64) -> (r: Option<Character>)
        requires
            self.wf(),
        ensures
            r == self@.by_guid(guid),
    {
        match tables::numbers_get(&self.by_guid, guid) {
            Some(i) => {
                assert(i < self.characters_for_all_accounts.len());
                Some(self.characters_for_all_accounts[i as usize].clone())
            },
            None => None,
        }
    }

    /// Put `c` in the place of the character with its guid, if there is one.
    pub fn replace_character_data(&mut self, c: Character) -> (r: bool)
        requires
            old(self).wf(),
        ensures
            final(self).wf(),
            r == old(self)@.by_guid.contains_key(c.guid),
            final(self)@ == old(self)@.replaced(c),
    {
        match tables::numbers_get(&self.by_guid, c.guid) {
            Some(i) => {
                assert(i < self.characters_for_all_accounts.len());
                self.characters_for_all_accounts[i as usize] = c;
                true
            },
            None => false,
        }
    }

    /// Delete a character that belongs to the account.
    pub fn delete_character_by_guid(&mut self, account_name: &str, guid: u64) -> (r: bool)
        requires
            old(self).wf(),
        ensures
            final(self).wf(),
            r == old(self)@.may_delete(account_name@, guid),
            final(self)@ == (if r {
                old(self)@.deleted(account_name@, guid)
            } else {
                old(self)@
            }),
    {
        let ghost was = self@;
        let idx: usize = match tables::numbers_get(&self.by_guid, guid) {
            Some(i) => {
                assert(i < self.characters_for_all_accounts.len());
                i as usize
            },
            None => {
                return false;
            },
        };
        if !text::same(self.characters_for_all_accounts[idx].account.as_str(), account_name) {
            return false;
        }
        tables::numbers_remove(&mut self.by_guid, guid);
        match self.by_account.get_mut(account_name) {
            Some(bucket) => {
                map_state::remove_first(bucket, idx);
            },
            None => {},
        }
        let ghost unlisted = self.by_account@.map_values(|v: Vec<usize>| v@);
        assert(unlisted =~= (if was.by_account.contains_key(account_name@) {
            was.by_account.insert(account_name@, map_state::without(was.by_account[account_name@], idx))
        } else {
            was.by_account
        }));
        let last_idx: usize = self.characters_for_all_accounts.len() - 1;
        self.characters_for_all_accounts.swap_remove(idx);
        assert(self.characters_for_all_accounts@ =~= was.rows.update(idx as int, was.rows.last()).drop_last());
        if idx < self.characters_for_all_accounts.len() {
            let moved_guid: u64 = self.characters_for_all_accounts[idx].guid;
            let moved_account = self.characters_for_all_accounts[idx].account.clone();
            tables::numbers_insert(&mut self.by_guid, moved_guid, idx as u64);
            match self.by_account.get_mut(moved_account.as_str()) {
                Some(bucket) => {
                    renumber(bucket, last_idx, idx);
                },
                None => {},
            }
        }
        proof {
            assert(self@.by_account =~= was.deleted(account_name@, guid).by_account);
            assert(self@ =~= was.deleted(account_name@, guid));
            let n = self.characters_for_all_accounts@.len();
            assert forall|g: u64| #[trigger] tables::numbers(self.by_guid).contains_key(g) implies tables::numbers(
                self.by_guid,
            )[g] < n && self.characters_for_all_accounts@[tables::numbers(self.by_guid)[g] as int].guid == g by {
                if idx < n && g == self.characters_for_all_accounts@[idx as int].guid {
                } else {
                    assert(was.by_guid.contains_key(g));
                    assert(was.by_guid[g] <= n);
                    if was.by_guid[g] == n {
                        assert(was.rows.last().guid == g);
                    }
                }
            }
        }
        true
    }
}

proof fn lemma_place(s: Seq<usize>, key: usize, from: int)
    requires
        0 <= from,
    ensures
        match map_state::place_in(s, key, from) {
            Some(i) => from <= i < s.len() && s[i] == key,
            None => forall|i: int| from <= i < s.len() ==> #[trigger] s[i] != key,
        },
    decreases s.len() - from,
{
    if from < s.len() && s[from] != key {
        lemma_place(s, key, from + 1);
    }
}

proof fn lemma_without(s: Seq<usize>, key: usize)
    requires
        s.no_duplicates(),
    ensures
        map_state::without(s, key).no_duplicates(),
        forall|x: usize| #[trigger] map_state::without(s, key).contains(x) <==> s.contains(x) && x != key,
{
    lemma_place(s, key, 0);
    let t = map_state::without(s, key);
    match map_state::place_in(s, key, 0) {
        Some(i) => {
            assert forall|x: usize| s.contains(x) && x != key implies #[trigger] t.contains(x) by {
                let j = choose|j: int| 0 <= j < s.len() && s[j] == x;
                if j == s.len() - 1 {
                    assert(t[i] == x);
                } else {
                    assert(t[j] == x);
                }
            }
            assert forall|x: usize| #[trigger] t.contains(x) implies s.contains(x) && x != key by {
                let j = choose|j: int| 0 <= j < t.len() && t[j] == x;
                if j == i {
                    assert(s[s.len() - 1] == x);
                } else {
                    assert(s[j] == x);
                }
            }
        },
        None => {},
    }
}

proof fn lemma_renumbered(s: Seq<usize>, from: usize, to: usize)
    requires
        s.no_duplicates(),
        !s.contains(to),
    ensures
        renumbered(s, from, to).no_duplicates(),
        forall|x: usize| #[trigger]
            renumbered(s, from, to).contains(x) <==> (x != from && s.contains(x)) || (x == to && s.contains(from)),
{
    lemma_place(s, from, 0);
    let t = renumbered(s, from, to);
    match map_state::place_in(s, from, 0) {
        Some(i) => {
            assert(s.contains(from));
            assert forall|x: usize| (x != from && s.contains(x)) || x == to implies #[trigger] t.contains(x) by {
                if x == to {
                    assert(t[i] == x);
                } else {
                    let j = choose|j: int| 0 <= j < s.len() && s[j] == x;
                    assert(t[j] == x);
                }
            }
            assert forall|x: usize| #[trigger] t.contains(x) implies (x != from && s.contains(x)) || x == to by {
                let j = choose|j: int| 0 <= j < t.len() && t[j] == x;
                if j != i {
                    assert(s[j] == x);
                }
            }
        },
        None => {
            assert(!s.contains(from));
        },
    }
}

/// A database that is in step stays so when a character with a new guid is
/// entered; the character is found, and who was found before still is.
pub proof fn entering_keeps_step(db: DbView, c: Character, other: u64)
    requires
        db.in_step(),
        db.rows.len() < usize::MAX,
        !db.by_guid.contains_key(c.guid),
        other != c.guid,
    ensures
        db.entered(c).in_step(),
        db.entered(c).by_guid(c.guid) == Some(c),
        db.entered(c).by_guid(other) == db.by_guid(other),
        db.entered(c).bucket(c.account@) == db.bucket(c.account@).push(db.rows.len() as usize),
{
    let after = db.entered(c);
    let n = db.rows.len() as usize;
    assert forall|a: Seq<char>, i: usize| #[trigger]
        after.bucket(a).contains(i) <==> i < after.rows.len() && after.rows[i as int].account@ == a by {
        let was = db.bucket(a);
        assert(was.contains(i) <==> i < db.rows.len() && db.rows[i as int].account@ == a);
        if a == c.account@ {
            assert(after.bucket(a) == was.push(n));
            if was.contains(i) {
                let j = choose|j: int| 0 <= j < was.len() && was[j] == i;
                assert(was.push(n)[j] == i);
            }
            if i == n {
                assert(was.push(n)[was.len() as int] == i);
            }
            if after.bucket(a).contains(i) && i != n {
                let j = choose|j: int| 0 <= j < was.push(n).len() && was.push(n)[j] == i;
                assert(was[j] == i);
            }
        } else {
            assert(after.bucket(a) == was);
        }
    }
    assert forall|a: Seq<char>| (#[trigger] after.bucket(a)).no_duplicates() by {
        assert(db.bucket(a).no_duplicates());
        if a == c.account@ {
            assert(!db.bucket(a).contains(n));
        } else {
            assert(after.bucket(a) == db.bucket(a));
        }
    }
    if db.by_guid.contains_key(other) {
        assert(db.by_guid[other] < db.rows.len());
    }
}

/// A database that is in step stays so when the data of a character is
/// replaced by data for the same account; the new data is found, and nobody
/// else is touched.
pub proof fn replacing_keeps_step(db: DbView, c: Character, other: u64)
    requires
        db.in_step(),
        db.by_guid.contains_key(c.guid) ==> db.rows[db.by_guid[c.guid] as int].account@ == c.account@,
        other != c.guid,
    ensures
        db.replaced(c).in_step(),
        db.by_guid.contains_key(c.guid) ==> db.replaced(c).by_guid(c.guid) == Some(c),
        db.replaced(c).by_guid(other) == db.by_guid(other),
{
    let after = db.replaced(c);
    if db.by_guid.contains_key(c.guid) {
        let at = db.by_guid[c.guid];
        assert forall|i: int| 0 <= i < after.rows.len() implies after.by_guid.contains_key(
            (#[trigger] after.rows[i]).guid,
        ) && after.by_guid[after.rows[i].guid] == i by {
            assert(db.rows[i].guid == after.rows[i].guid);
        }
        assert forall|a: Seq<char>, i: usize| #[trigger]
            after.bucket(a).contains(i) <==> i < after.rows.len() && after.rows[i as int].account@ == a by {
            assert(after.bucket(a) == db.bucket(a));
        }
        assert forall|a: Seq<char>| (#[trigger] after.bucket(a)).no_duplicates() by {
            assert(after.bucket(a) == db.bucket(a));
        }
        if db.by_guid.contains_key(other) {
            assert(db.rows[db.by_guid[other] as int].guid == other);
        }
    }
}

/// A database that is in step stays so when a character is deleted. The
/// character is not found any more; everybody else is found as before.
pub proof fn deleting_keeps_step(db: DbView, account: Seq<char>, guid: u64, other: u64)
    requires
        db.in_step(),
        db.may_delete(account, guid),
        other != guid,
    ensures
        db.deleted(account, guid).in_step(),
        db.deleted(account, guid).by_guid(guid) is None,
        db.deleted(account, guid).by_guid(other) == db.by_guid(other),
{
    let after = db.deleted(account, guid);
    let at = db.by_guid[guid] as usize;
    let last = (db.rows.len() - 1) as usize;
    assert(db.rows[at as int].guid == guid);
    let unlisted = if db.by_account.contains_key(account) {
        db.by_account.insert(account, map_state::without(db.by_account[account], at))
    } else {
        db.by_account
    };
    let mid = DbView { by_account: unlisted, ..db };
    assert(db.bucket(account).contains(at));
    lemma_without(db.bucket(account), at);
    assert forall|a: Seq<char>| (#[trigger] mid.bucket(a)).no_duplicates() by {
        assert(db.bucket(a).no_duplicates());
        if a != account {
            assert(mid.bucket(a) == db.bucket(a));
        }
    }
    assert forall|a: Seq<char>, i: usize| #[trigger]
        mid.bucket(a).contains(i) <==> i < db.rows.len() && db.rows[i as int].account@ == a && i != at by {
        assert(db.bucket(a).contains(i) <==> i < db.rows.len() && db.rows[i as int].account@ == a);
        if a != account {
            assert(mid.bucket(a) == db.bucket(a));
        }
    }
    if at < last {
        let moved = db.rows.last();
        assert(after.rows[at as int] == moved);
        assert(moved == db.rows[last as int]);
        assert(mid.bucket(moved.account@).contains(last));
        assert(!mid.bucket(moved.account@).contains(at));
        lemma_renumbered(mid.bucket(moved.account@), last, at);
        assert forall|a: Seq<char>, i: usize| #[trigger]
            after.bucket(a).contains(i) <==> i < after.rows.len() && after.rows[i as int].account@ == a by {
            assert(mid.bucket(a).no_duplicates());
            assert(mid.bucket(a).contains(i) <==> i < db.rows.len() && db.rows[i as int].account@ == a && i != at);
            if a == moved.account@ {
                assert(after.bucket(a) == renumbered(mid.bucket(a), last, at));
                assert(after.bucket(a).contains(i) <==> (i != last && mid.bucket(a).contains(i)) || (i == at
                    && mid.bucket(a).contains(last)));
            } else {
                assert(after.bucket(a) == mid.bucket(a));
            }
        }
        assert forall|a: Seq<char>| (#[trigger] after.bucket(a)).no_duplicates() by {
            assert(mid.bucket(a).no_duplicates());
            if a == moved.account@ {
                assert(after.bucket(a) == renumbered(mid.bucket(a), last, at));
            } else {
                assert(after.bucket(a) == mid.bucket(a));
            }
        }
    } else {
        assert forall|a: Seq<char>, i: usize| #[trigger]
            after.bucket(a).contains(i) <==> i < after.rows.len() && after.rows[i as int].account@ == a by {
            assert(after.bucket(a) == mid.bucket(a));
            assert(mid.bucket(a).contains(i) <==> i < db.rows.len() && db.rows[i as int].account@ == a && i != at);
        }
        assert forall|a: Seq<char>| (#[trigger] after.bucket(a)).no_duplicates() by {
            assert(after.bucket(a) == mid.bucket(a));
            assert(mid.bucket(a).no_duplicates());
        }
    }
    assert forall|i: int| 0 <= i < after.rows.len() implies after.by_guid.contains_key((#[trigger] after.rows[i]).guid)
        && after.by_guid[after.rows[i].guid] == i by {
        if i == at {
            assert(db.rows[last as int].guid == after.rows[i].guid);
        } else {
            assert(db.rows[i].guid == after.rows[i].guid);
            assert(db.by_guid[db.rows[last as int].guid] == last);
        }
    }
    assert forall|g: u64| #[trigger] after.by_guid.contains_key(g) implies after.by_guid[g] < after.rows.len()
        && after.rows[after.by_guid[g] as int].guid == g by {
        assert(db.rows[last as int].guid == db.rows.last().guid);
        if g != db.rows.last().guid {
            assert(db.by_guid.contains_key(g));
        }
    }
    assert(db.rows[last as int].guid == db.rows.last().guid);
    if guid == db.rows.last().guid {
        assert(db.by_guid[db.rows[last as int].guid] == last);
    }
    if db.by_guid.contains_key(other) {
        assert(db.rows[db.by_guid[other] as int].guid == other);
    }
}

/// In a database that is in step an account has exactly the characters that
/// name it.
pub proof fn an_account_has_its_characters(db: DbView, account: Seq<char>, i: int)
    requires
        db.in_step(),
        0 <= i < db.rows.len(),
    ensures
        db.characters_of(account).contains(db.rows[i]) <==> db.rows[i].account@ == account,
{
    let bucket = db.bucket(account);
    let inside = |k: usize| k < db.rows.len();
    let kept = bucket.filter(inside);
    let row = |k: usize| db.rows[k as int];
    let cs = kept.map_values(row);
    broadcast use vstd::seq_lib::group_filter_ensures;

    assert(bucket.contains(i as usize) <==> db.rows[i].account@ == account);
    if db.rows[i].account@ == account {
        let at = choose|at: int| 0 <= at < bucket.len() && bucket[at] == i as usize;
        assert(kept.contains(bucket[at]));
        let j = choose|j: int| 0 <= j < kept.len() && kept[j] == i as usize;
        assert(cs[j] == db.rows[i]);
    }
    if cs.contains(db.rows[i]) {
        let j = choose|j: int| 0 <= j < cs.len() && cs[j] == db.rows[i];
        assert(cs[j] == db.rows[kept[j] as int]);
        assert(kept.contains(kept[j]));
        bucket.lemma_filter_contains_rev(inside, kept[j]);
        assert(db.by_guid[db.rows[kept[j] as int].guid] == kept[j]);
        assert(db.by_guid[db.rows[i].guid] == i);
    }
}

/// A character that is created with a new guid is found by it, under its account and no
/// other, and is as it was handed in; everybody else is found as before.
pub proof fn who_is_created_is_found(
    db: &mut WorldDatabase,
    account_name: &str,
    character: Character,
    u: (),
    after: &WorldDatabase,
    guid: u64,
    r: Option<Character>,
    account: &str,
    s: Option<Character>,
)
    requires
        old(db).wf(),
        old(db)@.in_step(),
        old(db)@.rows.len() < usize::MAX,
        !old(db)@.by_guid.contains_key(character.guid),
        call_ensures(WorldDatabase::create_character_in_account, (db, account_name, character), u),
        *after == *final(db),
        call_ensures(WorldDatabase::get_character_by_guid, (after, guid), r),
        call_ensures(WorldDatabase::get_character_for_account, (after, account, guid), s),
    ensures
        final(db)@.in_step(),
        guid == character.guid ==> r is Some && r->0.account@ == account_name@ && (Character {
            account: character.account,
            ..r->0
        }) == character,
        guid == character.guid && account@ == account_name@ ==> s == r,
        guid == character.guid && account@ != account_name@ ==> s is None,
        guid != character.guid ==> r == old(db)@.by_guid(guid),
        final(db)@.next_guid == old(db)@.next_guid,
{
    let c = final(db)@.rows.last();
    assert(c.guid == (Character { account: character.account, ..c }).guid);
    if guid != character.guid {
        entering_keeps_step(old(db)@, c, guid);
    } else {
        let other: u64 = if c.guid == 0 {
            1
        } else {
            0
        };
        entering_keeps_step(old(db)@, c, other);
    }
}

/// Only the account that a character belongs to can delete it. A character that was deleted
/// is not found any more, and everybody else is found as before.
pub proof fn only_the_owner_deletes(
    db: &mut WorldDatabase,
    account_name: &str,
    guid: u64,
    r: bool,
    other: u64,
)
    requires
        old(db).wf(),
        old(db)@.in_step(),
        call_ensures(WorldDatabase::delete_character_by_guid, (db, account_name, guid), r),
        other != guid,
    ensures
        r <==> old(db)@.by_guid(guid) is Some && old(db)@.by_guid(guid)->0.account@ == account_name@,
        r ==> final(db)@.by_guid(guid) is None,
        r ==> final(db)@.rows.len() == old(db)@.rows.len() - 1,
        !r ==> final(db)@ == old(db)@,
        final(db)@.by_guid(other) == old(db)@.by_guid(other),
        final(db)@.in_step(),
        final(db)@.next_guid == old(db)@.next_guid,
{
    if r {
        deleting_keeps_step(old(db)@, account_name@, guid, other);
    }
}

/// What replaces the data of a character is what is found afterwards; somebody who is not
/// there is not replaced, and nobody else is touched.
pub proof fn what_is_replaced_is_found(db: &mut WorldDatabase, c: Character, r: bool, other: u64)
    requires
        old(db).wf(),
        call_ensures(WorldDatabase::replace_character_data, (db, c), r),
        old(db)@.in_step(),
        other != c.guid,
    ensures
        r <==> old(db)@.by_guid(c.guid) is Some,
        r ==> final(db)@.by_guid(c.guid) == Some(c),
        !r ==> final(db)@ == old(db)@,
        final(db)@.by_guid(other) == old(db)@.by_guid(other),
        final(db)@.rows.len() == old(db)@.rows.len(),
{
}

/// An account is shown the characters that name it, all of them and nobody else's.
pub proof fn an_account_is_shown_its_own(db: &WorldDatabase, account: &str, r: Vec<Character>, i: int)
    requires
        db.wf(),
        db@.in_step(),
        call_ensures(WorldDatabase::get_characters_for_account, (db, account), r),
        0 <= i < db@.rows.len(),
    ensures
        r@.contains(db@.rows[i]) <==> db@.rows[i].account@ == account@,
{
    an_account_has_its_characters(db@, account@, i);
}

/// Every guid that is handed out is new: the next one is greater.
pub proof fn guids_are_handed_out_once(db: &mut WorldDatabase, a: u64, then: &mut WorldDatabase, b: u64)
    requires
        old(db).wf(),
        old(db)@.next_guid < u64::MAX,
        call_ensures(WorldDatabase::new_guid, (db,), a),
        *old(then) == *final(db),
        old(then)@.next_guid < u64::MAX,
        call_ensures(WorldDatabase::new_guid, (then,), b),
    ensures
        a == old(db)@.next_guid,
        b == a + 1,
        final(then)@.next_guid == a + 2,
        final(then)@.rows == old(db)@.rows,
{
}

/// A database made from characters has all of them, in their order, and goes on with the
/// guid that it is given.
pub proof fn a_database_has_its_parts(characters: Vec<Character>, next_guid: u64, r: WorldDatabase)
    requires
        call_ensures(WorldDatabase::from_parts, (characters, next_guid), r),
    ensures
        r@.rows == characters@,
        r@.next_guid == next_guid,
{
    lemma_all_rows(empty_db(), characters@);
}

pub(crate) proof fn lemma_all_rows(db: DbView, cs: Seq<Character>)
    ensures
        db.all_entered(cs).rows == db.rows + cs,
    decreases cs.len(),
{
    if cs.len() > 0 {
        lemma_all_rows(db, cs.drop_last());
    }
    assert(db.all_entered(cs).rows =~= db.rows + cs);
}

/// A fresh server has three characters, of level sixty and with all their health, under the
/// account for trying things out.
pub proof fn a_fresh_server_has_three_characters(start: Position, combat: &CombatConfig, r: WorldDatabase, i: int)
    requires
        call_ensures(WorldDatabase::new, (start, combat), r),
        0 <= i < 3,
    ensures
        r@.rows.len() == 3,
        r@.rows[i].account@ == "DEV"@,
        r@.rows[i].level == 60,
        r@.rows[i].race == 1 && r@.rows[i].class == 1,
        r@.rows[i].current_health == combat.pvp_max_health && r@.rows[i].max_health == combat.pvp_max_health,
        r@.rows[i].map == start.map && r@.rows[i].info.position == start.place,
        r@.rows[0].name@ == "Dev"@ && r@.rows[1].name@ == "HumOne"@ && r@.rows[2].name@ == "HumTwo"@,
        r@.rows[0].guid < r@.rows[1].guid < r@.rows[2].guid < r@.next_guid,
{
    lemma_is_seed(r@.rows[0], 0, "Dev"@, 1, start, combat.pvp_max_health);
    lemma_is_seed(r@.rows[1], guids_of_seed() as u64, "HumOne"@, 1, start, combat.pvp_max_health);
    lemma_is_seed(r@.rows[2], (2 * guids_of_seed()) as u64, "HumTwo"@, 0, start, combat.pvp_max_health);
}

proof fn lemma_is_seed(c: Character, next_guid: u64, name: Seq<char>, gender: u8, start: Position, health: u32)
    requires
        is_seed(c, next_guid, name, gender, start, health),
    ensures
        c.account@ == "DEV"@,
        c.level == 60 && c.race == 1 && c.class == 1 && c.gender == gender,
        c.name@ == name,
        c.current_health == health && c.max_health == health,
        c.map == start.map && c.info.position == start.place,
        c.guid == (next_guid + guids_of_seed() - 1) as u64,
{
    let none = choose|none: String|
        #![trigger character::with_account(c, none)]
        character::is_created(
            character::with_account(c, none),
            next_guid,
            name,
            character::RACE_HUMAN,
            character::CLASS_WARRIOR,
            gender,
            (Looks { skin: 0, face: 0, hair_style: 0, hair_color: 0, facial_hair: 0 }),
            character::MAX_LEVEL,
            start,
            health,
        );
    let d = character::with_account(c, none);
    assert(d.level == c.level && d.name == c.name);
}

} // verus!
