//! The characters of bots.
use crate::text;
use rand::rngs::StdRng;
use rand::{RngExt, SeedableRng};
use std::collections::hash_map::DefaultHasher;
use std::hash::{Hash, Hasher};
use vstd::prelude::*;
use vstd::std_specs::hash::DefaultHasherAdditionalSpecFns;

verus! {

/// The character of a bot. `gender` is 0 for male and 1 for female.
#[derive(Debug)]
pub struct CharProfile {
    pub name: String,
    pub race: u8,
    pub class: u8,
    pub gender: u8,
    pub skin_color: u8,
    pub face: u8,
    pub hair_style: u8,
    pub hair_color: u8,
    pub facial_hair: u8,
}

/// The races and classes that go together, by their numbers.
pub const ALL_RACE_CLASSES: [(u8, u8); 40] = [
    (3, 3),
    (3, 2),
    (3, 5),
    (3, 4),
    (3, 1),
    (7, 8),
    (7, 4),
    (7, 9),
    (7, 1),
    (1, 8),
    (1, 2),
    (1, 5),
    (1, 4),
    (1, 9),
    (1, 1),
    (4, 11),
    (4, 3),
    (4, 5),
    (4, 4),
    (4, 1),
    (2, 3),
    (2, 4),
    (2, 7),
    (2, 9),
    (2, 1),
    (6, 11),
    (6, 3),
    (6, 7),
    (6, 1),
    (8, 3),
    (8, 8),
    (8, 5),
    (8, 4),
    (8, 7),
    (8, 1),
    (5, 8),
    (5, 5),
    (5, 4),
    (5, 9),
    (5, 1),
];

pub open spec fn is_letter(c: char) -> bool {
    'a' <= c <= 'z' || 'A' <= c <= 'Z'
}

/// A letter in lower case.
pub open spec fn lower(c: char) -> char {
    if 'A' <= c <= 'Z' {
        (c as int + 32) as char
    } else {
        c
    }
}

/// A letter in upper case.
pub open spec fn upper(c: char) -> char {
    if 'a' <= c <= 'z' {
        (c as int - 32) as char
    } else {
        c
    }
}

/// The letters of `s` in lower case, but no more than four.
pub open spec fn first_letters(s: Seq<char>) -> Seq<char>
    decreases s.len(),
{
    if s.len() == 0 {
        Seq::empty()
    } else {
        let before = first_letters(s.drop_last());
        if is_letter(s.last()) && before.len() < 4 {
            before.push(lower(s.last()))
        } else {
            before
        }
    }
}

/// The prefix that a host gives names.
pub open spec fn prefix_of(host: Seq<char>) -> Seq<char> {
    if first_letters(host).len() < 2 {
        "bot"@
    } else {
        first_letters(host)
    }
}

/// Whether `s` can be a prefix.
pub open spec fn is_prefix(s: Seq<char>) -> bool {
    &&& 2 <= s.len() <= 4
    &&& forall|i: int| 0 <= i < s.len() ==> 'a' <= #[trigger] s[i] && s[i] <= 'z'
}

fn to_lower(c: char) -> (r: char)
    requires
        is_letter(c),
    ensures
        r == lower(c),
{
    if c <= 'Z' {
        ((c as u32 as u8) + 32) as char
    } else {
        c
    }
}

fn to_upper(c: char) -> (r: char)
    requires
        'a' <= c <= 'z',
    ensures
        r == upper(c),
{
    ((c as u32 as u8) - 32) as char
}

/// Up to four letters of the name of the host, or a name for any where it has fewer
/// than two.
pub fn host_prefix(host: &str) -> (r: String)
    ensures
        r@ == prefix_of(host@),
        is_prefix(r@),
{
    let all = text::chars_of(host);
    let mut r: Vec<char> = Vec::new();
    let mut i: usize = 0;
    assert(all@.take(0) =~= Seq::<char>::empty());
    while i < all.len()
        invariant
            i <= all@.len(),
            r@ == first_letters(all@.take(i as int)),
            r@.len() <= 4,
            forall|j: int| 0 <= j < r@.len() ==> 'a' <= #[trigger] r@[j] && r@[j] <= 'z',
        decreases all.len() - i,
    {
        let c: char = all[i];
        proof {
            assert(all@.take(i + 1).drop_last() =~= all@.take(i as int));
            assert(all@.take(i + 1).last() == c);
        }
        if (('a' <= c && c <= 'z') || ('A' <= c && c <= 'Z')) && r.len() < 4 {
            r.push(to_lower(c));
        }
        i += 1;
    }
    assert(all@.take(i as int) =~= all@);
    if r.len() < 2 {
        proof {
            reveal_strlit("bot");
        }
        "bot".to_string()
    } else {
        text::from_chars(&r)
    }
}

/// What a hasher is fed of a text.
pub uninterp spec fn fed(s: Seq<char>) -> Seq<Seq<u8>>;

/// `str::hash` of the standard library: the hasher is fed the text, behind what it was
/// fed before.
#[verifier::external_body]
fn feed(s: &str, h: &mut DefaultHasher)
    ensures
        final(h)@ == old(h)@ + fed(s@),
{
    s.hash(h)
}

/// The hash of a text.
pub open spec fn hashed(s: Seq<char>) -> u64 {
    DefaultHasher::spec_finish(fed(s))
}

/// The number that the character of a bot is drawn from.
pub fn seed_for(username: &str) -> (r: u64)
    ensures
        r == hashed(username@),
{
    let mut h = DefaultHasher::new();
    feed(username, &mut h);
    assert(h@ =~= fed(username@));
    h.finish()
}

/// `rand::rngs::StdRng`, a generator of numbers.
#[verifier::external_type_specification]
#[verifier::external_body]
pub struct ExStdRng(StdRng);

/// The generator that starts from a seed.
pub uninterp spec fn seeded(seed: u64) -> StdRng;

/// `StdRng::seed_from_u64` of `rand`: the generator that starts from the seed.
#[verifier::external_body]
fn generator(seed: u64) -> (r: StdRng)
    ensures
        r == seeded(seed),
{
    StdRng::seed_from_u64(seed)
}

/// The byte below `n` that comes next, and the generator afterwards.
pub uninterp spec fn next_byte(g: StdRng, n: u8) -> (u8, StdRng);

/// `RngExt::random_range` of `rand`, for a byte: one below `n`, which there has to be.
/// A generator draws the same from the same state.
#[verifier::external_body]
fn draw_byte(g: &mut StdRng, n: u8) -> (r: u8)
    requires
        n > 0,
    ensures
        (r, *final(g)) == next_byte(*old(g), n),
        r < n,
{
    g.random_range(0..n)
}

/// The index below `n` that comes next, and the generator afterwards.
pub uninterp spec fn next_index(g: StdRng, n: usize) -> (usize, StdRng);

/// `RngExt::random_range` of `rand`, for an index: one below `n`, which there has to be.
/// A generator draws the same from the same state.
#[verifier::external_body]
fn draw_index(g: &mut StdRng, n: usize) -> (r: usize)
    requires
        n > 0,
    ensures
        (r, *final(g)) == next_index(*old(g), n),
        r < n,
{
    g.random_range(0..n)
}

/// What comes next of `n` in `of` cases, and the generator afterwards.
pub uninterp spec fn next_case(g: StdRng, n: u32, of: u32) -> (bool, StdRng);

/// `RngExt::random_ratio` of `rand`: true in `n` of `of` cases. A generator draws the
/// same from the same state.
#[verifier::external_body]
fn draw_case(g: &mut StdRng, n: u32, of: u32) -> (r: bool)
    requires
        n <= of,
        0 < of,
    ensures
        (r, *final(g)) == next_case(*old(g), n, of),
        n == 0 ==> !r,
        n == of ==> r,
{
    g.random_ratio(n, of)
}

/// What was drawn for a character.
#[derive(Debug, Clone, Copy)]
pub struct Rolls {
    pub letters: [u8; 5],
    pub race_class: usize,
    pub male: bool,
    pub skin_color: u8,
    pub face: u8,
    pub hair_style: u8,
    pub hair_color: u8,
    pub facial_hair: u8,
}

#[verifier::ext_equal]
pub struct RollsView {
    pub letters: Seq<u8>,
    pub race_class: usize,
    pub male: bool,
    pub skin_color: u8,
    pub face: u8,
    pub hair_style: u8,
    pub hair_color: u8,
    pub facial_hair: u8,
}

impl View for Rolls {
    type V = RollsView;

    open spec fn view(&self) -> RollsView {
        RollsView {
            letters: self.letters@,
            race_class: self.race_class,
            male: self.male,
            skin_color: self.skin_color,
            face: self.face,
            hair_style: self.hair_style,
            hair_color: self.hair_color,
            facial_hair: self.facial_hair,
        }
    }
}

impl RollsView {
    /// Whether all that was drawn can be drawn.
    pub open spec fn wf(self) -> bool {
        &&& self.letters.len() == 5
        &&& forall|i: int| 0 <= i < 5 ==> #[trigger] self.letters[i] < 26
        &&& self.race_class < 40
        &&& self.skin_color < 6
        &&& self.face < 4
        &&& self.hair_style < 8
        &&& self.hair_color < 6
        &&& self.facial_hair < 6
    }
}

/// What a generator draws for a character: five letters, a race and class, whether it
/// is male, and its looks.
pub open spec fn drawn(g: StdRng) -> RollsView {
    let a = next_byte(g, 26);
    let b = next_byte(a.1, 26);
    let c = next_byte(b.1, 26);
    let d = next_byte(c.1, 26);
    let e = next_byte(d.1, 26);
    let race_class = next_index(e.1, 40);
    let male = next_case(race_class.1, 1, 2);
    let skin_color = next_byte(male.1, 6);
    let face = next_byte(skin_color.1, 4);
    let hair_style = next_byte(face.1, 8);
    let hair_color = next_byte(hair_style.1, 6);
    let facial_hair = next_byte(hair_color.1, 6);
    RollsView {
        letters: seq![a.0, b.0, c.0, d.0, e.0],
        race_class: race_class.0,
        male: male.0,
        skin_color: skin_color.0,
        face: face.0,
        hair_style: hair_style.0,
        hair_color: hair_color.0,
        facial_hair: facial_hair.0,
    }
}

fn roll(g: &mut StdRng) -> (r: Rolls)
    ensures
        r@ == drawn(*old(g)),
        r@.wf(),
{
    let a: u8 = draw_byte(g, 26);
    let b: u8 = draw_byte(g, 26);
    let c: u8 = draw_byte(g, 26);
    let d: u8 = draw_byte(g, 26);
    let e: u8 = draw_byte(g, 26);
    let race_class: usize = draw_index(g, 40);
    let male = draw_case(g, 1, 2);
    let skin_color: u8 = draw_byte(g, 6);
    let face: u8 = draw_byte(g, 4);
    let hair_style: u8 = draw_byte(g, 8);
    let hair_color: u8 = draw_byte(g, 6);
    let facial_hair: u8 = draw_byte(g, 6);
    let r = Rolls {
        letters: [a, b, c, d, e],
        race_class,
        male,
        skin_color,
        face,
        hair_style,
        hair_color,
        facial_hair,
    };
    assert(r@.letters =~= drawn(*old(g)).letters);
    r
}

/// The name: the prefix with a capital, and the letters that were drawn.
pub open spec fn name_of(prefix: Seq<char>, letters: Seq<u8>) -> Seq<char> {
    seq![upper(prefix[0])] + prefix.skip(1) + letters.map_values(|n: u8| ('a' as int + n) as char)
}

/// Whether `p` is the character with that prefix of which that was drawn.
pub open spec fn is_profile(p: CharProfile, prefix: Seq<char>, r: RollsView) -> bool {
    &&& p.name@ == name_of(prefix, r.letters)
    &&& (p.race, p.class) == ALL_RACE_CLASSES@[r.race_class as int]
    &&& p.gender == if r.male {
        0u8
    } else {
        1u8
    }
    &&& p.skin_color == r.skin_color
    &&& p.face == r.face
    &&& p.hair_style == r.hair_style
    &&& p.hair_color == r.hair_color
    &&& p.facial_hair == r.facial_hair
}

/// The character of which that was drawn.
pub fn profile_from(prefix: &str, r: &Rolls) -> (p: CharProfile)
    requires
        is_prefix(prefix@),
        r@.wf(),
    ensures
        is_profile(p, prefix@, r@),
{
    let cs = text::chars_of(prefix);
    let mut name: Vec<char> = Vec::new();
    name.push(to_upper(cs[0]));
    let mut i: usize = 1;
    let ghost head = seq![upper(prefix@[0])];
    assert(name@ =~= head + prefix@.subrange(1, 1));
    while i < cs.len()
        invariant
            1 <= i <= cs@.len(),
            cs@ == prefix@,
            head == seq![upper(prefix@[0])],
            name@ == head + prefix@.subrange(1, i as int),
        decreases cs.len() - i,
    {
        name.push(cs[i]);
        i += 1;
        assert(name@ =~= head + prefix@.subrange(1, i as int));
    }
    assert(prefix@.subrange(1, i as int) =~= prefix@.skip(1));
    let ghost stem = name@;
    let ghost tail = r.letters@.map_values(|n: u8| ('a' as int + n) as char);
    let mut k: usize = 0;
    assert(name@ =~= stem + tail.take(0));
    while k < 5
        invariant
            k <= 5,
            r@.wf(),
            tail == r.letters@.map_values(|n: u8| ('a' as int + n) as char),
            name@ == stem + tail.take(k as int),
        decreases 5 - k,
    {
        let n: u8 = r.letters[k];
        assert(r@.letters[k as int] < 26);
        name.push((97 + n) as char);
        k += 1;
        assert(name@ =~= stem + tail.take(k as int));
    }
    assert(tail.take(5) =~= tail);
    let (race, class) = ALL_RACE_CLASSES[r.race_class];
    CharProfile {
        name: text::from_chars(&name),
        race,
        class,
        gender: if r.male {
            0
        } else {
            1
        },
        skin_color: r.skin_color,
        face: r.face,
        hair_style: r.hair_style,
        hair_color: r.hair_color,
        facial_hair: r.facial_hair,
    }
}

/// What is drawn for the bot with that name.
pub open spec fn rolled(username: Seq<char>) -> RollsView {
    drawn(seeded(hashed(username)))
}

/// The character of a bot: of one name on one host always the same.
pub fn profile_for(username: &str, host: &str) -> (p: CharProfile)
    ensures
        is_profile(p, prefix_of(host@), rolled(username@)),
        is_prefix(prefix_of(host@)),
        rolled(username@).wf(),
{
    let mut g = generator(seed_for(username));
    let r = roll(&mut g);
    let prefix = host_prefix(host);
    profile_from(prefix.as_str(), &r)
}

/// A bot that comes back finds the character it had.
pub proof fn the_same_bot_has_the_same_character(
    a: CharProfile,
    b: CharProfile,
    username: Seq<char>,
    host: Seq<char>,
)
    requires
        is_profile(a, prefix_of(host), rolled(username)),
        is_profile(b, prefix_of(host), rolled(username)),
    ensures
        a.name@ == b.name@,
        (a.race, a.class, a.gender) == (b.race, b.class, b.gender),
        (a.skin_color, a.face, a.hair_style, a.hair_color, a.facial_hair) == (
            b.skin_color,
            b.face,
            b.hair_style,
            b.hair_color,
            b.facial_hair,
        ),
{
}

/// A name is a capital and six to eight small letters.
pub proof fn names_are_names(prefix: Seq<char>, r: RollsView, i: int)
    requires
        is_prefix(prefix),
        r.wf(),
        0 <= i < name_of(prefix, r.letters).len(),
    ensures
        7 <= name_of(prefix, r.letters).len() <= 9,
        i == 0 ==> 'A' <= name_of(prefix, r.letters)[i] <= 'Z',
        i > 0 ==> 'a' <= name_of(prefix, r.letters)[i] <= 'z',
{
    let n = name_of(prefix, r.letters);
    assert('a' <= prefix[0] && prefix[0] <= 'z');
    if 0 < i < prefix.len() {
        assert(n[i] == prefix[i]);
        assert('a' <= prefix[i] && prefix[i] <= 'z');
    } else if i >= prefix.len() {
        assert(r.letters[i - prefix.len()] < 26);
    }
}

proof fn lemma_first_letters(s: Seq<char>, i: int)
    ensures
        first_letters(s).len() <= 4,
        0 <= i < first_letters(s).len() ==> 'a' <= first_letters(s)[i] <= 'z',
    decreases s.len(),
{
    if s.len() > 0 {
        lemma_first_letters(s.drop_last(), i);
    }
}

proof fn lemma_letters_kept(s: Seq<char>)
    requires
        s.len() <= 4,
        forall|j: int| 0 <= j < s.len() ==> 'a' <= #[trigger] s[j] && s[j] <= 'z',
    ensures
        first_letters(s) == s,
    decreases s.len(),
{
    if s.len() > 0 {
        let init = s.drop_last();
        assert forall|j: int| 0 <= j < init.len() implies 'a' <= #[trigger] init[j] && init[j] <= 'z' by {
            assert(init[j] == s[j]);
        }
        lemma_letters_kept(init);
        assert('a' <= s[s.len() - 1] && s[s.len() - 1] <= 'z');
    }
    assert(first_letters(s) =~= s);
}

/// The prefix of a host of two to four small letters is its name.
pub proof fn a_short_host_is_its_prefix(host: &str, r: String)
    requires
        call_ensures(host_prefix, (host,), r),
        2 <= host@.len() <= 4,
        forall|j: int| 0 <= j < host@.len() ==> 'a' <= #[trigger] host@[j] && host@[j] <= 'z',
    ensures
        r@ == host@,
{
    lemma_letters_kept(host@);
}

/// A character has the name, the race, the class and the looks that were drawn for it.
pub proof fn a_profile_is_as_drawn(prefix: &str, r: &Rolls, p: CharProfile, i: int)
    requires
        is_prefix(prefix@),
        r@.wf(),
        call_ensures(profile_from, (prefix, r), p),
    ensures
        p.name@.len() == prefix@.len() + 5,
        p.name@[0] as int == prefix@[0] as int - 32,
        1 <= i < prefix@.len() ==> p.name@[i] == prefix@[i],
        0 <= i < 5 ==> p.name@[prefix@.len() + i] as int == 'a' as int + r.letters@[i],
        (p.race, p.class) == ALL_RACE_CLASSES@[r.race_class as int],
        r.male <==> p.gender == 0,
        !r.male <==> p.gender == 1,
        p.skin_color == r.skin_color && p.face == r.face && p.hair_style == r.hair_style && p.hair_color == r.hair_color
            && p.facial_hair == r.facial_hair,
{
    if 0 <= i < 5 {
        assert(r.letters@[i] < 26);
    }
}

} // verus!
