//! The race from Booty Bay to the arena of the Gurubashi.
use vstd::prelude::*;

verus! {

/// The docks of Booty Bay, where the race starts.
pub const BOOTY_BAY: (u32, u32, u32) = (0xc65e_779a, 0x4383_028f, 0x41c6_0000);

/// A point of the road along the coast.
pub const COAST_ROAD: (u32, u32, u32) = (0xc657_a000, 0x4348_0000, 0x41f0_0000);

/// The entrance of the arena, where the race ends.
pub const GURUBASHI_ARENA: (u32, u32, u32) = (0xc64f_92fd, 0x42e8_0083, 0x41c2_e148);

/// A rough way for when there is no map.
pub fn hardcoded_bb_to_arena() -> (r: Vec<(u32, u32, u32)>)
    ensures
        r@ == seq![BOOTY_BAY, COAST_ROAD, GURUBASHI_ARENA],
{
    let mut r: Vec<(u32, u32, u32)> = Vec::new();
    r.push(BOOTY_BAY);
    r.push(COAST_ROAD);
    r.push(GURUBASHI_ARENA);
    assert(r@ =~= seq![BOOTY_BAY, COAST_ROAD, GURUBASHI_ARENA]);
    r
}

/// The way of the race: the one that was found, or the rough one.
pub fn race_path(found: Option<Vec<(u32, u32, u32)>>) -> (r: Vec<(u32, u32, u32)>)
    ensures
        r@ == (match found {
            Some(p) => p@,
            None => seq![BOOTY_BAY, COAST_ROAD, GURUBASHI_ARENA],
        }),
{
    match found {
        Some(p) => p,
        None => hardcoded_bb_to_arena(),
    }
}

/// The smaller and the larger of two numbers.
pub open spec fn span(a: i32, b: i32) -> (i32, i32) {
    if a <= b {
        (a, b)
    } else {
        (b, a)
    }
}

/// Whether a tile lies in the box of two others.
pub open spec fn between(t: (i32, i32), a: (i32, i32), b: (i32, i32)) -> bool {
    &&& span(a.0, b.0).0 <= t.0 <= span(a.0, b.0).1
    &&& span(a.1, b.1).0 <= t.1 <= span(a.1, b.1).1
}

/// The tiles in the box of two, column by column.
pub open spec fn box_of(a: (i32, i32), b: (i32, i32)) -> Seq<(i32, i32)> {
    let (x0, x1) = span(a.0, b.0);
    let (y0, y1) = span(a.1, b.1);
    let h = y1 - y0 + 1;
    Seq::new(((x1 - x0 + 1) * h) as nat, |i: int| ((x0 + i / h) as i32, (y0 + i % h) as i32))
}

/// The tiles that the race may cross, to be loaded before it.
pub fn tiles_between(a: (i32, i32), b: (i32, i32)) -> (r: Vec<(i32, i32)>)
    requires
        0 <= a.0 < 64,
        0 <= a.1 < 64,
        0 <= b.0 < 64,
        0 <= b.1 < 64,
    ensures
        r@ == box_of(a, b),
{
    let (x0, x1): (i32, i32) = if a.0 <= b.0 {
        (a.0, b.0)
    } else {
        (b.0, a.0)
    };
    let (y0, y1): (i32, i32) = if a.1 <= b.1 {
        (a.1, b.1)
    } else {
        (b.1, a.1)
    };
    let ghost h = y1 - y0 + 1;
    let mut r: Vec<(i32, i32)> = Vec::new();
    let mut x: i32 = x0;
    assert(r@ =~= box_of(a, b).take(0));
    assert((x - x0) * h == 0) by (nonlinear_arith)
        requires
            x == x0,
    ;
    while x <= x1
        invariant
            0 <= x0 <= x <= x1 + 1,
            x1 < 64,
            0 <= y0 <= y1 < 64,
            (x0, x1) == span(a.0, b.0),
            (y0, y1) == span(a.1, b.1),
            h == y1 - y0 + 1,
            r@.len() == (x - x0) * h,
            forall|i: int| 0 <= i < r@.len() ==> #[trigger] r@[i] == ((x0 + i / h) as i32, (y0 + i % h) as i32),
        decreases x1 + 1 - x,
    {
        let mut y: i32 = y0;
        while y <= y1
            invariant
                0 <= x0 <= x <= x1,
                x1 < 64,
                0 <= y0 <= y <= y1 + 1,
                y1 < 64,
                h == y1 - y0 + 1,
                r@.len() == (x - x0) * h + (y - y0),
                forall|i: int| 0 <= i < r@.len() ==> #[trigger] r@[i] == ((x0 + i / h) as i32, (y0 + i % h) as i32),
            decreases y1 + 1 - y,
        {
            let ghost n = r@.len() as int;
            r.push((x, y));
            assert(n / h == x - x0 && n % h == y - y0) by (nonlinear_arith)
                requires
                    n == (x - x0) * h + (y - y0),
                    0 <= y - y0 < h,
            ;
            y += 1;
        }
        assert((x + 1 - x0) * h == (x - x0) * h + h) by (nonlinear_arith);
        x += 1;
    }
    assert(r@ =~= box_of(a, b));
    r
}

/// The tiles of a box are those that lie in it.
pub proof fn a_box_holds_what_lies_in_it(t: (i32, i32), a: (i32, i32), b: (i32, i32))
    requires
        0 <= a.0 < 64,
        0 <= a.1 < 64,
        0 <= b.0 < 64,
        0 <= b.1 < 64,
    ensures
        box_of(a, b).contains(t) <==> between(t, a, b),
{
    let (x0, x1) = span(a.0, b.0);
    let (y0, y1) = span(a.1, b.1);
    let h = y1 - y0 + 1;
    let s = box_of(a, b);
    if between(t, a, b) {
        let i = (t.0 - x0) * h + (t.1 - y0);
        assert(0 <= i < (x1 - x0 + 1) * h && i / h == t.0 - x0 && i % h == t.1 - y0) by (nonlinear_arith)
            requires
                i == (t.0 - x0) * h + (t.1 - y0),
                0 <= t.0 - x0 <= x1 - x0,
                0 <= t.1 - y0 < h,
        ;
        assert(s[i] == t);
    }
    if s.contains(t) {
        let i = choose|i: int| 0 <= i < s.len() && s[i] == t;
        assert(0 <= i / h <= x1 - x0 && 0 <= i % h < h) by (nonlinear_arith)
            requires
                0 <= i < (x1 - x0 + 1) * h,
                h > 0,
        ;
    }
}

/// A number that looks like chance.
pub open spec fn mixed(z: u32) -> u32 {
    let a = z ^ (z >> 16u32);
    let b = a.wrapping_mul(0x85eb_ca6b);
    let c = b ^ (b >> 13u32);
    let d = c.wrapping_mul(0xc2b2_ae35);
    d ^ (d >> 16u32)
}

/// The state that a slot begins with.
pub open spec fn start_of(slot: u32) -> u32 {
    slot.wrapping_mul(0x9E37_79B9).wrapping_add(1)
}

/// The two numbers that say how far the bot of a slot keeps off the way.
pub open spec fn jitter_numbers(slot: u32) -> (u32, u32) {
    let a = start_of(slot).wrapping_add(0x9E37_79B9);
    (mixed(a), mixed(a.wrapping_add(0x9E37_79B9)))
}

fn mix(z: u32) -> (r: u32)
    ensures
        r == mixed(z),
{
    let mut h: u32 = z;
    h = h ^ (h >> 16u32);
    h = h.wrapping_mul(0x85eb_ca6b);
    h = h ^ (h >> 13u32);
    h = h.wrapping_mul(0xc2b2_ae35);
    h ^ (h >> 16u32)
}

/// How far the bot of a slot keeps off the way: always the same, as two numbers of
/// the whole range of integers.
pub fn jitter_for_slot(slot: u32) -> (r: (u32, u32))
    ensures
        r == jitter_numbers(slot),
{
    let a: u32 = slot.wrapping_mul(0x9E37_79B9).wrapping_add(1).wrapping_add(0x9E37_79B9);
    let b: u32 = a.wrapping_add(0x9E37_79B9);
    (mix(a), mix(b))
}

/// Which point of the way a bot runs to, and in which direction it runs the way.
#[derive(Debug, Clone, Copy, PartialEq, Eq, Structural)]
pub struct Leg {
    pub index: usize,
    pub forward: bool,
}

impl Leg {
    /// The point that comes after, on a way of `len` points. At an end of the way the
    /// bot turns around.
    pub open spec fn following(self, len: nat) -> Leg {
        if len < 2 {
            self
        } else if self.forward {
            if self.index + 1 < len {
                Leg { index: (self.index + 1) as usize, forward: true }
            } else {
                Leg { index: (self.index - 1) as usize, forward: false }
            }
        } else if self.index > 0 {
            Leg { index: (self.index - 1) as usize, forward: false }
        } else {
            Leg { index: 1, forward: true }
        }
    }

    /// The point after `n` more.
    pub open spec fn after(self, len: nat, n: nat) -> Leg
        decreases n,
    {
        if n == 0 {
            self
        } else {
            self.after(len, (n - 1) as nat).following(len)
        }
    }

    /// Go on from a point that was reached.
    pub fn next(self, len: usize) -> (r: Leg)
        requires
            self.index < len,
        ensures
            r == self.following(len as nat),
            r.index < len,
    {
        if len < 2 {
            self
        } else if self.forward {
            if self.index + 1 < len {
                Leg { index: self.index + 1, forward: true }
            } else {
                Leg { index: self.index - 1, forward: false }
            }
        } else if self.index > 0 {
            Leg { index: self.index - 1, forward: false }
        } else {
            Leg { index: 1, forward: true }
        }
    }
}

/// Where a bot is that began at the start.
proof fn lemma_after(len: nat, n: nat)
    requires
        2 <= len <= usize::MAX,
        n <= 2 * (len - 1),
    ensures
        (Leg { index: 0, forward: true }).after(len, n) == (if n < len {
            Leg { index: n as usize, forward: true }
        } else {
            Leg { index: (2 * (len - 1) - n) as usize, forward: false }
        }),
    decreases n,
{
    if n > 0 {
        lemma_after(len, (n - 1) as nat);
    }
}

/// A bot runs to the end of the way and back to its start.
pub proof fn the_race_goes_there_and_back(len: nat)
    requires
        2 <= len <= usize::MAX,
    ensures
        (Leg { index: 0, forward: true }).after(len, (len - 1) as nat).index == len - 1,
        (Leg { index: 0, forward: true }).after(len, (2 * (len - 1)) as nat).index == 0,
{
    lemma_after(len, (len - 1) as nat);
    lemma_after(len, (2 * (len - 1)) as nat);
}

/// A bot that reached a point runs to the next, and at either end of the way it turns around.
pub proof fn a_bot_turns_at_the_ends(leg: Leg, len: usize, r: Leg)
    requires
        leg.index < len,
        len >= 2,
        call_ensures(Leg::next, (leg, len), r),
    ensures
        leg.forward && leg.index + 1 < len ==> r.forward && r.index == leg.index + 1,
        leg.forward && leg.index + 1 == len ==> !r.forward && r.index == leg.index - 1,
        !leg.forward && leg.index > 0 ==> !r.forward && r.index == leg.index - 1,
        !leg.forward && leg.index == 0 ==> r.forward && r.index == 1,
{
}

/// The tiles between two are all of those in their box, each once.
pub proof fn every_tile_between_is_listed(a: (i32, i32), b: (i32, i32), r: Vec<(i32, i32)>, t: (i32, i32))
    requires
        0 <= a.0 < 64,
        0 <= a.1 < 64,
        0 <= b.0 < 64,
        0 <= b.1 < 64,
        call_ensures(tiles_between, (a, b), r),
    ensures
        a.0 <= b.0 && a.1 <= b.1 ==> (r@.contains(t) <==> a.0 <= t.0 <= b.0 && a.1 <= t.1 <= b.1),
        a.0 >= b.0 && a.1 >= b.1 ==> (r@.contains(t) <==> b.0 <= t.0 <= a.0 && b.1 <= t.1 <= a.1),
        a.0 <= b.0 && a.1 >= b.1 ==> (r@.contains(t) <==> a.0 <= t.0 <= b.0 && b.1 <= t.1 <= a.1),
        a.0 >= b.0 && a.1 <= b.1 ==> (r@.contains(t) <==> b.0 <= t.0 <= a.0 && a.1 <= t.1 <= b.1),
{
    a_box_holds_what_lies_in_it(t, a, b);
}

/// The race goes where a way was found, else from the bay over the coast to the arena.
pub proof fn the_race_has_a_way(found: Option<Vec<(u32, u32, u32)>>, r: Vec<(u32, u32, u32)>)
    requires
        call_ensures(race_path, (found,), r),
    ensures
        found is Some ==> r@ == found->0@,
        found is None ==> r@ == seq![
            (0xc65e_779au32, 0x4383_028fu32, 0x41c6_0000u32),
            (0xc657_a000u32, 0x4348_0000u32, 0x41f0_0000u32),
            (0xc64f_92fdu32, 0x42e8_0083u32, 0x41c2_e148u32),
        ],
{
}

} // verus!
