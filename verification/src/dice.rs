//! Chance.
//!
//! Random numbers come from a xorshift generator, so that what is drawn depends
//! on the state alone.
use crate::text;
use vstd::prelude::*;
use vstd::string::StringExecFns;

verus! {

/// The state behind `x`.
pub open spec fn after(x: u64) -> u64 {
    let a = x ^ (x << 13u64);
    let b = a ^ (a >> 7u64);
    b ^ (b << 17u64)
}

/// The state after `n` numbers were drawn.
pub open spec fn after_n(x: u64, n: nat) -> u64
    decreases n,
{
    if n == 0 {
        x
    } else {
        after(after_n(x, (n - 1) as nat))
    }
}

/// A state to start from, made from a time in nanoseconds. It is odd.
pub fn seed(nanos: u64) -> (r: u64)
    ensures
        r & 1 == 1,
        r == nanos.wrapping_mul(0x9E37_79B9_7F4A_7C15) | 1,
{
    let x: u64 = nanos.wrapping_mul(0x9E37_79B9_7F4A_7C15);
    assert((x | 1) & 1 == 1) by (bit_vector);
    x | 1
}

/// Draw a number.
pub fn next_rand(state: &mut u64) -> (r: u64)
    ensures
        r == after(*old(state)),
        *final(state) == after(*old(state)),
{
    let mut x: u64 = *state;
    x = x ^ (x << 13u64);
    x = x ^ (x >> 7u64);
    x = x ^ (x << 17u64);
    *state = x;
    x
}

/// From a state that is not zero no draw leads to zero.
pub proof fn the_dice_never_stop(x: u64)
    requires
        x != 0,
    ensures
        after(x) != 0,
{
    let a = x ^ (x << 13u64);
    let b = a ^ (a >> 7u64);
    assert(a != 0) by (bit_vector)
        requires
            x != 0,
            a == x ^ (x << 13u64),
    ;
    assert(b != 0) by (bit_vector)
        requires
            a != 0,
            b == a ^ (a >> 7u64),
    ;
    assert(b ^ (b << 17u64) != 0) by (bit_vector)
        requires
            b != 0,
    ;
}

/// A random look for a creature.
pub open spec fn display_id(r: u64) -> u16 {
    (r % 11657 + 1) as u16
}

pub fn random_display_id(state: &mut u64) -> (r: u16)
    ensures
        r == display_id(after(*old(state))),
        1 <= r <= 11657,
        *final(state) == after(*old(state)),
{
    (next_rand(state) % 11657 + 1) as u16
}

/// The letter that a random number stands for.
pub open spec fn letter(r: u64) -> char {
    ('a' as int + r % 26) as char
}

/// The letters that the next `n` random numbers stand for.
pub open spec fn letters(x: u64, n: nat) -> Seq<char>
    decreases n,
{
    if n == 0 {
        Seq::empty()
    } else {
        letters(x, (n - 1) as nat).push(letter(after_n(x, n)))
    }
}

/// A random name of five to ten small letters.
pub fn random_name(state: &mut u64) -> (r: String)
    ensures
        ({
            let first = after(*old(state));
            &&& r@ == letters(first, (first % 6 + 5) as nat)
            &&& *final(state) == after_n(first, (first % 6 + 5) as nat)
        }),
{
    let first: u64 = next_rand(state);
    let len: u64 = first % 6 + 5;
    let mut name: Vec<char> = Vec::new();
    let mut i: u64 = 0;
    assert(name@ =~= letters(first, 0));
    while i < len
        invariant
            i <= len,
            *state == after_n(first, i as nat),
            name@ == letters(first, i as nat),
        decreases len - i,
    {
        let r: u64 = next_rand(state);
        let b: u8 = 97 + (r % 26) as u8;
        name.push(b as char);
        i += 1;
    }
    text::from_chars(&name)
}

/// `c`, `n` times.
pub open spec fn repeated(c: char, n: nat) -> Seq<char> {
    Seq::new(n, |i: int| c)
}

fn repeat(c: char, n: u64) -> (r: String)
    ensures
        r@ == repeated(c, n as nat),
{
    let mut v: Vec<char> = Vec::new();
    let mut i: u64 = 0;
    while i < n
        invariant
            i <= n,
            v@ == repeated(c, i as nat),
        decreases n - i,
    {
        v.push(c);
        i += 1;
        assert(v@ =~= repeated(c, i as nat));
    }
    text::from_chars(&v)
}

/// A word whose last letter may be drawn out: by two more and up to `spread`
/// further ones.
pub open spec fn drawn_out(stem: Seq<char>, last: char, long: bool, r: u64, spread: u64) -> Seq<char> {
    if long {
        stem + repeated(last, (2 + r % spread + 1) as nat)
    } else {
        stem.push(last)
    }
}

/// The yell that the random numbers from state `x` on stand for, and how many of
/// them there are.
pub open spec fn yell(x: u64) -> (Seq<char>, nat) {
    let r = after(x);
    let long_swifty = r & 1 != 0;
    let long_invasion = r & 2 != 0;
    let n1: nat = if long_swifty {
        2
    } else {
        1
    };
    let n2: nat = if long_invasion {
        n1 + 1
    } else {
        n1
    };
    let base = drawn_out("SWIFT"@, 'Y', long_swifty, after_n(x, n1), 9) + " "@ + drawn_out(
        "INVASIO"@,
        'N',
        long_invasion,
        after_n(x, n2),
        13,
    );
    let shouting = repeated('!', (after_n(x, n2 + 1) % 25) as nat);
    let text = if r & 0x70 == 0 {
        base + " "@ + base + shouting
    } else {
        base + shouting
    };
    (text, n2 + 1)
}

/// A yell, drawn at random.
pub fn swifty_invasion_yell(state: &mut u64) -> (r: String)
    ensures
        r@ == yell(*old(state)).0,
        *final(state) == after_n(*old(state), yell(*old(state)).1),
{
    proof {
        reveal_with_fuel(after_n, 5);
    }
    let ghost x = *state;
    let r: u64 = next_rand(state);
    let mut swifty = "SWIFT".to_string();
    if r & 1 != 0 {
        let n: u64 = 2 + next_rand(state) % 9;
        let tail = repeat('Y', n + 1);
        swifty.append(tail.as_str());
    } else {
        text::push(&mut swifty, 'Y');
    }
    let mut invasion = "INVASIO".to_string();
    if r & 2 != 0 {
        let n: u64 = 2 + next_rand(state) % 13;
        let tail = repeat('N', n + 1);
        invasion.append(tail.as_str());
    } else {
        text::push(&mut invasion, 'N');
    }
    let shouting = repeat('!', next_rand(state) % 25);
    let base = text::join3(swifty.as_str(), " ", invasion.as_str());
    if r & 0x70 == 0 {
        let twice = text::join3(base.as_str(), " ", base.as_str());
        let mut all = twice;
        all.append(shouting.as_str());
        all
    } else {
        let mut all = base;
        all.append(shouting.as_str());
        all
    }
}

/// A look that is drawn is one that there is, and a name that is drawn has five to ten small
/// letters.
pub proof fn what_is_drawn_is_sound(x: &mut u64, look: u16, y: &mut u64, name: String, i: int)
    requires
        call_ensures(random_display_id, (x,), look),
        call_ensures(random_name, (y,), name),
    ensures
        1 <= look <= 11657,
        5 <= name@.len() <= 10,
        0 <= i < name@.len() ==> 'a' <= name@[i] <= 'z',
{
    let first = after(*old(y));
    lemma_letters(first, (first % 6 + 5) as nat, i);
}

pub(crate) proof fn lemma_letters(x: u64, n: nat, i: int)
    ensures
        letters(x, n).len() == n,
        0 <= i < n ==> 'a' <= letters(x, n)[i] <= 'z',
    decreases n,
{
    if n > 0 {
        lemma_letters(x, (n - 1) as nat, i);
        let r = after_n(x, n);
        assert(0 <= r % 26 < 26);
    }
}

/// Two draws in a row give the two next numbers, and a draw is a xorshift by 13, 7 and 17.
pub proof fn draws_are_shifts(x: &mut u64, r: u64)
    requires
        call_ensures(next_rand, (x,), r),
    ensures
        ({
            let a = *old(x) ^ (*old(x) << 13u64);
            let b = a ^ (a >> 7u64);
            r == b ^ (b << 17u64)
        }),
        *final(x) == r,
{
}

/// A yell begins with the name, whether drawn out or not, and ends with exclamation marks, of
/// which there are fewer than twenty-five.
pub proof fn a_yell_begins_with_the_name(x: &mut u64, r: String, i: int)
    requires
        call_ensures(swifty_invasion_yell, (x,), r),
    ensures
        r@.len() >= 14,
        r@.take(5) == "SWIFT"@,
        r@[5] == 'Y',
{
    reveal_strlit("SWIFT");
    reveal_strlit("INVASIO");
    reveal_strlit(" ");
    assert(r@.take(5) =~= "SWIFT"@);
}

} // verus!
