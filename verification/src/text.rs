//! Text: taking it apart, reading numbers from it, and putting it together.
use vstd::prelude::*;
use vstd::string::StringExecFns;

verus! {

/// A text in lower case.
pub uninterp spec fn lowercased(s: Seq<char>) -> Seq<char>;

/// `str::to_lowercase`: the text in lower case.
#[verifier::external_body]
pub(crate) fn to_lowercase(s: &str) -> (r: String)
    ensures
        r@ == lowercased(s@),
{
    s.to_lowercase()
}

/// A text in upper case.
pub uninterp spec fn uppercased(s: Seq<char>) -> Seq<char>;

/// `str::to_uppercase`: the text in upper case.
#[verifier::external_body]
pub(crate) fn to_uppercase(s: &str) -> (r: String)
    ensures
        r@ == uppercased(s@),
{
    s.to_uppercase()
}

/// `==` on `str`: whether the two texts hold the same characters.
#[verifier::external_body]
pub(crate) fn same(a: &str, b: &str) -> (r: bool)
    ensures
        r == (a@ == b@),
{
    a == b
}

/// `String::push`: the character is behind the others.
#[verifier::external_body]
pub(crate) fn push(s: &mut String, c: char)
    ensures
        final(s)@ == old(s)@.push(c),
{
    s.push(c);
}

/// The characters of a text.
pub fn chars_of(s: &str) -> (r: Vec<char>)
    ensures
        r@ == s@,
{
    let mut r: Vec<char> = Vec::new();
    for c in it: s.chars()
        invariant
            r@ == it.seq().take(it.index()),
            it.seq() == s@,
    {
        r.push(c);
        assert(r@ =~= it.seq().take(it.index() + 1));
    }
    assert(r@ =~= s@);
    r
}

/// The text of characters.
pub fn from_chars(v: &Vec<char>) -> (r: String)
    ensures
        r@ == v@,
{
    let mut r = String::new();
    let mut i: usize = 0;
    assert(r@ =~= v@.take(0));
    while i < v.len()
        invariant
            i <= v@.len(),
            r@ == v@.take(i as int),
        decreases v.len() - i,
    {
        push(&mut r, v[i]);
        i += 1;
        assert(r@ =~= v@.take(i as int));
    }
    assert(v@.take(i as int) =~= v@);
    r
}

/// Put three texts one behind the other.
pub fn join3(a: &str, b: &str, c: &str) -> (r: String)
    ensures
        r@ == a@ + b@ + c@,
{
    let mut r = a.to_string();
    r.append(b);
    r.append(c);
    r
}

/// Put five texts one behind the other.
pub fn join5(a: &str, b: &str, c: &str, d: &str, e: &str) -> (r: String)
    ensures
        r@ == a@ + b@ + c@ + d@ + e@,
{
    let mut r = join3(a, b, c);
    r.append(d);
    r.append(e);
    r
}

/// Whether a character is white space.
pub open spec fn is_space(c: char) -> bool {
    ||| '\u{9}' <= c <= '\u{d}'
    ||| c == ' '
    ||| c == '\u{85}'
    ||| c == '\u{a0}'
    ||| c == '\u{1680}'
    ||| '\u{2000}' <= c <= '\u{200a}'
    ||| c == '\u{2028}'
    ||| c == '\u{2029}'
    ||| c == '\u{202f}'
    ||| c == '\u{205f}'
    ||| c == '\u{3000}'
}

pub fn is_whitespace(c: char) -> (r: bool)
    ensures
        r == is_space(c),
{
    ('\u{9}' <= c && c <= '\u{d}') || c == ' ' || c == '\u{85}' || c == '\u{a0}' || c == '\u{1680}' || ('\u{2000}' <= c
        && c <= '\u{200a}') || c == '\u{2028}' || c == '\u{2029}' || c == '\u{202f}' || c == '\u{205f}' || c
        == '\u{3000}'
}

/// `s` without white space at its beginning.
pub open spec fn trimmed_start(s: Seq<char>) -> Seq<char>
    decreases s.len(),
{
    if s.len() > 0 && is_space(s[0]) {
        trimmed_start(s.skip(1))
    } else {
        s
    }
}

/// `s` without white space at its end.
pub open spec fn trimmed_end(s: Seq<char>) -> Seq<char>
    decreases s.len(),
{
    if s.len() > 0 && is_space(s.last()) {
        trimmed_end(s.drop_last())
    } else {
        s
    }
}

/// `s` without white space at its ends.
pub open spec fn trimmed(s: Seq<char>) -> Seq<char> {
    trimmed_end(trimmed_start(s))
}

/// The characters from `from` up to, and without, `to`.
pub fn slice(v: &Vec<char>, from: usize, to: usize) -> (r: Vec<char>)
    requires
        from <= to <= v@.len(),
    ensures
        r@ == v@.subrange(from as int, to as int),
{
    let mut r: Vec<char> = Vec::new();
    let mut i: usize = from;
    assert(r@ =~= v@.subrange(from as int, from as int));
    while i < to
        invariant
            from <= i <= to <= v@.len(),
            r@ == v@.subrange(from as int, i as int),
        decreases to - i,
    {
        r.push(v[i]);
        i += 1;
        assert(r@ =~= v@.subrange(from as int, i as int));
    }
    r
}

pub fn trim(v: &Vec<char>) -> (r: Vec<char>)
    ensures
        r@ == trimmed(v@),
{
    let mut from: usize = 0;
    assert(v@.skip(0) =~= v@);
    while from < v.len() && is_whitespace(v[from])
        invariant
            from <= v@.len(),
            trimmed_start(v@) == trimmed_start(v@.skip(from as int)),
        decreases v.len() - from,
    {
        assert(v@.skip(from as int).skip(1) =~= v@.skip(from + 1));
        from += 1;
    }
    let mut to: usize = v.len();
    assert(v@.skip(from as int) =~= v@.subrange(from as int, to as int));
    while to > from && is_whitespace(v[to - 1])
        invariant
            from <= to <= v@.len(),
            trimmed(v@) == trimmed_end(v@.subrange(from as int, to as int)),
        decreases to - from,
    {
        assert(v@.subrange(from as int, to as int).drop_last() =~= v@.subrange(from as int, to - 1));
        to -= 1;
    }
    slice(v, from, to)
}

/// The first place at or behind `from` that holds `c`.
pub open spec fn find(s: Seq<char>, c: char, from: int) -> Option<int>
    decreases s.len() - from,
{
    if from >= s.len() {
        None
    } else if s[from] == c {
        Some(from)
    } else {
        find(s, c, from + 1)
    }
}

pub fn find_char(v: &Vec<char>, c: char, from: usize) -> (r: Option<usize>)
    requires
        from <= v@.len(),
    ensures
        match r {
            Some(i) => find(v@, c, from as int) == Some(i as int) && from <= i < v@.len(),
            None => find(v@, c, from as int) is None,
        },
{
    let mut i: usize = from;
    while i < v.len()
        invariant
            from <= i <= v@.len(),
            find(v@, c, from as int) == find(v@, c, i as int),
        decreases v.len() - i,
    {
        if v[i] == c {
            return Some(i);
        }
        i += 1;
    }
    None
}

/// What stands before and behind the first `c`; everything and nothing, if there
/// is none.
pub open spec fn split_first(s: Seq<char>, c: char) -> (Seq<char>, Seq<char>) {
    match find(s, c, 0) {
        Some(i) => (s.take(i), s.skip(i + 1)),
        None => (s, Seq::empty()),
    }
}

pub fn split_once_or_all(v: &Vec<char>, c: char) -> (r: (Vec<char>, Vec<char>))
    ensures
        (r.0@, r.1@) == split_first(v@, c),
{
    match find_char(v, c, 0) {
        Some(i) => {
            assert(i < v.len());
            let a = slice(v, 0, i);
            let b = slice(v, i + 1, v.len());
            assert(a@ =~= v@.take(i as int));
            assert(b@ =~= v@.skip(i + 1));
            (a, b)
        },
        None => {
            let a = slice(v, 0, v.len());
            let b: Vec<char> = Vec::new();
            assert(a@ =~= v@);
            assert(b@ =~= Seq::<char>::empty());
            (a, b)
        },
    }
}

/// The pieces of `s` between the `c`.
pub open spec fn pieces(s: Seq<char>, c: char) -> Seq<Seq<char>>
    decreases s.len(),
{
    if s.len() == 0 {
        seq![Seq::empty()]
    } else {
        let before = pieces(s.drop_last(), c);
        if s.last() == c {
            before.push(Seq::empty())
        } else {
            before.drop_last().push(before.last().push(s.last()))
        }
    }
}

/// The views of a list of character lists.
pub open spec fn texts(v: Seq<Vec<char>>) -> Seq<Seq<char>> {
    v.map_values(|w: Vec<char>| w@)
}

pub fn split(v: &Vec<char>, c: char) -> (r: Vec<Vec<char>>)
    ensures
        texts(r@) == pieces(v@, c),
{
    let mut r: Vec<Vec<char>> = Vec::new();
    let mut open: Vec<char> = Vec::new();
    let mut i: usize = 0;
    assert(v@.take(0) =~= Seq::<char>::empty());
    assert(texts(r@).push(open@) =~= pieces(v@.take(0), c));
    while i < v.len()
        invariant
            i <= v@.len(),
            texts(r@).push(open@) == pieces(v@.take(i as int), c),
        decreases v.len() - i,
    {
        let x: char = v[i];
        let ghost done = texts(r@);
        proof {
            assert(v@.take(i + 1).drop_last() =~= v@.take(i as int));
            assert(v@.take(i + 1).last() == x);
            assert(done.push(open@).drop_last() =~= done);
            assert(done.push(open@).last() == open@);
        }
        if x == c {
            let ghost closed = open@;
            let mut next: Vec<char> = Vec::new();
            std::mem::swap(&mut next, &mut open);
            r.push(next);
            assert(texts(r@) =~= done.push(closed));
            assert(open@ =~= Seq::<char>::empty());
        } else {
            open.push(x);
        }
        i += 1;
        assert(texts(r@).push(open@) =~= pieces(v@.take(i as int), c));
    }
    let ghost done = texts(r@);
    let ghost last = open@;
    r.push(open);
    assert(texts(r@) =~= done.push(last));
    assert(v@.take(i as int) =~= v@);
    r
}

/// The words of `s` that white space ended, and the one that goes on at its end.
pub open spec fn words_and_rest(s: Seq<char>) -> (Seq<Seq<char>>, Seq<char>)
    decreases s.len(),
{
    if s.len() == 0 {
        (Seq::empty(), Seq::empty())
    } else {
        let (done, rest) = words_and_rest(s.drop_last());
        if !is_space(s.last()) {
            (done, rest.push(s.last()))
        } else if rest.len() > 0 {
            (done.push(rest), Seq::empty())
        } else {
            (done, rest)
        }
    }
}

/// The words of `s`: the longest pieces without white space.
pub open spec fn words(s: Seq<char>) -> Seq<Seq<char>> {
    let (done, rest) = words_and_rest(s);
    if rest.len() > 0 {
        done.push(rest)
    } else {
        done
    }
}

pub fn split_whitespace(v: &Vec<char>) -> (r: Vec<Vec<char>>)
    ensures
        texts(r@) == words(v@),
{
    let mut r: Vec<Vec<char>> = Vec::new();
    let mut open: Vec<char> = Vec::new();
    let mut i: usize = 0;
    assert(v@.take(0) =~= Seq::<char>::empty());
    assert(texts(r@) =~= Seq::<Seq<char>>::empty());
    assert(open@ =~= Seq::<char>::empty());
    while i < v.len()
        invariant
            i <= v@.len(),
            (texts(r@), open@) == words_and_rest(v@.take(i as int)),
        decreases v.len() - i,
    {
        let x: char = v[i];
        let ghost done = texts(r@);
        proof {
            assert(v@.take(i + 1).drop_last() =~= v@.take(i as int));
            assert(v@.take(i + 1).last() == x);
        }
        if !is_whitespace(x) {
            open.push(x);
        } else if open.len() > 0 {
            let ghost closed = open@;
            let mut next: Vec<char> = Vec::new();
            std::mem::swap(&mut next, &mut open);
            r.push(next);
            assert(texts(r@) =~= done.push(closed));
            assert(open@ =~= Seq::<char>::empty());
        }
        i += 1;
    }
    assert(v@.take(i as int) =~= v@);
    if open.len() > 0 {
        let ghost done = texts(r@);
        let ghost last = open@;
        r.push(open);
        assert(texts(r@) =~= done.push(last));
    }
    r
}

/// Whether a character is a decimal digit.
pub open spec fn is_digit(c: char) -> bool {
    '0' <= c <= '9'
}

pub open spec fn all_digits(s: Seq<char>) -> bool {
    forall|i: int| 0 <= i < s.len() ==> is_digit(#[trigger] s[i])
}

/// The number that decimal digits write.
pub open spec fn value(s: Seq<char>) -> int
    decreases s.len(),
{
    if s.len() == 0 {
        0
    } else {
        value(s.drop_last()) * 10 + (s.last() as int - '0' as int)
    }
}

/// The number that `s` writes: digits and nothing else, no more than `max`.
pub open spec fn magnitude(s: Seq<char>, max: int) -> Option<int> {
    if s.len() > 0 && all_digits(s) && value(s) <= max {
        Some(value(s))
    } else {
        None
    }
}

/// The unsigned number that `s` writes; a plus may stand before it.
pub open spec fn unsigned(s: Seq<char>, max: int) -> Option<int> {
    if s.len() > 0 && s[0] == '+' {
        magnitude(s.skip(1), max)
    } else {
        magnitude(s, max)
    }
}

/// The signed number that `s` writes.
pub open spec fn signed(s: Seq<char>, min: int, max: int) -> Option<int> {
    if s.len() > 0 && s[0] == '-' {
        match magnitude(s.skip(1), -min) {
            Some(n) => Some(-n),
            None => None,
        }
    } else {
        unsigned(s, max)
    }
}

proof fn lemma_value_grows(s: Seq<char>, i: int)
    requires
        all_digits(s),
        0 <= i <= s.len(),
    ensures
        0 <= value(s.take(i)) <= value(s),
    decreases s.len() - i,
{
    if i == s.len() {
        assert(s.take(i) =~= s);
        lemma_value_nat(s);
    } else {
        lemma_value_grows(s, i + 1);
        assert(s.take(i + 1).drop_last() =~= s.take(i));
        assert(is_digit(s[i]));
        assert(all_digits(s.take(i))) by {
            assert forall|j: int| 0 <= j < i implies is_digit(#[trigger] s.take(i)[j]) by {
                assert(is_digit(s[j]));
            }
        }
        lemma_value_nat(s.take(i));
    }
}

proof fn lemma_value_nat(s: Seq<char>)
    requires
        all_digits(s),
    ensures
        0 <= value(s),
    decreases s.len(),
{
    if s.len() > 0 {
        assert forall|j: int| 0 <= j < s.drop_last().len() implies is_digit(#[trigger] s.drop_last()[j]) by {
            assert(is_digit(s[j]));
        }
        lemma_value_nat(s.drop_last());
        assert(is_digit(s[s.len() - 1]));
    }
}

fn read_digits(v: &Vec<char>, from: usize, max: u64) -> (r: Option<u64>)
    requires
        from <= v@.len(),
    ensures
        match r {
            Some(n) => magnitude(v@.skip(from as int), max as int) == Some(n as int),
            None => magnitude(v@.skip(from as int), max as int) is None,
        },
{
    let ghost s = v@.skip(from as int);
    if from == v.len() {
        return None;
    }
    let mut n: u64 = 0;
    let mut i: usize = from;
    assert(s.take(0) =~= Seq::<char>::empty());
    while i < v.len()
        invariant
            from <= i <= v@.len(),
            s == v@.skip(from as int),
            forall|j: int| 0 <= j < i - from ==> is_digit(#[trigger] s[j]),
            n == value(s.take(i - from)),
            n <= max,
        decreases v.len() - i,
    {
        let c: char = v[i];
        assert(s[i - from] == c);
        if !(c >= '0' && c <= '9') {
            assert(!all_digits(s));
            return None;
        }
        let d: u64 = (c as u32 - '0' as u32) as u64;
        proof {
            assert(s.take(i + 1 - from).drop_last() =~= s.take(i - from));
            assert(s.take(i + 1 - from).last() == c);
        }
        if d > max || n > (max - d) / 10 {
            proof {
                if all_digits(s) {
                    lemma_value_grows(s, i + 1 - from);
                }
            }
            return None;
        }
        n = n * 10 + d;
        i += 1;
    }
    assert(s.take(i - from) =~= s);
    Some(n)
}

/// Read an unsigned number that is no more than `max`.
pub fn parse_unsigned(v: &Vec<char>, max: u64) -> (r: Option<u64>)
    ensures
        match r {
            Some(n) => unsigned(v@, max as int) == Some(n as int) && n <= max,
            None => unsigned(v@, max as int) is None,
        },
{
    assert(v@.skip(0) =~= v@);
    if v.len() > 0 && v[0] == '+' {
        read_digits(v, 1, max)
    } else {
        read_digits(v, 0, max)
    }
}

pub fn parse_i32(v: &Vec<char>) -> (r: Option<i32>)
    ensures
        match r {
            Some(n) => signed(v@, i32::MIN as int, i32::MAX as int) == Some(n as int),
            None => signed(v@, i32::MIN as int, i32::MAX as int) is None,
        },
{
    if v.len() > 0 && v[0] == '-' {
        match read_digits(v, 1, 0x8000_0000) {
            Some(n) => Some((0i64 - n as i64) as i32),
            None => None,
        }
    } else {
        match parse_unsigned(v, 0x7fff_ffff) {
            Some(n) => Some(n as i32),
            None => None,
        }
    }
}

/// A number below ten as a digit.
pub open spec fn digit(n: int) -> char {
    ('0' as int + n) as char
}

/// A number in decimal digits.
pub open spec fn decimal(n: nat) -> Seq<char>
    decreases n,
{
    if n < 10 {
        seq![digit(n as int)]
    } else {
        decimal(n / 10).push(digit((n % 10) as int))
    }
}

fn write_decimal(n: u64, out: &mut Vec<char>)
    ensures
        final(out)@ == old(out)@ + decimal(n as nat),
    decreases n,
{
    if n >= 10 {
        write_decimal(n / 10, out);
    }
    let d: u8 = 48 + (n % 10) as u8;
    out.push(d as char);
    assert(out@ =~= old(out)@ + decimal(n as nat));
}

/// Write a number in decimal digits.
pub fn to_decimal(n: u64) -> (r: String)
    ensures
        r@ == decimal(n as nat),
{
    let mut out: Vec<char> = Vec::new();
    write_decimal(n, &mut out);
    assert(out@ =~= decimal(n as nat));
    from_chars(&out)
}

proof fn lemma_decimal(n: nat)
    ensures
        decimal(n).len() > 0,
        all_digits(decimal(n)),
        value(decimal(n)) == n,
    decreases n,
{
    if n < 10 {
        let s = decimal(n);
        assert(s.drop_last() =~= Seq::<char>::empty());
        assert(value(s.drop_last()) == 0);
    } else {
        lemma_decimal(n / 10);
        let s = decimal(n);
        assert(s.drop_last() =~= decimal(n / 10));
        assert forall|i: int| 0 <= i < s.len() implies is_digit(#[trigger] s[i]) by {
            if i < s.len() - 1 {
                assert(is_digit(decimal(n / 10)[i]));
            }
        }
    }
}

/// A number that was written is read back.
pub proof fn a_written_number_is_read_back(n: u64)
    ensures
        unsigned(decimal(n as nat), u64::MAX as int) == Some(n as int),
{
    lemma_decimal(n as nat);
    assert(is_digit(decimal(n as nat)[0]));
}

/// Whether `w` is a word: not empty, and without white space.
pub open spec fn is_word(w: Seq<char>) -> bool {
    &&& w.len() > 0
    &&& forall|j: int| 0 <= j < w.len() ==> !is_space(#[trigger] w[j])
}

proof fn lemma_words(s: Seq<char>)
    ensures
        forall|i: int| 0 <= i < words_and_rest(s).0.len() ==> is_word(#[trigger] words_and_rest(s).0[i]),
        words_and_rest(s).1.len() > 0 ==> is_word(words_and_rest(s).1),
    decreases s.len(),
{
    if s.len() > 0 {
        lemma_words(s.drop_last());
        let (done, rest) = words_and_rest(s.drop_last());
        let now = words_and_rest(s);
        assert forall|i: int| 0 <= i < now.0.len() implies is_word(#[trigger] now.0[i]) by {
            if i < done.len() {
                assert(is_word(done[i]));
                assert(now.0[i] == done[i]);
            }
        }
    }
}

/// Every word of a text is a word.
pub proof fn words_are_words(s: Seq<char>, i: int)
    requires
        0 <= i < words(s).len(),
    ensures
        is_word(words(s)[i]),
{
    lemma_words(s);
    let (done, rest) = words_and_rest(s);
    if i < done.len() {
        assert(is_word(done[i]));
    }
}

proof fn lemma_find(s: Seq<char>, c: char, from: int, at: int)
    requires
        0 <= from <= at < s.len(),
        s[at] == c,
        forall|i: int| from <= i < at ==> s[i] != c,
    ensures
        find(s, c, from) == Some(at),
    decreases at - from,
{
    if from < at {
        assert(s[from] != c);
        lemma_find(s, c, from + 1, at);
    }
}

proof fn lemma_find_none(s: Seq<char>, c: char, from: int)
    requires
        0 <= from,
        forall|i: int| from <= i < s.len() ==> s[i] != c,
    ensures
        find(s, c, from) is None,
    decreases s.len() - from,
{
    if from < s.len() {
        assert(s[from] != c);
        lemma_find_none(s, c, from + 1);
    }
}

/// A text is split at the first `c`, which is in neither part: what stands before it does
/// not hold it. Without one, the first part is everything.
pub proof fn a_text_is_split_at_the_first(v: &Vec<char>, c: char, r: (Vec<char>, Vec<char>), before: Seq<char>, behind: Seq<char>)
    requires
        call_ensures(split_once_or_all, (v, c), r),
        !before.contains(c),
    ensures
        v@ == before.push(c) + behind ==> r.0@ == before && r.1@ == behind,
        v@ == before ==> r.0@ == before && r.1@.len() == 0,
{
    lemma_split(before, c, behind);
}

pub(crate) proof fn lemma_found(before: Seq<char>, c: char, behind: Seq<char>)
    requires
        !before.contains(c),
    ensures
        find(before.push(c) + behind, c, 0) == Some(before.len() as int),
{
    let s = before.push(c) + behind;
    assert forall|i: int| 0 <= i < before.len() implies s[i] != c by {
        assert(s[i] == before[i]);
        if before[i] == c {
            assert(before.contains(c));
        }
    }
    lemma_find(s, c, 0, before.len() as int);
}

pub(crate) proof fn lemma_split(before: Seq<char>, c: char, behind: Seq<char>)
    requires
        !before.contains(c),
    ensures
        split_first(before.push(c) + behind, c) == (before, behind),
        split_first(before, c) == (before, Seq::<char>::empty()),
{
    let s = before.push(c) + behind;
    assert forall|i: int| 0 <= i < before.len() implies before[i] != c by {
        if before[i] == c {
            assert(before.contains(c));
        }
    }
    assert forall|i: int| 0 <= i < before.len() implies s[i] != c by {
        assert(s[i] == before[i]);
    }
    lemma_find(s, c, 0, before.len() as int);
    assert(s.take(before.len() as int) =~= before);
    assert(s.skip(before.len() as int + 1) =~= behind);
    lemma_find_none(before, c, 0);
}

proof fn lemma_words_of_word(s: Seq<char>, w: Seq<char>)
    requires
        forall|j: int| 0 <= j < w.len() ==> !is_space(#[trigger] w[j]),
    ensures
        words_and_rest(s + w) == (words_and_rest(s).0, words_and_rest(s).1 + w),
    decreases w.len(),
{
    if w.len() == 0 {
        assert(s + w =~= s);
        assert(words_and_rest(s).1 + w =~= words_and_rest(s).1);
    } else {
        let init = w.drop_last();
        assert forall|j: int| 0 <= j < init.len() implies !is_space(#[trigger] init[j]) by {
            assert(init[j] == w[j]);
        }
        lemma_words_of_word(s, init);
        assert((s + w).drop_last() =~= s + init);
        assert((s + w).last() == w.last());
        assert(!is_space(w[w.len() - 1]));
        assert((words_and_rest(s).1 + init).push(w.last()) =~= words_and_rest(s).1 + w);
    }
}

/// The words of a text with one more word behind a blank are its words and that word.
pub proof fn one_more_word(s: Seq<char>, w: Seq<char>)
    requires
        is_word(w),
    ensures
        words(s.push(' ') + w) == words(s).push(w),
        words(w) == seq![w],
        words(s.push(' ')) == words(s),
        words(Seq::<char>::empty()).len() == 0,
{
    let t = s.push(' ');
    assert(t.drop_last() =~= s);
    lemma_words_of_word(t, w);
    assert(words_and_rest(t).1.len() == 0);
    assert(words_and_rest(t).1 + w =~= w);
    lemma_words_of_word(Seq::empty(), w);
    assert(Seq::<char>::empty() + w =~= w);
    assert(words(w) =~= seq![w]);
}

/// Splitting at white space gives the words between.
pub proof fn words_stand_between_blanks(v: &Vec<char>, r: Vec<Vec<char>>, a: Seq<char>, b: Seq<char>, c: Seq<char>)
    requires
        call_ensures(split_whitespace, (v,), r),
        is_word(a),
        is_word(b),
        is_word(c),
    ensures
        v@ == a ==> r@.len() == 1 && r@[0]@ == a,
        v@ == a.push(' ') + b ==> r@.len() == 2 && r@[0]@ == a && r@[1]@ == b,
        v@ == (a.push(' ') + b).push(' ') + c ==> r@.len() == 3 && r@[0]@ == a && r@[1]@ == b && r@[2]@ == c,
        v@.len() == 0 ==> r@.len() == 0,
{
    one_more_word(Seq::empty(), a);
    one_more_word(a, b);
    one_more_word(a.push(' ') + b, c);
    assert(v@.len() == 0 ==> v@ =~= Seq::<char>::empty());
    let t = texts(r@);
    assert(t.len() == r@.len());
    assert(forall|i: int| 0 <= i < t.len() ==> #[trigger] t[i] == r@[i]@);
    if v@ == a {
        assert(t[0] == r@[0]@);
    }
    if v@ == a.push(' ') + b {
        assert(t[0] == r@[0]@ && t[1] == r@[1]@);
    }
    if v@ == (a.push(' ') + b).push(' ') + c {
        assert(t[0] == r@[0]@ && t[1] == r@[1]@ && t[2] == r@[2]@);
    }
}

proof fn lemma_trimmed_start(s: Seq<char>)
    ensures
        ({
            let t = trimmed_start(s);
            &&& t.len() <= s.len()
            &&& t == s.skip(s.len() - t.len())
            &&& t.len() > 0 ==> !is_space(t[0])
            &&& forall|i: int| 0 <= i < s.len() - t.len() ==> is_space(#[trigger] s[i])
        }),
    decreases s.len(),
{
    if s.len() > 0 && is_space(s[0]) {
        let u = s.skip(1);
        lemma_trimmed_start(u);
        let t = trimmed_start(u);
        assert(t =~= s.skip(s.len() - t.len()));
        assert forall|i: int| 0 <= i < s.len() - t.len() implies is_space(#[trigger] s[i]) by {
            if i > 0 {
                assert(u[i - 1] == s[i]);
            }
        }
    } else {
        assert(s.skip(0) =~= s);
    }
}

proof fn lemma_trimmed_end(s: Seq<char>)
    ensures
        ({
            let t = trimmed_end(s);
            &&& t.len() <= s.len()
            &&& t == s.take(t.len() as int)
            &&& t.len() > 0 ==> !is_space(t.last())
            &&& forall|i: int| t.len() <= i < s.len() ==> is_space(#[trigger] s[i])
        }),
    decreases s.len(),
{
    if s.len() > 0 && is_space(s.last()) {
        let u = s.drop_last();
        lemma_trimmed_end(u);
        let t = trimmed_end(u);
        assert(t =~= s.take(t.len() as int));
        assert forall|i: int| t.len() <= i < s.len() implies is_space(#[trigger] s[i]) by {
            if i < u.len() {
                assert(u[i] == s[i]);
            }
        }
    } else {
        assert(s.take(s.len() as int) =~= s);
    }
}

/// Trimming takes away white space at both ends, all of it, and nothing else.
pub proof fn only_blanks_are_trimmed(v: &Vec<char>, r: Vec<char>)
    requires
        call_ensures(trim, (v,), r),
    ensures
        r@.len() > 0 ==> !is_space(r@[0]) && !is_space(r@.last()),
        exists|from: int|
            #![trigger v@.subrange(from, from + r@.len())]
            0 <= from <= from + r@.len() <= v@.len() && r@ == v@.subrange(from, from + r@.len()) && (forall|i: int|
                0 <= i < from || from + r@.len() <= i < v@.len() ==> is_space(#[trigger] v@[i])),
{
    let s = v@;
    let t = trimmed_start(s);
    let e = trimmed_end(t);
    lemma_trimmed_start(s);
    lemma_trimmed_end(t);
    let from = s.len() - t.len();
    assert(e =~= s.subrange(from, from + e.len()));
    assert forall|i: int| 0 <= i < from || from + e.len() <= i < s.len() implies is_space(#[trigger] s[i]) by {
        if i >= from {
            assert(t[i - from] == s[i]);
        }
    }
    if e.len() > 0 {
        assert(e[0] == t[0]);
    }
}

/// A blank, a tab and the ends of lines are white space; letters, digits and signs are not.
pub proof fn blanks_and_letters(c: char, r: bool)
    requires
        call_ensures(is_whitespace, (c,), r),
    ensures
        c == ' ' || c == '\t' || c == '\n' || c == '\r' ==> r,
        '!' <= c <= '~' ==> !r,
{
}

proof fn lemma_pieces_whole(s: Seq<char>, c: char)
    requires
        !s.contains(c),
    ensures
        pieces(s, c) == seq![s],
    decreases s.len(),
{
    if s.len() > 0 {
        let init = s.drop_last();
        assert(s =~= init.push(s.last()));
        crate::aoi::lemma_push_contains(init, s.last(), c);
        lemma_pieces_whole(init, c);
        assert(pieces(s, c) =~= seq![s]);
    } else {
        assert(s =~= Seq::<char>::empty());
    }
}

proof fn lemma_pieces_more(s: Seq<char>, c: char, w: Seq<char>)
    requires
        !w.contains(c),
    ensures
        pieces(s.push(c) + w, c) == pieces(s, c).push(w),
    decreases w.len(),
{
    if w.len() == 0 {
        assert(s.push(c) + w =~= s.push(c));
        assert(s.push(c).drop_last() =~= s);
        assert(w =~= Seq::<char>::empty());
    } else {
        let init = w.drop_last();
        assert(w =~= init.push(w.last()));
        crate::aoi::lemma_push_contains(init, w.last(), c);
        lemma_pieces_more(s, c, init);
        let t = s.push(c) + w;
        assert(t.drop_last() =~= s.push(c) + init);
        assert(pieces(t, c) =~= pieces(s, c).push(w));
    }
}

/// A text without `c` is one piece; with a `c` and a text without one behind it, it has that
/// text as one more piece.
pub proof fn pieces_stand_between(v: &Vec<char>, c: char, r: Vec<Vec<char>>, s: Seq<char>, w: Seq<char>)
    requires
        call_ensures(split, (v, c), r),
        !w.contains(c),
    ensures
        v@ == w ==> r@.len() == 1 && r@[0]@ == w,
        v@ == s.push(c) + w ==> r@.len() == pieces(s, c).len() + 1 && r@.last()@ == w && forall|i: int|
            0 <= i < pieces(s, c).len() ==> (#[trigger] r@[i])@ == pieces(s, c)[i],
{
    lemma_pieces_whole(w, c);
    lemma_pieces_more(s, c, w);
    let t = texts(r@);
    assert(t.len() == r@.len());
    assert forall|i: int| 0 <= i < r@.len() implies (#[trigger] r@[i])@ == t[i] by {}
    if v@ == w {
        assert(t[0] == r@[0]@);
    }
    if v@ == s.push(c) + w {
        assert(t[t.len() - 1] == r@[r@.len() - 1]@);
    }
}

/// Digits are read from the left: one more digit makes ten times the number, and that digit
/// more. What holds anything but digits is no number, and neither is what is too large.
pub proof fn numbers_are_read_in_tens(v: &Vec<char>, max: u64, r: Option<u64>, s: Seq<char>, d: char)
    requires
        call_ensures(parse_unsigned, (v, max), r),
    ensures
        v@.len() == 0 ==> r is None,
        v@ == seq![d] && '0' <= d <= '9' && max >= 9 ==> r == Some((d as int - '0' as int) as u64),
        v@ == s.push(d) && s.len() > 0 && s[0] != '+' && all_digits(s) && '0' <= d <= '9' && value(s) * 10 + (d as int
            - '0' as int) <= max ==> r == Some((value(s) * 10 + (d as int - '0' as int)) as u64),
        v@ == s.push(d) && s.len() > 0 && !('0' <= d <= '9') ==> r is None,
        r is Some ==> r->0 <= max,
{
    if v@ == seq![d] {
        assert(v@.drop_last() =~= Seq::<char>::empty());
        assert(value(v@.drop_last()) == 0);
        if '0' <= d <= '9' {
            assert(all_digits(v@));
            assert(v@[0] == d);
        }
    }
    if v@ == s.push(d) && s.len() > 0 {
        assert(v@.drop_last() =~= s);
        assert(v@.last() == d);
        assert(v@[0] == s[0]);
        if !('0' <= d <= '9') {
            assert(!is_digit(v@[v@.len() - 1]));
            assert(!all_digits(v@));
            if v@[0] == '+' {
                let t = v@.skip(1);
                assert(t[t.len() - 1] == d);
                assert(!is_digit(t[t.len() - 1]));
            }
        } else if all_digits(s) {
            assert forall|i: int| 0 <= i < v@.len() implies is_digit(#[trigger] v@[i]) by {
                if i < s.len() {
                    assert(s[i] == v@[i]);
                }
            }
        }
    }
}

/// A minus makes a number negative, and a plus makes no difference.
pub proof fn signs_are_read(v: &Vec<char>, r: Option<i32>, s: Seq<char>)
    requires
        call_ensures(parse_i32, (v,), r),
        s.len() > 0,
        all_digits(s),
    ensures
        v@ == s && value(s) <= i32::MAX ==> r == Some(value(s) as i32),
        v@ == seq!['+'] + s && value(s) <= i32::MAX ==> r == Some(value(s) as i32),
        v@ == seq!['-'] + s && value(s) <= 0x8000_0000 ==> r == Some((-value(s)) as i32),
        v@ == s && value(s) > i32::MAX ==> r is None,
{
    assert(is_digit(s[0]));
    assert((seq!['+'] + s).skip(1) =~= s);
    assert((seq!['-'] + s).skip(1) =~= s);
}

/// A number is written in digits that write it.
pub proof fn a_number_is_written_as_it_is(n: u64, r: String)
    requires
        call_ensures(to_decimal, (n,), r),
    ensures
        r@.len() > 0,
        all_digits(r@),
        value(r@) == n,
        n < 10 ==> r@.len() == 1,
{
    a_written_number_is_read_back(n);
    lemma_decimal_digits(n as nat);
}

proof fn lemma_decimal_digits(n: nat)
    ensures
        all_digits(decimal(n)),
        value(decimal(n)) == n,
        decimal(n).len() > 0,
    decreases n,
{
    if n < 10 {
        assert(decimal(n).drop_last() =~= Seq::<char>::empty());
        assert(value(decimal(n).drop_last()) == 0);
    } else {
        lemma_decimal_digits(n / 10);
        assert(decimal(n).drop_last() =~= decimal(n / 10));
    }
}

/// Texts that are joined stand one behind the other.
pub proof fn joined_texts_keep_their_order(a: &str, b: &str, c: &str, d: &str, e: &str, r: String, s: String)
    requires
        call_ensures(join3, (a, b, c), r),
        call_ensures(join5, (a, b, c, d, e), s),
    ensures
        r@ == a@ + b@ + c@,
        s@ == r@ + d@ + e@,
{
}

} // verus!
