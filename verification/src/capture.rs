//! Messages that are kept as test cases for the message parser.
use crate::text;
use vstd::prelude::*;
use vstd::string::StringExecFns;

verus! {

/// Whether `needle` stands in `s` at `at`.
pub open spec fn stands_at(s: Seq<char>, needle: Seq<char>, at: int) -> bool {
    0 <= at <= s.len() - needle.len() && s.subrange(at, at + needle.len()) == needle
}

/// Whether `needle` stands anywhere in `s`.
pub open spec fn holds(s: Seq<char>, needle: Seq<char>) -> bool {
    exists|at: int| stands_at(s, needle, at)
}

fn stands(s: &Vec<char>, needle: &Vec<char>, at: usize) -> (r: bool)
    requires
        at + needle@.len() <= s@.len(),
    ensures
        r == stands_at(s@, needle@, at as int),
{
    let mut i: usize = 0;
    while i < needle.len()
        invariant
            i <= needle@.len(),
            at + needle@.len() <= s@.len(),
            forall|j: int| 0 <= j < i ==> s@[at + j] == #[trigger] needle@[j],
        decreases needle.len() - i,
    {
        assert(at + i < s.len());
        if s[at + i] != needle[i] {
            assert(s@.subrange(at as int, at + needle@.len())[i as int] != needle@[i as int]);
            return false;
        }
        i += 1;
    }
    assert(s@.subrange(at as int, at + needle@.len()) =~= needle@);
    true
}

/// Whether `needle` stands anywhere in `s`.
pub fn contains(s: &Vec<char>, needle: &Vec<char>) -> (r: bool)
    ensures
        r == holds(s@, needle@),
{
    if needle.len() > s.len() {
        return false;
    }
    let last: usize = s.len() - needle.len();
    let mut at: usize = 0;
    while at < last
        invariant
            at <= last,
            last == s@.len() - needle@.len(),
            forall|j: int| 0 <= j < at ==> !#[trigger] stands_at(s@, needle@, j),
        decreases last - at,
    {
        if stands(s, needle, at) {
            return true;
        }
        at += 1;
    }
    stands(s, needle, last)
}

/// What the definition of a message is found by: its name between blanks.
pub open spec fn search_name(name: Seq<char>) -> Seq<char> {
    " "@ + name + " "@
}

/// The first of `files`, given by what they hold, that holds the definition of the
/// message `name`.
pub open spec fn first_with(files: Seq<String>, name: Seq<char>, from: int) -> Option<int>
    decreases files.len() - from,
{
    if from < 0 || from >= files.len() {
        None
    } else if holds(files[from]@, search_name(name)) {
        Some(from)
    } else {
        first_with(files, name, from + 1)
    }
}

pub fn find_wowm_file(files: &Vec<String>, name: &str) -> (r: Option<usize>)
    ensures
        match r {
            Some(i) => first_with(files@, name@, 0) == Some(i as int),
            None => first_with(files@, name@, 0) is None,
        },
{
    let mut needle = " ".to_string();
    needle.append(name);
    needle.append(" ");
    let needle = text::chars_of(needle.as_str());
    let mut i: usize = 0;
    while i < files.len()
        invariant
            i <= files@.len(),
            needle@ == search_name(name@),
            first_with(files@, name@, 0) == first_with(files@, name@, i as int),
        decreases files.len() - i,
    {
        if contains(&text::chars_of(files[i].as_str()), &needle) {
            return Some(i);
        }
        i += 1;
    }
    None
}

/// A text that is to be put at the end of a file.
#[derive(Debug)]
pub struct Appended {
    pub path: String,
    pub text: String,
}

/// Where a test case goes: behind the definition of its message, or to a file of
/// its own where that is not found. It begins on a new line.
pub fn write_test_case_inner(contents: &str, found: Option<&str>) -> (r: Appended)
    ensures
        r.path@ == (match found {
            Some(p) => p@,
            None => "./tests.wowm"@,
        }),
        r.text@ == "\n"@ + contents@,
{
    let mut text = "\n".to_string();
    text.append(contents);
    let path = match found {
        Some(p) => p.to_string(),
        None => "./tests.wowm".to_string(),
    };
    Appended { path, text }
}

proof fn lemma_first(files: Seq<String>, name: Seq<char>, from: int, i: int)
    requires
        0 <= from,
    ensures
        match first_with(files, name, from) {
            Some(at) => from <= at < files.len() && holds(files[at]@, " "@ + name + " "@) && (from <= i < at
                ==> !holds(files[i]@, " "@ + name + " "@)),
            None => from <= i < files.len() ==> !holds(files[i]@, " "@ + name + " "@),
        },
    decreases files.len() - from,
{
    if from < files.len() && !holds(files[from]@, search_name(name)) {
        lemma_first(files, name, from + 1, i);
    }
}

/// A message is found in the first file that holds its name between blanks, and in none that
/// does not.
pub proof fn a_message_is_found_in_the_first_file(files: &Vec<String>, name: &str, r: Option<usize>, i: int)
    requires
        call_ensures(find_wowm_file, (files, name), r),
        0 <= i < files@.len(),
    ensures
        r is Some ==> r->0 < files@.len() && holds(files@[r->0 as int]@, " "@ + name@ + " "@),
        r is Some && i < r->0 ==> !holds(files@[i]@, " "@ + name@ + " "@),
        r is None ==> !holds(files@[i]@, " "@ + name@ + " "@),
{
    lemma_first(files@, name@, 0, i);
}

/// A text holds whatever stands in it.
pub proof fn a_text_holds_what_stands_in_it(s: &Vec<char>, needle: &Vec<char>, r: bool, a: Seq<char>, b: Seq<char>)
    requires
        call_ensures(contains, (s, needle), r),
    ensures
        s@ == a + needle@ + b ==> r,
        needle@.len() > s@.len() ==> !r,
{
    if s@ == a + needle@ + b {
        assert(s@.subrange(a.len() as int, a.len() as int + needle@.len()) =~= needle@);
        assert(stands_at(s@, needle@, a.len() as int));
    }
}

/// A test case goes behind the definition of its message, on a line of its own, or else into
/// the file for those without one.
pub proof fn a_test_case_finds_its_file(contents: &str, path: &str, r: Appended, s: Appended)
    requires
        call_ensures(write_test_case_inner, (contents, Some(path)), r),
        call_ensures(write_test_case_inner, (contents, None), s),
    ensures
        r.path@ == path@,
        s.path@ == "./tests.wowm"@,
        r.text@ == s.text@ && r.text@.len() == contents@.len() + 1 && r.text@.skip(1) == contents@ && r.text@[0] == '\n',
{
    reveal_strlit("\n");
    assert(r.text@.skip(1) =~= contents@);
}

} // verus!
