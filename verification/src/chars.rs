//! Scanning characters: the classes and keywords that the statement parser
//! is built on.

use vstd::prelude::*;
use vstd::string::StrSliceExecFns;

verus! {

/// Space, tab, carriage return and line feed.
pub open spec fn is_space(c: char) -> bool {
    c == ' ' || c == '\t' || c == '\r' || c == '\n'
}

/// The letters and digits of ASCII.
pub open spec fn is_alphanumeric(c: char) -> bool {
    ('a' <= c && c <= 'z') || ('A' <= c && c <= 'Z') || ('0' <= c && c <= '9')
}

/// A class of characters.
#[derive(Debug, Clone, Copy, PartialEq, Eq, Structural)]
pub enum CharClass {
    Space,
    Alphanumeric,
}

/// Whether `c` belongs to `class`.
pub open spec fn in_class(c: char, class: CharClass) -> bool {
    match class {
        CharClass::Space => is_space(c),
        CharClass::Alphanumeric => is_alphanumeric(c),
    }
}

/// The number of characters at the start of `s` that belong to `class`, up
/// to the first that does not.
pub open spec fn run_len(s: Seq<char>, class: CharClass) -> nat
    decreases s.len(),
{
    if s.len() > 0 && in_class(s[0], class) {
        1 + run_len(s.drop_first(), class)
    } else {
        0
    }
}

/// The code of `c`, with the capital letters of ASCII brought to lower case.
pub open spec fn fold_case(c: char) -> u32 {
    if 'A' <= c && c <= 'Z' {
        (c as u32 + 32) as u32
    } else {
        c as u32
    }
}

/// Whether `s` starts with `keyword`, letters compared without regard to
/// their case in ASCII.
pub open spec fn starts_with_keyword(s: Seq<char>, keyword: Seq<char>) -> bool {
    &&& keyword.len() <= s.len()
    &&& forall|k: int| 0 <= k < keyword.len() ==> fold_case(s[k]) == fold_case(keyword[k])
}

/// A run is as long as its characters say: `n` characters of the class,
/// then the end or a character of another class.
pub proof fn lemma_run_len(s: Seq<char>, class: CharClass, n: nat)
    requires
        n <= s.len(),
        forall|k: int| 0 <= k < n ==> in_class(s[k], class),
        n < s.len() ==> !in_class(s[n as int], class),
    ensures
        run_len(s, class) == n,
    decreases n,
{
    if n > 0 {
        let t = s.drop_first();
        assert forall|k: int| 0 <= k < n - 1 implies in_class(t[k], class) by {
            assert(t[k] == s[k + 1]);
        }
        lemma_run_len(t, class, (n - 1) as nat);
    }
}

/// Where the run of `class` that starts at `pos` ends.
pub open spec fn run_end(s: Seq<char>, pos: int, class: CharClass) -> int {
    pos + run_len(s.skip(pos), class)
}

/// Whether `c` is a space, a tab, a carriage return or a line feed.
pub fn is_space_char(c: char) -> (r: bool)
    ensures
        r == is_space(c),
{
    c == ' ' || c == '\t' || c == '\r' || c == '\n'
}

/// Whether `c` is a letter or a digit of ASCII.
pub fn is_alphanumeric_char(c: char) -> (r: bool)
    ensures
        r == is_alphanumeric(c),
{
    ('a' <= c && c <= 'z') || ('A' <= c && c <= 'Z') || ('0' <= c && c <= '9')
}

/// Whether `c` belongs to `class`.
pub fn char_in_class(c: char, class: CharClass) -> (r: bool)
    ensures
        r == in_class(c, class),
{
    match class {
        CharClass::Space => is_space_char(c),
        CharClass::Alphanumeric => is_alphanumeric_char(c),
    }
}

/// Finds the end of the run of `class` that starts at `pos`.
pub fn scan_run(cs: &[char], pos: usize, class: CharClass) -> (end: usize)
    requires
        pos <= cs@.len(),
    ensures
        end == run_end(cs@, pos as int, class),
        pos <= end <= cs@.len(),
{
    let mut end = pos;
    while end < cs.len() && char_in_class(cs[end], class)
        invariant
            pos <= end <= cs@.len(),
            forall|k: int| pos <= k < end ==> in_class(cs@[k], class),
        decreases cs@.len() - end,
    {
        end += 1;
    }
    proof {
        let t = cs@.skip(pos as int);
        assert forall|k: int| 0 <= k < end - pos implies in_class(t[k], class) by {
            assert(t[k] == cs@[pos + k]);
        }
        if end < cs@.len() {
            assert(t[end - pos] == cs@[end as int]);
        }
        lemma_run_len(t, class, (end - pos) as nat);
    }
    end
}

/// The code of `c`, with the capital letters of ASCII brought to lower case.
pub fn fold_case_of(c: char) -> (r: u32)
    ensures
        r == fold_case(c),
{
    if 'A' <= c && c <= 'Z' {
        c as u32 + 32
    } else {
        c as u32
    }
}

/// Tells whether `keyword` stands at `pos`, letters compared without regard
/// to their case in ASCII, and returns the position after it.
pub fn match_keyword(cs: &[char], pos: usize, keyword: &str) -> (r: Option<usize>)
    requires
        pos <= cs@.len(),
    ensures
        r is Some <==> starts_with_keyword(cs@.skip(pos as int), keyword@),
        r matches Some(end) ==> end == pos + keyword@.len() && end <= cs@.len(),
{
    let n = keyword.unicode_len();
    if n > cs.len() - pos {
        return None;
    }
    let ghost tail = cs@.skip(pos as int);
    let mut k: usize = 0;
    while k < n
        invariant
            k <= n == keyword@.len(),
            pos + n <= cs@.len() <= usize::MAX,
            tail == cs@.skip(pos as int),
            forall|j: int| 0 <= j < k ==> fold_case(tail[j]) == fold_case(keyword@[j]),
        decreases n - k,
    {
        if fold_case_of(cs[pos + k]) != fold_case_of(keyword.get_char(k)) {
            assert(tail[k as int] == cs@[pos + k]);
            return None;
        }
        assert(tail[k as int] == cs@[pos + k]);
        k += 1;
    }
    Some(pos + n)
}

/// The characters of `s`, one by one.
pub fn chars_of(s: &str) -> (r: Vec<char>)
    ensures
        r@ == s@,
{
    let mut out: Vec<char> = Vec::new();
    for c in it: s.chars()
        invariant
            out@ == it.seq().take(it.index() as int),
            it.seq() == s@,
    {
        out.push(c);
    }
    out
}

} // verus!
