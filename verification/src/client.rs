//! What the interactive client of the key-value server does with a line typed
//! at its prompt.
use vstd::prelude::*;
use crate::text::{chars_of, char_is_whitespace, is_white_space, string_of, sub_chars};

verus! {

/// How many whitespace characters stand from `i` on.
pub open spec fn leading_ws(s: Seq<char>, i: int) -> nat
    decreases s.len() - i,
{
    if 0 <= i < s.len() && is_white_space(s[i]) {
        1 + leading_ws(s, i + 1)
    } else {
        0
    }
}

/// How many whitespace characters stand just before `j`.
pub open spec fn trailing_ws(s: Seq<char>, j: int) -> nat
    decreases j,
{
    if 0 < j <= s.len() && is_white_space(s[j - 1]) {
        1 + trailing_ws(s, j - 1)
    } else {
        0
    }
}

/// `s` without its leading and trailing whitespace (what `str::trim` gives).
pub open spec fn trim(s: Seq<char>) -> Seq<char> {
    let a = leading_ws(s, 0);
    if a >= s.len() {
        Seq::empty()
    } else {
        s.subrange(a as int, s.len() - trailing_ws(s, s.len() as int))
    }
}

/// `c` with an ASCII uppercase letter mapped to its lowercase letter.
pub open spec fn ascii_lower(c: char) -> char {
    if 'A' <= c && c <= 'Z' {
        (c as int + 32) as char
    } else {
        c
    }
}

/// `c` with an ASCII uppercase letter lowered (as `char::to_ascii_lowercase`).
fn to_ascii_lowercase(c: char) -> (r: char)
    ensures
        r == ascii_lower(c),
{
    match c {
        'A' => 'a',
        'B' => 'b',
        'C' => 'c',
        'D' => 'd',
        'E' => 'e',
        'F' => 'f',
        'G' => 'g',
        'H' => 'h',
        'I' => 'i',
        'J' => 'j',
        'K' => 'k',
        'L' => 'l',
        'M' => 'm',
        'N' => 'n',
        'O' => 'o',
        'P' => 'p',
        'Q' => 'q',
        'R' => 'r',
        'S' => 's',
        'T' => 't',
        'U' => 'u',
        'V' => 'v',
        'W' => 'w',
        'X' => 'x',
        'Y' => 'y',
        'Z' => 'z',
        _ => c,
    }
}

/// `s` and `w` are the same text, ignoring ASCII case (what
/// `str::eq_ignore_ascii_case` tests).
pub open spec fn spells_ignoring_ascii_case(s: Seq<char>, w: Seq<char>) -> bool {
    s.len() == w.len() && forall|i: int| 0 <= i < s.len() ==> ascii_lower(s[i]) == ascii_lower(w[i])
}

/// What the client does with a typed line.
pub enum ClientInput {
    /// Nothing was typed: prompt again.
    Skip,
    /// `exit` or `quit`, in any ASCII case: end the session.
    Quit,
    /// Send this message (the trimmed line and a line feed) to the server.
    Send(String),
}

/// What the client does with `line`: a blank line is skipped, `exit` and
/// `quit` end the session, anything else is sent trimmed, with a line feed.
pub fn classify_input(line: &str) -> (r: ClientInput)
    ensures
        trim(line@).len() == 0 ==> r is Skip,
        trim(line@).len() > 0 && (spells_ignoring_ascii_case(trim(line@), "exit"@)
            || spells_ignoring_ascii_case(trim(line@), "quit"@)) ==> r is Quit,
        trim(line@).len() > 0 && !spells_ignoring_ascii_case(trim(line@), "exit"@)
            && !spells_ignoring_ascii_case(trim(line@), "quit"@) ==> (r matches ClientInput::Send(m)
            && m@ == trim(line@).push('\n')),
{
    let cs = chars_of(line);
    let ghost s = cs@;
    let mut a: usize = 0;
    while a < cs.len()
        invariant
            a <= cs.len(),
            s == cs@,
            leading_ws(s, 0) == a + leading_ws(s, a as int),
        ensures
            a <= cs.len(),
            leading_ws(s, 0) == a + leading_ws(s, a as int),
            a < cs.len() ==> !is_white_space(s[a as int]),
        decreases cs.len() - a,
    {
        if !char_is_whitespace(cs[a]) {
            break;
        }
        a = a + 1;
    }
    if a == cs.len() {
        return ClientInput::Skip;
    }
    let mut b: usize = cs.len();
    while b > a
        invariant
            a < cs.len(),
            a < b <= cs.len(),
            !is_white_space(s[a as int]),
            s == cs@,
            trailing_ws(s, s.len() as int) == (s.len() - b) + trailing_ws(s, b as int),
        ensures
            a < b <= cs.len(),
            trailing_ws(s, s.len() as int) == (s.len() - b) + trailing_ws(s, b as int),
            !is_white_space(s[b - 1]),
        decreases b,
    {
        if !char_is_whitespace(cs[b - 1]) {
            break;
        }
        b = b - 1;
    }
    let t = sub_chars(&cs, a, b);
    proof {
        assert(trim(s) == t@);
    }
    if spells_lower(&t, &['e', 'x', 'i', 't']) || spells_lower(&t, &['q', 'u', 'i', 't']) {
        proof {
            reveal_strlit("exit");
            reveal_strlit("quit");
            assert(seq!['e', 'x', 'i', 't'] == "exit"@);
            assert(seq!['q', 'u', 'i', 't'] == "quit"@);
        }
        return ClientInput::Quit;
    }
    proof {
        reveal_strlit("exit");
        reveal_strlit("quit");
        assert(seq!['e', 'x', 'i', 't'] == "exit"@);
        assert(seq!['q', 'u', 'i', 't'] == "quit"@);
    }
    let mut msg = t;
    msg.push('\n');
    ClientInput::Send(string_of(msg.as_slice()))
}

/// Whether `s` and `w` are the same text, ignoring ASCII case.
fn spells_lower(s: &Vec<char>, w: &[char]) -> (b: bool)
    ensures
        b == spells_ignoring_ascii_case(s@, w@),
{
    if s.len() != w.len() {
        return false;
    }
    let mut i: usize = 0;
    while i < s.len()
        invariant
            s.len() == w.len(),
            i <= s.len(),
            forall|k: int| 0 <= k < i ==> ascii_lower(s@[k]) == ascii_lower(w@[k]),
        decreases s.len() - i,
    {
        if to_ascii_lowercase(s[i]) != to_ascii_lowercase(w[i]) {
            return false;
        }
        i = i + 1;
    }
    true
}

/// ASCII case folding lowers exactly the uppercase ASCII letters: each of
/// `'A'` to `'Z'` becomes the character 32 places later, which is a lowercase
/// ASCII letter, and every other character is left as it is.
pub proof fn lemma_ascii_lower(c: char)
    ensures
        ('A' <= c && c <= 'Z') ==> ascii_lower(c) as int == c as int + 32 && 'a' <= ascii_lower(c) && ascii_lower(c) <= 'z',
        !('A' <= c && c <= 'Z') ==> ascii_lower(c) == c,
{
}

/// A lowercase word is matched by every ASCII-case variant of it: `s`
/// spells `exit` (or `quit`) ignoring ASCII case exactly when it has four
/// characters, each the lowercase or the uppercase letter of the word.
pub proof fn lemma_exit_quit_any_case(s: Seq<char>)
    ensures
        spells_ignoring_ascii_case(s, "exit"@) <==> (s.len() == 4 && (s[0] == 'e' || s[0] == 'E') && (s[1] == 'x'
            || s[1] == 'X') && (s[2] == 'i' || s[2] == 'I') && (s[3] == 't' || s[3] == 'T')),
        spells_ignoring_ascii_case(s, "quit"@) <==> (s.len() == 4 && (s[0] == 'q' || s[0] == 'Q') && (s[1] == 'u'
            || s[1] == 'U') && (s[2] == 'i' || s[2] == 'I') && (s[3] == 't' || s[3] == 'T')),
{
    reveal_strlit("exit");
    reveal_strlit("quit");
    if s.len() == 4 {
        lemma_ascii_lower(s[0]);
        lemma_ascii_lower(s[1]);
        lemma_ascii_lower(s[2]);
        lemma_ascii_lower(s[3]);
    }
}

} // verus!
