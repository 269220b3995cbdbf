//! The lexer of the rule language:
//!
//! ```text
//! RULE "High Precision Guard" {
//!     WHEN precision < 0.85;
//!     ACTION TRIGGER_FLASH;
//! }
//! ```
//!
//! Blanks (space, tab, line feed, form feed) separate tokens. At each position
//! the longest token that starts there is taken; a keyword wins over an
//! identifier of the same text. A character that starts no token is one error
//! token of its own.
use vstd::prelude::*;
use crate::text::{chars_of, spells, string_of, sub_chars};

verus! {

/// A token of the rule language.
#[derive(Debug, Clone, Copy, PartialEq, Eq, Structural)]
pub enum CelerToken {
    /// `RULE`
    Rule,
    /// `WINDOW`
    Window,
    /// `WHEN`
    When,
    /// `ACTION`
    Action,
    /// `LOG`
    Log,
    /// `{`
    BraceOpen,
    /// `}`
    BraceClose,
    /// `;`
    Semicolon,
    /// A double quote, any characters but a double quote, a double quote.
    StringLiteral,
    /// A letter or `_`, then letters, digits and `_`.
    Identifier,
    /// Digits, optionally a `.` and more digits.
    Number,
    /// `<`, `>`, `==`, `!=`, `<=` or `>=`.
    Operator,
}

/// A blank that separates tokens.
pub open spec fn is_blank(c: char) -> bool {
    c == ' ' || c == '\t' || c == '\n' || c == '\u{c}'
}

pub open spec fn is_ident_start(c: char) -> bool {
    ('a' <= c && c <= 'z') || ('A' <= c && c <= 'Z') || c == '_'
}

pub open spec fn is_digit(c: char) -> bool {
    '0' <= c && c <= '9'
}

pub open spec fn is_ident_char(c: char) -> bool {
    is_ident_start(c) || is_digit(c)
}

pub open spec fn is_not_quote(c: char) -> bool {
    c != '"'
}

/// The character classes that runs are made of.
#[derive(Clone, Copy)]
pub enum CharClass {
    Blank,
    IdentChar,
    Digit,
    NotQuote,
}

/// Whether `c` belongs to `class`.
pub open spec fn in_class(class: CharClass, c: char) -> bool {
    match class {
        CharClass::Blank => is_blank(c),
        CharClass::IdentChar => is_ident_char(c),
        CharClass::Digit => is_digit(c),
        CharClass::NotQuote => is_not_quote(c),
    }
}

/// How many characters from `p` on belong to `class`.
pub open spec fn run_len(s: Seq<char>, p: int, class: CharClass) -> nat
    decreases s.len() - p,
{
    if 0 <= p < s.len() && in_class(class, s[p]) {
        1 + run_len(s, p + 1, class)
    } else {
        0
    }
}

/// The length of the number that starts at `p` (which is a digit).
pub open spec fn number_len(s: Seq<char>, p: int) -> nat {
    let d = run_len(s, p, CharClass::Digit);
    let q = p + d;
    if q < s.len() && s[q] == '.' && q + 1 < s.len() && is_digit(s[q + 1]) {
        d + 1 + run_len(s, q + 1, CharClass::Digit)
    } else {
        d
    }
}

/// The keyword that `w` spells, or `Identifier`.
pub open spec fn word_token(w: Seq<char>) -> CelerToken {
    if w == seq!['R', 'U', 'L', 'E'] {
        CelerToken::Rule
    } else if w == seq!['W', 'I', 'N', 'D', 'O', 'W'] {
        CelerToken::Window
    } else if w == seq!['W', 'H', 'E', 'N'] {
        CelerToken::When
    } else if w == seq!['A', 'C', 'T', 'I', 'O', 'N'] {
        CelerToken::Action
    } else if w == seq!['L', 'O', 'G'] {
        CelerToken::Log
    } else {
        CelerToken::Identifier
    }
}

/// The longest token that starts at `p` (where a character stands), with its
/// length; `None` if no token starts there.
pub open spec fn token_at(s: Seq<char>, p: int) -> Option<(CelerToken, nat)> {
    let c = s[p];
    let next_is_eq = p + 1 < s.len() && s[p + 1] == '=';
    if is_ident_start(c) {
        let n = run_len(s, p, CharClass::IdentChar);
        Some((word_token(s.subrange(p, p + n)), n))
    } else if is_digit(c) {
        Some((CelerToken::Number, number_len(s, p)))
    } else if c == '"' {
        let r = run_len(s, p + 1, CharClass::NotQuote);
        if p + 1 + r < s.len() {
            Some((CelerToken::StringLiteral, r + 2))
        } else {
            None
        }
    } else if c == '{' {
        Some((CelerToken::BraceOpen, 1))
    } else if c == '}' {
        Some((CelerToken::BraceClose, 1))
    } else if c == ';' {
        Some((CelerToken::Semicolon, 1))
    } else if c == '<' || c == '>' {
        Some((CelerToken::Operator, if next_is_eq { 2nat } else { 1nat }))
    } else if (c == '=' || c == '!') && next_is_eq {
        Some((CelerToken::Operator, 2))
    } else {
        None
    }
}

/// The next step of the lexer from position `pos`: after the blanks, the token
/// (or the error) and its span; `None` at the end of the source.
pub open spec fn lex_step(s: Seq<char>, pos: int) -> Option<(Result<CelerToken, ()>, int, int)> {
    let start = pos + run_len(s, pos, CharClass::Blank);
    if start >= s.len() {
        None
    } else {
        match token_at(s, start) {
            Some((t, n)) => Some((Ok(t), start, start + n)),
            None => Some((Err(()), start, start + 1)),
        }
    }
}

/// A lexer over one source text.
pub struct CelerLexer {
    chars: Vec<char>,
    pos: usize,
    start: usize,
    end: usize,
}

impl CelerToken {
    /// A lexer at the start of `source`.
    pub fn lexer(source: &str) -> (l: CelerLexer)
        ensures
            l.wf(),
            l.source() == source@,
            l.pos() == 0,
    {
        CelerLexer { chars: chars_of(source), pos: 0, start: 0, end: 0 }
    }
}

/// Counts the characters from `p` on that belong to `class`.
fn run(s: &Vec<char>, p: usize, class: CharClass) -> (n: usize)
    requires
        p <= s.len(),
    ensures
        p + n <= s.len(),
        n == run_len(s@, p as int, class),
{
    let mut i: usize = p;
    while i < s.len()
        invariant
            p <= i <= s.len(),
            run_len(s@, p as int, class) == (i - p) + run_len(s@, i as int, class),
        ensures
            p <= i <= s.len(),
            run_len(s@, p as int, class) == (i - p) + run_len(s@, i as int, class),
            i < s.len() ==> !in_class(class, s@[i as int]),
        decreases s.len() - i,
    {
        let c = s[i];
        let hit = match class {
            CharClass::Blank => c == ' ' || c == '\t' || c == '\n' || c == '\u{c}',
            CharClass::IdentChar => ('a' <= c && c <= 'z') || ('A' <= c && c <= 'Z') || c == '_' || (
            '0' <= c && c <= '9'),
            CharClass::Digit => '0' <= c && c <= '9',
            CharClass::NotQuote => c != '"',
        };
        if !hit {
            break;
        }
        i = i + 1;
    }
    i - p
}

/// The keyword that the characters `w` spell, or `Identifier`.
fn word_kind(w: &Vec<char>) -> (t: CelerToken)
    ensures
        t == word_token(w@),
{
    if spells(w, &['R', 'U', 'L', 'E']) {
        CelerToken::Rule
    } else if spells(w, &['W', 'I', 'N', 'D', 'O', 'W']) {
        CelerToken::Window
    } else if spells(w, &['W', 'H', 'E', 'N']) {
        CelerToken::When
    } else if spells(w, &['A', 'C', 'T', 'I', 'O', 'N']) {
        CelerToken::Action
    } else if spells(w, &['L', 'O', 'G']) {
        CelerToken::Log
    } else {
        CelerToken::Identifier
    }
}

/// The longest token that starts at `p`, with its length.
fn scan_token(s: &Vec<char>, p: usize) -> (r: Option<(CelerToken, usize)>)
    requires
        p < s.len(),
    ensures
        match r {
            Some((t, n)) => token_at(s@, p as int) == Some((t, n as nat)) && p + n <= s.len(),
            None => token_at(s@, p as int) is None,
        },
{
    let c = s[p];
    let next_is_eq = p + 1 < s.len() && s[p + 1] == '=';
    if ('a' <= c && c <= 'z') || ('A' <= c && c <= 'Z') || c == '_' {
        let n = run(s, p, CharClass::IdentChar);
        let w = sub_chars(s, p, p + n);
        Some((word_kind(&w), n))
    } else if '0' <= c && c <= '9' {
        let d = run(s, p, CharClass::Digit);
        let q = p + d;
        if q < s.len() && s[q] == '.' && q + 1 < s.len() && '0' <= s[q + 1] && s[q + 1] <= '9' {
            let e = run(s, q + 1, CharClass::Digit);
            Some((CelerToken::Number, d + 1 + e))
        } else {
            Some((CelerToken::Number, d))
        }
    } else if c == '"' {
        let r = run(s, p + 1, CharClass::NotQuote);
        if p + 1 + r < s.len() {
            Some((CelerToken::StringLiteral, r + 2))
        } else {
            None
        }
    } else if c == '{' {
        Some((CelerToken::BraceOpen, 1))
    } else if c == '}' {
        Some((CelerToken::BraceClose, 1))
    } else if c == ';' {
        Some((CelerToken::Semicolon, 1))
    } else if c == '<' || c == '>' {
        Some((CelerToken::Operator, if next_is_eq { 2 } else { 1 }))
    } else if (c == '=' || c == '!') && next_is_eq {
        Some((CelerToken::Operator, 2))
    } else {
        None
    }
}

impl CelerLexer {
    /// The position and the span of the last token lie within the source.
    pub closed spec fn wf(&self) -> bool {
        &&& self.start <= self.end <= self.chars.len()
        &&& self.pos <= self.chars.len()
    }

    /// The source text.
    pub closed spec fn source(&self) -> Seq<char> {
        self.chars@
    }

    /// Where the next step starts.
    pub closed spec fn pos(&self) -> int {
        self.pos as int
    }

    /// The span of the last token returned.
    pub closed spec fn span(&self) -> (int, int) {
        (self.start as int, self.end as int)
    }

    /// The next token, or the error for a character that starts none, or
    /// `None` at the end of the source.
    pub fn next(&mut self) -> (r: Option<Result<CelerToken, ()>>)
        requires
            old(self).wf(),
        ensures
            final(self).wf(),
            final(self).source() == old(self).source(),
            match lex_step(old(self).source(), old(self).pos()) {
                None => r is None && final(self).pos() == old(self).source().len(),
                Some((t, a, b)) => r == Some(t) && final(self).span() == (a, b) && final(self).pos() == b,
            },
    {
        let skip = run(&self.chars, self.pos, CharClass::Blank);
        let start = self.pos + skip;
        if start >= self.chars.len() {
            self.pos = self.chars.len();
            return None;
        }
        let (tok, end) = match scan_token(&self.chars, start) {
            Some((t, n)) => (Ok(t), start + n),
            None => (Err(()), start + 1),
        };
        self.start = start;
        self.end = end;
        self.pos = end;
        Some(tok)
    }

    /// The text of the last token returned.
    pub fn slice(&self) -> (s: String)
        requires
            self.wf(),
        ensures
            s@ == self.source().subrange(self.span().0, self.span().1),
    {
        let cs = sub_chars(&self.chars, self.start, self.end);
        string_of(cs.as_slice())
    }
}

/// Each keyword token is produced by its own spelling and by nothing else,
/// and a word that spells no keyword is an identifier.
pub proof fn lemma_keywords(w: Seq<char>)
    ensures
        word_token(w) == CelerToken::Rule <==> w == seq!['R', 'U', 'L', 'E'],
        word_token(w) == CelerToken::Window <==> w == seq!['W', 'I', 'N', 'D', 'O', 'W'],
        word_token(w) == CelerToken::When <==> w == seq!['W', 'H', 'E', 'N'],
        word_token(w) == CelerToken::Action <==> w == seq!['A', 'C', 'T', 'I', 'O', 'N'],
        word_token(w) == CelerToken::Log <==> w == seq!['L', 'O', 'G'],
        word_token(w) == CelerToken::Identifier <==> (w != seq!['R', 'U', 'L', 'E'] && w != seq![
            'W',
            'I',
            'N',
            'D',
            'O',
            'W',
        ] && w != seq!['W', 'H', 'E', 'N'] && w != seq!['A', 'C', 'T', 'I', 'O', 'N'] && w != seq![
            'L',
            'O',
            'G',
        ]),
{
}

/// A word of the source is lexed as a whole, and as its keyword when it
/// spells one: where an identifier starts, the token runs to the end of the
/// run of letters, digits and underscores, and its kind is `word_token` of
/// exactly that text.
pub proof fn lemma_word_at(s: Seq<char>, p: int)
    requires
        0 <= p < s.len(),
        is_ident_start(s[p]),
    ensures
        token_at(s, p) matches Some((t, n)) && n >= 1 && p + n <= s.len() && (forall|i: int|
            p <= i < p + n ==> is_ident_char(#[trigger] s[i])) && (p + n == s.len() || !is_ident_char(s[p + n]))
            && t == word_token(s.subrange(p, p + n as int)),
{
    lemma_run_len(s, p, CharClass::IdentChar);
}

/// A run of a class from `p` covers characters of the class only, and stops
/// at the end or at a character outside the class.
proof fn lemma_run_len(s: Seq<char>, p: int, class: CharClass)
    requires
        0 <= p <= s.len(),
    ensures
        p + run_len(s, p, class) <= s.len(),
        forall|i: int| p <= i < p + run_len(s, p, class) ==> in_class(class, #[trigger] s[i]),
        p + run_len(s, p, class) == s.len() || !in_class(class, s[p + run_len(s, p, class)]),
    decreases s.len() - p,
{
    if p < s.len() && in_class(class, s[p]) {
        lemma_run_len(s, p + 1, class);
    }
}

} // verus!
