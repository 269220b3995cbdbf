//! The command language of the key-value server: one command per message,
//! made of whitespace-separated words, the first of which (in any case)
//! names the command.
use vstd::prelude::*;
use crate::text::{
    chars_of, is_white_space, is_word, join_with_space, lemma_join_len, lemma_join_words, lemma_words_are_words,
    scan_words, spells, split_words, string_of, total_len, words,
};

verus! {

/// A command of the key-value server.
pub enum Command {
    /// `SET key value...`: the value is every word after the key, joined by one space.
    SetValue(String, String),
    /// `GET key`
    Get(String),
    /// `DEL key`
    Del(String),
    /// `COMPACT`
    Compact,
    /// `PING`
    Ping,
    /// Anything else.
    Unknown,
}

/// A command, with its strings taken as character sequences.
pub ghost enum CommandView {
    SetValue(Seq<char>, Seq<char>),
    Get(Seq<char>),
    Del(Seq<char>),
    Compact,
    Ping,
    Unknown,
}

impl View for Command {
    type V = CommandView;

    open spec fn view(&self) -> CommandView {
        match self {
            Command::SetValue(k, v) => CommandView::SetValue(k@, v@),
            Command::Get(k) => CommandView::Get(k@),
            Command::Del(k) => CommandView::Del(k@),
            Command::Compact => CommandView::Compact,
            Command::Ping => CommandView::Ping,
            Command::Unknown => CommandView::Unknown,
        }
    }
}

/// What `str::to_uppercase` gives for a string (Unicode case mapping).
pub uninterp spec fn uppercase(s: Seq<char>) -> Seq<char>;

/// `str::to_uppercase`: the Unicode uppercase of `s`.
#[verifier::external_body]
fn to_uppercase(s: &str) -> (r: String)
    ensures
        r@ == uppercase(s@),
{
    s.to_uppercase()
}

/// The command that the words `parts` make, given `verb`, the uppercase of
/// the first word.
pub open spec fn command_of(parts: Seq<Seq<char>>, verb: Seq<char>) -> CommandView {
    if verb == seq!['S', 'E', 'T'] && parts.len() >= 3 {
        CommandView::SetValue(parts[1], join_with_space(parts.subrange(2, parts.len() as int)))
    } else if verb == seq!['G', 'E', 'T'] && parts.len() == 2 {
        CommandView::Get(parts[1])
    } else if verb == seq!['D', 'E', 'L'] && parts.len() == 2 {
        CommandView::Del(parts[1])
    } else if verb == seq!['P', 'I', 'N', 'G'] {
        CommandView::Ping
    } else if verb == seq!['C', 'O', 'M', 'P', 'A', 'C', 'T'] {
        CommandView::Compact
    } else {
        CommandView::Unknown
    }
}

/// The command that a message means: `Unknown` for a message without a word.
pub open spec fn parse_spec(input: Seq<char>) -> CommandView {
    if words(input).len() == 0 {
        CommandView::Unknown
    } else {
        command_of(words(input), uppercase(words(input)[0]))
    }
}

/// The words `parts[from..]` joined by single spaces.
fn join_from(parts: &Vec<String>, from: usize) -> (s: String)
    requires
        from <= parts.len(),
    ensures
        s@ == join_with_space(parts@.map_values(|p: String| p@).subrange(from as int, parts.len() as int)),
{
    let ghost ws = parts@.map_values(|p: String| p@);
    let mut out: Vec<char> = Vec::new();
    let mut i: usize = from;
    while i < parts.len()
        invariant
            from <= i <= parts.len(),
            ws == parts@.map_values(|p: String| p@),
            out@ == join_with_space(ws.subrange(from as int, i as int)),
        decreases parts.len() - i,
    {
        let w = chars_of(parts[i].as_str());
        proof {
            let prev = ws.subrange(from as int, i as int);
            let next = ws.subrange(from as int, i + 1);
            assert(next.drop_last() =~= prev);
            assert(next.last() == w@);
        }
        if i > from {
            out.push(' ');
        }
        let mut j: usize = 0;
        let ghost base = out@;
        while j < w.len()
            invariant
                j <= w.len(),
                out@ == base + w@.take(j as int),
            decreases w.len() - j,
        {
            out.push(w[j]);
            j = j + 1;
            proof {
                assert(w@.take(j as int) =~= w@.take(j - 1).push(w@[j - 1]));
            }
        }
        proof {
            assert(w@.take(w.len() as int) =~= w@);
            if i == from {
                assert(base =~= Seq::<char>::empty());
                assert(out@ =~= w@);
            }
        }
        i = i + 1;
    }
    string_of(out.as_slice())
}

/// The command that the words `parts` make, where `verb` is the uppercase of
/// the first word.
pub fn command_from_words(parts: &Vec<String>, verb: &str) -> (c: Command)
    ensures
        c@ == command_of(parts@.map_values(|p: String| p@), verb@),
{
    let ghost ws = parts@.map_values(|p: String| p@);
    let v = chars_of(verb);
    let n = parts.len();
    if spells(&v, &['S', 'E', 'T']) && n >= 3 {
        let value = join_from(parts, 2);
        Command::SetValue(parts[1].clone(), value)
    } else if spells(&v, &['G', 'E', 'T']) && n == 2 {
        Command::Get(parts[1].clone())
    } else if spells(&v, &['D', 'E', 'L']) && n == 2 {
        Command::Del(parts[1].clone())
    } else if spells(&v, &['P', 'I', 'N', 'G']) {
        Command::Ping
    } else if spells(&v, &['C', 'O', 'M', 'P', 'A', 'C', 'T']) {
        Command::Compact
    } else {
        Command::Unknown
    }
}

/// Whether `input` holds at least one word.
pub fn has_word(input: &str) -> (b: bool)
    ensures
        b == (words(input@).len() > 0),
{
    let parts = split_words(input);
    parts.len() > 0
}

/// Reads one command from a message: the first word, in any case, names the
/// command; `SET` needs a key and a value, `GET` and `DEL` exactly a key. A
/// message without any word is `Unknown`.
pub fn parse(input: &str) -> (c: Command)
    ensures
        c@ == parse_spec(input@),
{
    let parts = split_words(input);
    if parts.len() == 0 {
        return Command::Unknown;
    }
    let verb = to_uppercase(parts[0].as_str());
    let c = command_from_words(&parts, verb.as_str());
    proof {
        assert(parts@.map_values(|p: String| p@) =~= words(input@));
    }
    c
}

/// Whitespace before the first word does not change how a text is scanned.
proof fn lemma_scan_ignores_leading_ws(pre: Seq<char>, s: Seq<char>)
    requires
        forall|i: int| 0 <= i < pre.len() ==> is_white_space(#[trigger] pre[i]),
    ensures
        scan_words(pre + s) == scan_words(s),
    decreases s.len(),
{
    if s.len() == 0 {
        lemma_scan_blank(pre);
        assert(pre + s =~= pre);
    } else {
        lemma_scan_ignores_leading_ws(pre, s.drop_last());
        assert((pre + s).drop_last() =~= pre + s.drop_last());
        assert((pre + s).last() == s.last());
    }
}

/// Scanning whitespace alone finds nothing.
proof fn lemma_scan_blank(pre: Seq<char>)
    requires
        forall|i: int| 0 <= i < pre.len() ==> is_white_space(#[trigger] pre[i]),
    ensures
        scan_words(pre) == (Seq::<Seq<char>>::empty(), Seq::<char>::empty()),
    decreases pre.len(),
{
    if pre.len() > 0 {
        let front = pre.drop_last();
        assert forall|i: int| 0 <= i < front.len() implies is_white_space(#[trigger] front[i]) by {
            assert(front[i] == pre[i]);
        }
        lemma_scan_blank(front);
    }
}

/// Whitespace after the last word does not change the words of a text.
proof fn lemma_words_ignore_trailing_ws(s: Seq<char>, post: Seq<char>)
    requires
        forall|i: int| 0 <= i < post.len() ==> is_white_space(#[trigger] post[i]),
    ensures
        words(s + post) == words(s),
    decreases post.len(),
{
    if post.len() > 0 {
        let front = post.drop_last();
        assert forall|i: int| 0 <= i < front.len() implies is_white_space(#[trigger] front[i]) by {
            assert(front[i] == post[i]);
        }
        lemma_words_ignore_trailing_ws(s, front);
        assert((s + post).drop_last() =~= s + front);
        assert((s + post).last() == post.last());
        assert(is_white_space(post.last()));
    } else {
        assert(s + post =~= s);
    }
}

/// A message means the same command whatever whitespace surrounds it.
pub proof fn lemma_parse_ignores_outer_whitespace(pre: Seq<char>, s: Seq<char>, post: Seq<char>)
    requires
        forall|i: int| 0 <= i < pre.len() ==> is_white_space(#[trigger] pre[i]),
        forall|i: int| 0 <= i < post.len() ==> is_white_space(#[trigger] post[i]),
    ensures
        words(pre + s + post) == words(s),
        parse_spec(pre + s + post) == parse_spec(s),
{
    lemma_words_ignore_trailing_ws(pre + s, post);
    lemma_scan_ignores_leading_ws(pre, s);
}

/// A `SET` keeps its words: the key is the second word of the message, and
/// the value is the rest of the message's words, each separated from the next
/// by exactly one space, so that splitting the value at whitespace gives back
/// exactly those words and the value is as long as they are together plus
/// one space between each two.
pub proof fn lemma_set_value(input: Seq<char>)
    ensures
        parse_spec(input) matches CommandView::SetValue(k, v) ==> {
            let ws = words(input);
            let rest = ws.subrange(2, ws.len() as int);
            &&& ws.len() >= 3
            &&& k == ws[1]
            &&& words(v) == rest
            &&& v.len() == total_len(rest) + rest.len() - 1
        },
{
    let ws = words(input);
    if parse_spec(input) is SetValue {
        let rest = ws.subrange(2, ws.len() as int);
        lemma_words_are_words(input);
        assert forall|i: int| 0 <= i < rest.len() implies is_word(#[trigger] rest[i]) by {
            assert(rest[i] == ws[i + 2]);
        }
        lemma_join_words(rest);
        lemma_join_len(rest);
    }
}

} // verus!
