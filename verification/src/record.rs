//! The record format of the write-ahead log.
//!
//! A write of `value` under `key` is logged as one line: the key, a comma,
//! the value and a line feed. Inside the key and the value, a backslash, a
//! comma, a line feed and a carriage return are written as `\\`, `\,`, `\n`
//! and `\r`, so that a record holds exactly one unescaped comma and no line
//! break, whatever the key and the value hold. Reading a record splits it at
//! its first unescaped comma and undoes the escapes.
use vstd::prelude::*;
use crate::text::{chars_of, string_of};

verus! {

/// How a character of a key or a value is written in a record.
pub open spec fn escape_char(c: char) -> Seq<char> {
    if c == '\\' {
        seq!['\\', '\\']
    } else if c == ',' {
        seq!['\\', ',']
    } else if c == '\n' {
        seq!['\\', 'n']
    } else if c == '\r' {
        seq!['\\', 'r']
    } else {
        seq![c]
    }
}

/// How a key or a value is written in a record.
pub open spec fn escape(s: Seq<char>) -> Seq<char>
    decreases s.len(),
{
    if s.len() == 0 {
        Seq::empty()
    } else {
        escape(s.drop_last()) + escape_char(s.last())
    }
}

/// The log record of a write.
pub open spec fn log_record(key: Seq<char>, value: Seq<char>) -> Seq<char> {
    escape(key) + seq![','] + escape(value)
}

/// The log line of a write: its record and a line feed.
pub open spec fn log_line(key: Seq<char>, value: Seq<char>) -> Seq<char> {
    log_record(key, value).push('\n')
}

/// The character that an escape `\c` stands for.
pub open spec fn unescape(c: char) -> char {
    if c == 'n' {
        '\n'
    } else if c == 'r' {
        '\r'
    } else {
        c
    }
}

/// Where the reading of a record stands: the key read so far, the value read
/// so far, whether the separating comma has been passed, and whether the
/// previous character was an escaping backslash.
pub type ReadState = (Seq<char>, Seq<char>, bool, bool);

/// Reading a record starts with nothing read.
pub open spec fn read_start() -> ReadState {
    (Seq::empty(), Seq::empty(), false, false)
}

/// `st` with `c` added to the field being read.
pub open spec fn add_char(st: ReadState, c: char) -> ReadState {
    if st.2 {
        (st.0, st.1.push(c), st.2, false)
    } else {
        (st.0.push(c), st.1, st.2, false)
    }
}

/// Reads one character of a record.
pub open spec fn read_step(st: ReadState, c: char) -> ReadState {
    if st.3 {
        add_char(st, unescape(c))
    } else if c == '\\' {
        (st.0, st.1, st.2, true)
    } else if c == ',' && !st.2 {
        (st.0, st.1, true, false)
    } else {
        add_char(st, c)
    }
}

/// Reads the characters `s`, from `st`.
pub open spec fn read_all(st: ReadState, s: Seq<char>) -> ReadState
    decreases s.len(),
{
    if s.len() == 0 {
        st
    } else {
        read_step(read_all(st, s.drop_last()), s.last())
    }
}

/// A record read back as key and value; `None` when it holds no unescaped
/// comma. A backslash at the very end stands for nothing.
pub open spec fn split_record(s: Seq<char>) -> Option<(Seq<char>, Seq<char>)> {
    let st = read_all(read_start(), s);
    if st.2 {
        Some((st.0, st.1))
    } else {
        None
    }
}

/// `st` with the characters `s` added to the field being read.
pub open spec fn add_chars(st: ReadState, s: Seq<char>) -> ReadState {
    if st.2 {
        (st.0, st.1 + s, st.2, false)
    } else {
        (st.0 + s, st.1, st.2, false)
    }
}

/// Reading `a` then `b` is reading `a + b`.
proof fn lemma_read_append(st: ReadState, a: Seq<char>, b: Seq<char>)
    ensures
        read_all(st, a + b) == read_all(read_all(st, a), b),
    decreases b.len(),
{
    if b.len() == 0 {
        assert(a + b =~= a);
    } else {
        lemma_read_append(st, a, b.drop_last());
        assert((a + b).drop_last() =~= a + b.drop_last());
        assert((a + b).last() == b.last());
    }
}

/// Reading an escaped text adds the text itself to the field being read.
proof fn lemma_read_escape(st: ReadState, s: Seq<char>)
    requires
        !st.3,
    ensures
        read_all(st, escape(s)) == add_chars(st, s),
    decreases s.len(),
{
    if s.len() == 0 {
        assert(add_chars(st, s) =~= st);
        assert(st.0 + s =~= st.0);
        assert(st.1 + s =~= st.1);
    } else {
        let front = s.drop_last();
        let c = s.last();
        lemma_read_escape(st, front);
        lemma_read_append(st, escape(front), escape_char(c));
        let mid = add_chars(st, front);
        let e = escape_char(c);
        reveal_with_fuel(read_all, 3);
        if e.len() == 2 {
            assert(e.drop_last() =~= seq![e[0]]);
            assert(seq![e[0]].drop_last() =~= Seq::<char>::empty());
            assert(read_all(mid, e) == add_char(mid, c));
        } else {
            assert(e.drop_last() =~= Seq::<char>::empty());
            assert(read_all(mid, e) == add_char(mid, c));
        }
        assert(front.push(c) =~= s);
        assert(st.0 + front + seq![c] =~= st.0 + s);
        assert(st.1 + front + seq![c] =~= st.1 + s);
        assert((st.0 + front).push(c) =~= st.0 + s);
        assert((st.1 + front).push(c) =~= st.1 + s);
    }
}

/// An escaped text holds no line feed and no carriage return.
pub proof fn lemma_escape_has_no_line_break(s: Seq<char>)
    ensures
        forall|i: int| 0 <= i < escape(s).len() ==> escape(s)[i] != '\n' && escape(s)[i] != '\r',
    decreases s.len(),
{
    if s.len() > 0 {
        lemma_escape_has_no_line_break(s.drop_last());
        let a = escape(s.drop_last());
        let b = escape_char(s.last());
        assert forall|i: int| 0 <= i < escape(s).len() implies escape(s)[i] != '\n' && escape(s)[i]
            != '\r' by {
            if i >= a.len() {
                assert(escape(s)[i] == b[i - a.len()]);
            } else {
                assert(escape(s)[i] == a[i]);
            }
        }
    }
}

/// A log record reads back as the write it records, for every key and value.
pub proof fn lemma_record_roundtrip(key: Seq<char>, value: Seq<char>)
    ensures
        split_record(log_record(key, value)) == Some((key, value)),
{
    let st0 = read_start();
    lemma_read_append(st0, escape(key) + seq![','], escape(value));
    lemma_read_append(st0, escape(key), seq![',']);
    lemma_read_escape(st0, key);
    let st1 = add_chars(st0, key);
    assert(seq![','].drop_last() =~= Seq::<char>::empty());
    let st2 = read_all(st1, seq![',']);
    reveal_with_fuel(read_all, 2);
    assert(st2 == (st1.0, st1.1, true, false));
    lemma_read_escape(st2, value);
    assert(Seq::<char>::empty() + key =~= key);
    assert(Seq::<char>::empty() + value =~= value);
}

/// A log line is its record and one line feed, and the record holds no line
/// break: reading the log line by line gives the records back.
pub proof fn lemma_record_is_one_line(key: Seq<char>, value: Seq<char>)
    ensures
        log_line(key, value).drop_last() == log_record(key, value),
        log_line(key, value).last() == '\n',
        forall|i: int|
            0 <= i < log_record(key, value).len() ==> log_record(key, value)[i] != '\n'
                && log_record(key, value)[i] != '\r',
{
    lemma_escape_has_no_line_break(key);
    lemma_escape_has_no_line_break(value);
    let r = log_record(key, value);
    let ek = escape(key);
    assert forall|i: int| 0 <= i < r.len() implies r[i] != '\n' && r[i] != '\r' by {
        if i < ek.len() {
            assert(r[i] == ek[i]);
        } else if i > ek.len() {
            assert(r[i] == escape(value)[i - ek.len() - 1]);
        }
    }
    assert(log_line(key, value).drop_last() =~= r);
}

/// Appends the escaped form of `s` to `out`.
fn push_escaped(out: &mut Vec<char>, s: &Vec<char>)
    ensures
        final(out)@ == old(out)@ + escape(s@),
{
    let ghost start = out@;
    let mut i: usize = 0;
    while i < s.len()
        invariant
            i <= s.len(),
            out@ == start + escape(s@.take(i as int)),
        decreases s.len() - i,
    {
        let c = s[i];
        proof {
            assert(s@.take(i + 1).drop_last() =~= s@.take(i as int));
            assert(s@.take(i + 1).last() == c);
        }
        if c == '\\' {
            out.push('\\');
            out.push('\\');
        } else if c == ',' {
            out.push('\\');
            out.push(',');
        } else if c == '\n' {
            out.push('\\');
            out.push('n');
        } else if c == '\r' {
            out.push('\\');
            out.push('r');
        } else {
            out.push(c);
        }
        i = i + 1;
        proof {
            assert(out@ =~= start + escape(s@.take(i as int)));
        }
    }
    proof {
        assert(s@.take(s.len() as int) =~= s@);
    }
}

/// The log line of a write of `value` under `key`.
pub fn record_line(key: &str, value: &str) -> (line: String)
    ensures
        line@ == log_line(key@, value@),
{
    let k = chars_of(key);
    let v = chars_of(value);
    let mut out: Vec<char> = Vec::new();
    push_escaped(&mut out, &k);
    out.push(',');
    push_escaped(&mut out, &v);
    out.push('\n');
    proof {
        assert(out@ =~= log_line(key@, value@));
    }
    string_of(out.as_slice())
}

/// Reads a record back as key and value; `None` when it holds no unescaped comma.
pub fn read_record(record: &str) -> (r: Option<(String, String)>)
    ensures
        match r {
            Some((k, v)) => split_record(record@) == Some((k@, v@)),
            None => split_record(record@) is None,
        },
{
    let cs = chars_of(record);
    let mut key: Vec<char> = Vec::new();
    let mut value: Vec<char> = Vec::new();
    let mut in_value = false;
    let mut escaped = false;
    let mut i: usize = 0;
    while i < cs.len()
        invariant
            i <= cs.len(),
            cs@ == record@,
            (key@, value@, in_value, escaped) == read_all(read_start(), cs@.take(i as int)),
        decreases cs.len() - i,
    {
        let c = cs[i];
        proof {
            assert(cs@.take(i + 1).drop_last() =~= cs@.take(i as int));
            assert(cs@.take(i + 1).last() == c);
        }
        if escaped {
            let u = if c == 'n' {
                '\n'
            } else if c == 'r' {
                '\r'
            } else {
                c
            };
            if in_value {
                value.push(u);
            } else {
                key.push(u);
            }
            escaped = false;
        } else if c == '\\' {
            escaped = true;
        } else if c == ',' && !in_value {
            in_value = true;
        } else {
            if in_value {
                value.push(c);
            } else {
                key.push(c);
            }
        }
        i = i + 1;
    }
    proof {
        assert(cs@.take(cs.len() as int) =~= cs@);
    }
    if in_value {
        Some((string_of(key.as_slice()), string_of(value.as_slice())))
    } else {
        None
    }
}

} // verus!
