//! What the key-value server does with one message of a client: the command
//! it reads, the change to the table, and what is to be written to the log
//! and answered. The connection, the log file and the lock stay with the caller,
//! which carries out the returned `Effect`.
use vstd::prelude::*;
use crate::engine::{Engine, TOMBSTONE, live, tombstone};
use crate::record::log_line;
use crate::parser::{Command, CommandView, parse, parse_spec};
use crate::text::{chars_of, concat_chars, words, string_of};

verus! {

/// What the caller does after a command has been applied to the table.
pub enum Effect {
    /// Send this answer.
    Reply(String),
    /// Append this line to the log; on success send the second string, on a
    /// write error send `ERR <error>` and a line feed.
    Append(String, String),
    /// Rewrite the log with the table's live keys and drop the tombstoned
    /// ones; on success send this answer, on an error send
    /// `ERR_COMPACT <error>` and a line feed.
    Compact(String),
}

/// An effect, with its strings taken as character sequences.
pub ghost enum EffectView {
    Reply(Seq<char>),
    Append(Seq<char>, Seq<char>),
    Compact(Seq<char>),
}

impl View for Effect {
    type V = EffectView;

    open spec fn view(&self) -> EffectView {
        match self {
            Effect::Reply(r) => EffectView::Reply(r@),
            Effect::Append(l, r) => EffectView::Append(l@, r@),
            Effect::Compact(r) => EffectView::Compact(r@),
        }
    }
}

/// The answer to `GET key`: the value and a line feed, or `NULL` and a line
/// feed when the key is absent or deleted.
pub open spec fn get_reply(t: Map<Seq<char>, Seq<char>>, k: Seq<char>) -> Seq<char> {
    if t.contains_key(k) && t[k] != tombstone() {
        t[k].push('\n')
    } else {
        "NULL\n"@
    }
}

/// The table after a command, and the effect the command asks for.
pub open spec fn execute_spec(t: Map<Seq<char>, Seq<char>>, c: CommandView) -> (
    Map<Seq<char>, Seq<char>>,
    EffectView,
) {
    match c {
        CommandView::SetValue(k, v) => (t.insert(k, v), EffectView::Append(log_line(k, v), "OK\n"@)),
        CommandView::Del(k) => (
            t.insert(k, tombstone()),
            EffectView::Append(log_line(k, tombstone()), "OK_DELETED\n"@),
        ),
        CommandView::Get(k) => (t, EffectView::Reply(get_reply(t, k))),
        CommandView::Compact => (t, EffectView::Compact("OK_COMPACTED\n"@)),
        CommandView::Ping => (t, EffectView::Reply("PONG\n"@)),
        CommandView::Unknown => (t, EffectView::Reply("ERR_UNKNOWN_COMMAND\n"@)),
    }
}

/// What `String::from_utf8_lossy` makes of some bytes (invalid sequences
/// become U+FFFD).
pub uninterp spec fn utf8_lossy(bytes: Seq<u8>) -> Seq<char>;

/// `String::from_utf8_lossy`: the text of `bytes`, invalid sequences replaced.
#[verifier::external_body]
fn decode_lossy(bytes: &[u8]) -> (s: String)
    ensures
        s@ == utf8_lossy(bytes@),
{
    String::from_utf8_lossy(bytes).into_owned()
}

/// The tombstone value as a string.
fn tombstone_string() -> (s: String)
    ensures
        s@ == tombstone(),
{
    proof {
        reveal_strlit("__TOMBSTONE__");
    }
    TOMBSTONE.to_owned()
}

/// Applies `cmd` to the table and says what is to be logged and answered.
pub fn execute(engine: &mut Engine, cmd: Command) -> (e: Effect)
    requires
        old(engine).wf(),
    ensures
        final(engine).wf(),
        (final(engine).table(), e@) == execute_spec(old(engine).table(), cmd@),
{
    match cmd {
        Command::SetValue(key, value) => {
            let line = engine.set(key.as_str(), value.as_str());
            Effect::Append(line, "OK\n".to_owned())
        },
        Command::Del(key) => {
            let t = tombstone_string();
            let line = engine.set(key.as_str(), t.as_str());
            Effect::Append(line, "OK_DELETED\n".to_owned())
        },
        Command::Compact => Effect::Compact("OK_COMPACTED\n".to_owned()),
        other => answer(engine, other),
    }
}

/// The answer when appending a write's log line failed with the error text `err`.
pub fn write_failed_reply(err: &str) -> (r: String)
    ensures
        r@ == "ERR "@ + err@ + "\n"@,
{
    let mut out = chars_of("ERR ");
    let e = chars_of(err);
    let nl = chars_of("\n");
    let a = concat_chars(&out, &e);
    out = concat_chars(&a, &nl);
    string_of(out.as_slice())
}

/// The answer when the compaction failed with the error text `err`.
pub fn compact_failed_reply(err: &str) -> (r: String)
    ensures
        r@ == "ERR_COMPACT "@ + err@ + "\n"@,
{
    let p = chars_of("ERR_COMPACT ");
    let e = chars_of(err);
    let nl = chars_of("\n");
    let a = concat_chars(&p, &e);
    let out = concat_chars(&a, &nl);
    string_of(out.as_slice())
}

/// Reads the command of a client's message (invalid UTF-8 replaced).
pub fn read_command(raw: &[u8]) -> (c: Command)
    ensures
        c@ == parse_spec(utf8_lossy(raw@)),
{
    let text = decode_lossy(raw);
    parse(text.as_str())
}

/// Whether a command leaves the table as it is, so that it can be answered
/// under a shared lock.
pub open spec fn reads_only(c: CommandView) -> bool {
    c is Get || c is Ping || c is Unknown
}

/// Whether `cmd` leaves the table as it is.
pub fn is_read_only(cmd: &Command) -> (b: bool)
    ensures
        b == reads_only(cmd@),
{
    match cmd {
        Command::Get(_) | Command::Ping | Command::Unknown => true,
        _ => false,
    }
}

/// The answer to a command that leaves the table as it is.
pub fn answer(engine: &Engine, cmd: Command) -> (e: Effect)
    requires
        reads_only(cmd@),
    ensures
        e@ == execute_spec(engine.table(), cmd@).1,
{
    match cmd {
        Command::Get(key) => {
            match engine.get(key.as_str()) {
                Some(v) => {
                    if *v == tombstone_string() {
                        Effect::Reply("NULL\n".to_owned())
                    } else {
                        let mut cs = chars_of(v.as_str());
                        cs.push('\n');
                        Effect::Reply(string_of(cs.as_slice()))
                    }
                },
                None => Effect::Reply("NULL\n".to_owned()),
            }
        },
        Command::Ping => Effect::Reply("PONG\n".to_owned()),
        _ => Effect::Reply("ERR_UNKNOWN_COMMAND\n".to_owned()),
    }
}

/// Handles one message of a client: decodes it (invalid UTF-8 replaced),
/// reads the command and applies it.
pub fn handle_message(engine: &mut Engine, raw: &[u8]) -> (e: Effect)
    requires
        old(engine).wf(),
    ensures
        final(engine).wf(),
        (final(engine).table(), e@) == execute_spec(old(engine).table(), parse_spec(utf8_lossy(raw@))),
{
    let cmd = read_command(raw);
    execute(engine, cmd)
}

/// A read gives back the last write: after `SET key value`, `GET key`
/// answers the value (unless the value is the tombstone itself).
pub proof fn lemma_get_after_set(t: Map<Seq<char>, Seq<char>>, k: Seq<char>, v: Seq<char>)
    requires
        v != tombstone(),
    ensures
        execute_spec(execute_spec(t, CommandView::SetValue(k, v)).0, CommandView::Get(k)).1
            == EffectView::Reply(v.push('\n')),
{
}

/// After `DEL key`, `GET key` answers `NULL`.
pub proof fn lemma_get_after_del(t: Map<Seq<char>, Seq<char>>, k: Seq<char>)
    ensures
        execute_spec(execute_spec(t, CommandView::Del(k)).0, CommandView::Get(k)).1
            == EffectView::Reply("NULL\n"@),
{
}

/// A write or a deletion of one key leaves every other key's answer as it was.
pub proof fn lemma_other_keys_unchanged(
    t: Map<Seq<char>, Seq<char>>,
    c: CommandView,
    k: Seq<char>,
)
    requires
        match c {
            CommandView::SetValue(ck, _) => ck != k,
            CommandView::Del(ck) => ck != k,
            _ => true,
        },
    ensures
        get_reply(execute_spec(t, c).0, k) == get_reply(t, k),
{
}

/// Compaction changes no answer: dropping the tombstoned keys answers `GET`
/// exactly as before, for every key.
pub proof fn lemma_compaction_keeps_answers(t: Map<Seq<char>, Seq<char>>, k: Seq<char>)
    ensures
        get_reply(live(t), k) == get_reply(t, k),
{
}

/// The table after a command has been carried out: what `execute` makes of
/// it, and for `COMPACT` the tombstoned keys dropped, as `Engine::compact`
/// drops them once the log has been rewritten.
pub open spec fn command_effect(t: Map<Seq<char>, Seq<char>>, c: CommandView) -> Map<Seq<char>, Seq<char>> {
    match c {
        CommandView::Compact => live(t),
        _ => execute_spec(t, c).0,
    }
}

/// The table after a run of commands, in order.
pub open spec fn command_run(t: Map<Seq<char>, Seq<char>>, cmds: Seq<CommandView>) -> Map<Seq<char>, Seq<char>>
    decreases cmds.len(),
{
    if cmds.len() == 0 {
        t
    } else {
        command_effect(command_run(t, cmds.drop_last()), cmds.last())
    }
}

/// The value that the last `SET` or `DEL` of `k` in a run wrote (the
/// tombstone for a `DEL`); `None` if the run neither sets nor deletes `k`.
pub open spec fn last_write(cmds: Seq<CommandView>, k: Seq<char>) -> Option<Seq<char>>
    decreases cmds.len(),
{
    if cmds.len() == 0 {
        None
    } else {
        match cmds.last() {
            CommandView::SetValue(ck, v) => if ck == k {
                Some(v)
            } else {
                last_write(cmds.drop_last(), k)
            },
            CommandView::Del(ck) => if ck == k {
                Some(tombstone())
            } else {
                last_write(cmds.drop_last(), k)
            },
            _ => last_write(cmds.drop_last(), k),
        }
    }
}

/// A read gives back the last write, across any run of commands: after the
/// run, `GET k` answers the value of the last `SET` of `k` and a line feed,
/// or `NULL` if the last write of `k` was a `DEL` (or wrote the tombstone
/// text); if the run neither sets nor deletes `k`, it answers as before the
/// run. Reads, pings, unknown commands, compactions and writes of other keys
/// change no answer for `k`.
pub proof fn lemma_get_after_run(t: Map<Seq<char>, Seq<char>>, cmds: Seq<CommandView>, k: Seq<char>)
    ensures
        execute_spec(command_run(t, cmds), CommandView::Get(k)).1 == EffectView::Reply(
            get_reply(command_run(t, cmds), k),
        ),
        get_reply(command_run(t, cmds), k) == match last_write(cmds, k) {
            Some(v) => if v == tombstone() {
                "NULL\n"@
            } else {
                v.push('\n')
            },
            None => get_reply(t, k),
        },
    decreases cmds.len(),
{
    if cmds.len() > 0 {
        lemma_get_after_run(t, cmds.drop_last(), k);
        let before = command_run(t, cmds.drop_last());
        match cmds.last() {
            CommandView::Compact => {
                lemma_compaction_keeps_answers(before, k);
            },
            _ => {},
        }
    }
}

/// After `DEL k`, `GET k` answers `NULL` whatever follows, as long as no
/// later `SET` writes `k`.
pub proof fn lemma_get_after_del_run(t: Map<Seq<char>, Seq<char>>, cmds: Seq<CommandView>, i: int, k: Seq<char>)
    requires
        0 <= i < cmds.len(),
        cmds[i] == CommandView::Del(k),
        forall|j: int| i < j < cmds.len() ==> !(#[trigger] cmds[j] matches CommandView::SetValue(ck, _) && ck == k),
    ensures
        get_reply(command_run(t, cmds), k) == "NULL\n"@,
{
    lemma_last_write_is_del(cmds, i, k);
    lemma_get_after_run(t, cmds, k);
}

proof fn lemma_last_write_is_del(cmds: Seq<CommandView>, i: int, k: Seq<char>)
    requires
        0 <= i < cmds.len(),
        cmds[i] == CommandView::Del(k),
        forall|j: int| i < j < cmds.len() ==> !(#[trigger] cmds[j] matches CommandView::SetValue(ck, _) && ck == k),
    ensures
        last_write(cmds, k) == Some(tombstone()),
    decreases cmds.len(),
{
    if i < cmds.len() - 1 {
        let front = cmds.drop_last();
        assert forall|j: int| i < j < front.len() implies !(#[trigger] front[j] matches CommandView::SetValue(ck, _)
            && ck == k) by {
            assert(front[j] == cmds[j]);
        }
        assert(front[i] == cmds[i]);
        lemma_last_write_is_del(front, i, k);
        assert(!(cmds[cmds.len() - 1] matches CommandView::SetValue(ck, _) && ck == k));
    }
}

} // verus!
