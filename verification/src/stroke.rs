//! Strokes drawn in the browser: the binary frames that carry their points,
//! the events they become, and the scoring of a session's strokes.
//!
//! A point frame is `x: f32 LE | y: f32 LE | pressure: f32 LE | flag: u8`,
//! 13 bytes, where the flag is 1 for the start of a stroke, 0 for a move and
//! 2 for its end. The floating-point values are carried as their bit patterns.
use vstd::prelude::*;
use crate::ring::{StrokeEvent, ACTION_DOWN, ACTION_MOVE, ACTION_UP};

verus! {

/// The size of a point frame.
pub const POINT_FRAME_LEN: usize = 13;

/// Flag of a point frame: the start of a stroke.
pub const FLAG_START: u8 = 1;

/// Flag of a point frame: a move within a stroke.
pub const FLAG_MOVE: u8 = 0;

/// Flag of a point frame: the end of a stroke.
pub const FLAG_END: u8 = 2;

/// Number of per-session state slots of the event processor.
pub const SESSION_POOL_SIZE: usize = 65536;

const SESSION_MASK: usize = SESSION_POOL_SIZE - 1;

/// The little-endian `u32` of four bytes.
pub open spec fn le_u32(b0: u8, b1: u8, b2: u8, b3: u8) -> u32 {
    (b0 + 256 * b1 + 65536 * b2 + 16777216 * b3) as u32
}

/// The little-endian `u32` at `data[at..at + 4]`.
fn read_le_u32(data: &[u8], at: usize) -> (v: u32)
    requires
        at + 4 <= data@.len(),
    ensures
        v == le_u32(data@[at as int], data@[at + 1], data@[at + 2], data@[at + 3]),
{
    let b0 = data[at] as u32;
    let b1 = data[at + 1] as u32;
    let b2 = data[at + 2] as u32;
    let b3 = data[at + 3] as u32;
    b0 + b1 * 256 + b2 * 65536 + b3 * 16777216
}

/// The fields of a point frame, the coordinates and the pressure as `f32` bit patterns.
#[derive(Debug, Clone, Copy, PartialEq, Eq, Structural)]
pub struct PointFrame {
    pub x_bits: u32,
    pub y_bits: u32,
    pub pressure_bits: u32,
    pub flag: u8,
}

/// Reads a point frame: `None` unless the frame is exactly 13 bytes long.
pub fn decode_point_frame(data: &[u8]) -> (r: Option<PointFrame>)
    ensures
        data@.len() != POINT_FRAME_LEN ==> r is None,
        data@.len() == POINT_FRAME_LEN ==> r == Some(
            PointFrame {
                x_bits: le_u32(data@[0], data@[1], data@[2], data@[3]),
                y_bits: le_u32(data@[4], data@[5], data@[6], data@[7]),
                pressure_bits: le_u32(data@[8], data@[9], data@[10], data@[11]),
                flag: data@[12],
            },
        ),
{
    if data.len() != POINT_FRAME_LEN {
        return None;
    }
    Some(
        PointFrame {
            x_bits: read_le_u32(data, 0),
            y_bits: read_le_u32(data, 4),
            pressure_bits: read_le_u32(data, 8),
            flag: data[12],
        },
    )
}

/// The event action of a frame flag: start is pen down, move is a move, end
/// is pen up; any other flag has none.
pub open spec fn flag_action(flag: u8) -> Option<u8> {
    if flag == FLAG_START {
        Some(ACTION_DOWN)
    } else if flag == FLAG_MOVE {
        Some(ACTION_MOVE)
    } else if flag == FLAG_END {
        Some(ACTION_UP)
    } else {
        None
    }
}

/// The event action of a frame flag.
pub fn action_for_flag(flag: u8) -> (a: Option<u8>)
    ensures
        a == flag_action(flag),
{
    match flag {
        1 => Some(ACTION_DOWN),
        0 => Some(ACTION_MOVE),
        2 => Some(ACTION_UP),
        _ => None,
    }
}

/// Turns a frame received from a session into the event that is written to
/// the ring: the frame must be 13 or 17 bytes long (the longer form has
/// padding) and carry a known flag. The event holds the coordinates, the
/// action, the session and the time of reception; its pressure and its span
/// context are zero.
pub fn decode_stroke_frame(data: &[u8], session_id: u32, timestamp: u64) -> (r: Option<StrokeEvent>)
    ensures
        !(data@.len() == 13 || data@.len() == 17) ==> r is None,
        (data@.len() == 13 || data@.len() == 17) ==> match flag_action(data@[12]) {
            None => r is None,
            Some(action) => r matches Some(e) && e.session_id == session_id && e.timestamp == timestamp
                && e.x_bits == le_u32(data@[0], data@[1], data@[2], data@[3]) && e.y_bits == le_u32(
                data@[4],
                data@[5],
                data@[6],
                data@[7],
            ) && e.pressure_bits == 0 && e.action == action && e.trace_id@ == Seq::new(16, |i: int| 0u8)
                && e.parent_span_id@ == Seq::new(8, |i: int| 0u8),
        },
{
    if !(data.len() == 13 || data.len() == 17) {
        return None;
    }
    let action = match action_for_flag(data[12]) {
        Some(a) => a,
        None => {
            return None;
        },
    };
    let mut e = StrokeEvent::zeroed();
    e.session_id = session_id;
    e.timestamp = timestamp;
    e.x_bits = read_le_u32(data, 0);
    e.y_bits = read_le_u32(data, 4);
    e.action = action;
    Some(e)
}

/// The state slot of a session in the event processor.
pub fn session_slot(session_id: u32) -> (slot: usize)
    ensures
        slot == session_id as int % SESSION_POOL_SIZE as int,
        slot < SESSION_POOL_SIZE,
{
    let id = session_id as usize;
    assert(id & 65535usize == id % 65536usize) by (bit_vector);
    id & SESSION_MASK
}

/// `TraceId::from_bytes` compared with `TraceId::INVALID`: whether the trace
/// id is valid. The crate documents a trace id as valid when it holds at least
/// one non-zero byte (`from_bytes` reads the bytes as a big-endian `u128`,
/// `INVALID` is zero).
#[verifier::external_body]
fn trace_id_is_valid(bytes: [u8; 16]) -> (r: bool)
    ensures
        r == (exists|i: int| 0 <= i < 16 && bytes@[i] != 0),
{
    opentelemetry::trace::TraceId::from_bytes(bytes) != opentelemetry::trace::TraceId::INVALID
}

/// `SpanId::from_bytes` compared with `SpanId::INVALID`: whether the span id
/// is valid. The crate documents a span id as valid when it holds at least one
/// non-zero byte (`from_bytes` reads the bytes as a big-endian `u64`,
/// `INVALID` is zero).
#[verifier::external_body]
fn span_id_is_valid(bytes: [u8; 8]) -> (r: bool)
    ensures
        r == (exists|i: int| 0 <= i < 8 && bytes@[i] != 0),
{
    opentelemetry::trace::SpanId::from_bytes(bytes) != opentelemetry::trace::SpanId::INVALID
}

/// Whether an event carries the span context of its producer, so that its
/// processing is traced as a child of the producer's span: both the trace id
/// and the parent span id must be valid. Otherwise the processing is traced
/// in the consumer's current context.
pub fn has_remote_parent(event: &StrokeEvent) -> (r: bool)
    ensures
        r == ((exists|i: int| 0 <= i < 16 && event.trace_id@[i] != 0) && (exists|i: int|
            0 <= i < 8 && event.parent_span_id@[i] != 0)),
{
    trace_id_is_valid(event.trace_id) && span_id_is_valid(event.parent_span_id)
}

/// What a point of a stroke is flagged for.
#[derive(Debug, Clone, Copy, PartialEq, Eq, Structural)]
pub enum Anomaly {
    WrongStrokeOrder,
    ExcessiveSpeed,
    ErraticJitter,
    SharpDirectionChange,
}

/// The name under which an anomaly is reported.
pub open spec fn anomaly_name(a: Anomaly) -> Seq<char> {
    match a {
        Anomaly::WrongStrokeOrder => "WRONG_STROKE_ORDER"@,
        Anomaly::ExcessiveSpeed => "EXCESSIVE_SPEED"@,
        Anomaly::ErraticJitter => "ERRATIC_JITTER"@,
        Anomaly::SharpDirectionChange => "SHARP_DIRECTION_CHANGE"@,
    }
}

impl Anomaly {
    /// The name under which the anomaly is reported.
    pub fn label(&self) -> (s: String)
        ensures
            s@ == anomaly_name(*self),
    {
        match self {
            Anomaly::WrongStrokeOrder => "WRONG_STROKE_ORDER".to_owned(),
            Anomaly::ExcessiveSpeed => "EXCESSIVE_SPEED".to_owned(),
            Anomaly::ErraticJitter => "ERRATIC_JITTER".to_owned(),
            Anomaly::SharpDirectionChange => "SHARP_DIRECTION_CHANGE".to_owned(),
        }
    }
}

/// The threat reported for a point: the anomaly's name, or `STABLE`.
pub fn threat_label(anomaly: Option<Anomaly>) -> (s: String)
    ensures
        anomaly matches Some(a) ==> s@ == anomaly_name(a),
        anomaly is None ==> s@ == "STABLE"@,
{
    match anomaly {
        Some(a) => a.label(),
        None => "STABLE".to_owned(),
    }
}

/// The count of strokes of a session and the number of the stroke expected next.
#[derive(Debug, Clone, Copy)]
pub struct StrokeOrder {
    pub stroke_count: u32,
    pub expected_stroke: u8,
}

impl StrokeOrder {
    /// The expected stroke is the one after those counted.
    pub open spec fn in_step(self) -> bool {
        self.expected_stroke == self.stroke_count + 1
    }

    /// A session that has drawn no stroke and expects the first.
    pub fn new() -> (o: StrokeOrder)
        ensures
            o.stroke_count == 0,
            o.expected_stroke == 1,
            o.in_step(),
    {
        StrokeOrder { stroke_count: 0, expected_stroke: 1 }
    }

    /// Counts the start of a stroke and says whether it came out of order:
    /// the first stroke must be the one expected first, the second the one
    /// expected second. The expected number then moves on by one.
    pub fn start_stroke(&mut self) -> (wrong_order: bool)
        requires
            old(self).stroke_count < u32::MAX,
            old(self).expected_stroke < u8::MAX,
        ensures
            final(self).stroke_count == old(self).stroke_count + 1,
            final(self).expected_stroke == old(self).expected_stroke + 1,
            wrong_order == ((final(self).stroke_count == 1 && old(self).expected_stroke != 1) || (
            final(self).stroke_count == 2 && old(self).expected_stroke != 2)),
            old(self).in_step() ==> final(self).in_step() && !wrong_order,
    {
        self.stroke_count = self.stroke_count + 1;
        let wrong = if self.stroke_count == 1 && self.expected_stroke != 1 {
            true
        } else if self.stroke_count == 2 && self.expected_stroke != 2 {
            true
        } else {
            false
        };
        self.expected_stroke = self.expected_stroke + 1;
        wrong
    }
}

/// The score of a point, from 0 to 100, and the anomaly it is flagged for.
#[derive(Debug, Clone, Copy)]
pub struct PointReport {
    pub score: u8,
    pub anomaly: Option<Anomaly>,
}

/// The report of the first point of a stroke: 40 points off for a stroke out
/// of order.
pub fn start_report(wrong_order: bool) -> (r: PointReport)
    ensures
        wrong_order ==> r.score == 60 && r.anomaly == Some(Anomaly::WrongStrokeOrder),
        !wrong_order ==> r.score == 100 && r.anomaly is None,
{
    if wrong_order {
        PointReport { score: 60, anomaly: Some(Anomaly::WrongStrokeOrder) }
    } else {
        PointReport { score: 100, anomaly: None }
    }
}

/// The report of a move: 20 points off for excessive speed, 15 for erratic
/// jitter, 20 for a sharp change of direction; the anomaly reported is the
/// last of these that was found, in that order.
pub fn move_report(excessive_speed: bool, erratic_jitter: bool, sharp_turn: bool) -> (r: PointReport)
    ensures
        r.score == 100 - (if excessive_speed { 20int } else { 0 }) - (if erratic_jitter { 15int } else { 0 })
            - (if sharp_turn { 20int } else { 0 }),
        r.anomaly == (if sharp_turn {
            Some(Anomaly::SharpDirectionChange)
        } else if erratic_jitter {
            Some(Anomaly::ErraticJitter)
        } else if excessive_speed {
            Some(Anomaly::ExcessiveSpeed)
        } else {
            None
        }),
{
    let mut score: u8 = 100;
    let mut anomaly: Option<Anomaly> = None;
    if excessive_speed {
        score = score - 20;
        anomaly = Some(Anomaly::ExcessiveSpeed);
    }
    if erratic_jitter {
        score = score - 15;
        anomaly = Some(Anomaly::ErraticJitter);
    }
    if sharp_turn {
        score = score - 20;
        anomaly = Some(Anomaly::SharpDirectionChange);
    }
    PointReport { score, anomaly }
}

/// The report of the end of a stroke or of a point with an unknown flag.
pub fn quiet_report() -> (r: PointReport)
    ensures
        r.score == 100,
        r.anomaly is None,
{
    PointReport { score: 100, anomaly: None }
}

/// The report of a point with flag `flag`, and the stroke order after it,
/// given what was measured of a move.
pub open spec fn point_outcome(
    order: StrokeOrder,
    flag: u8,
    excessive_speed: bool,
    erratic_jitter: bool,
    sharp_turn: bool,
) -> (StrokeOrder, u8, Option<Anomaly>) {
    if flag == FLAG_START {
        let after = StrokeOrder {
            stroke_count: (order.stroke_count + 1) as u32,
            expected_stroke: (order.expected_stroke + 1) as u8,
        };
        let wrong = (after.stroke_count == 1 && order.expected_stroke != 1) || (after.stroke_count == 2
            && order.expected_stroke != 2);
        if wrong {
            (after, 60, Some(Anomaly::WrongStrokeOrder))
        } else {
            (after, 100, None)
        }
    } else if flag == FLAG_MOVE {
        (
            order,
            (100 - (if excessive_speed { 20int } else { 0 }) - (if erratic_jitter { 15int } else { 0 }) - (
            if sharp_turn { 20int } else { 0 })) as u8,
            if sharp_turn {
                Some(Anomaly::SharpDirectionChange)
            } else if erratic_jitter {
                Some(Anomaly::ErraticJitter)
            } else if excessive_speed {
                Some(Anomaly::ExcessiveSpeed)
            } else {
                None
            },
        )
    } else {
        (order, 100, None)
    }
}

impl StrokeOrder {
    /// Scores a point of the session: the start of a stroke is counted and
    /// checked for order; a move is scored from what was measured of it; the
    /// end of a stroke and an unknown flag score full marks.
    pub fn score_point(
        &mut self,
        flag: u8,
        excessive_speed: bool,
        erratic_jitter: bool,
        sharp_turn: bool,
    ) -> (r: PointReport)
        requires
            flag == FLAG_START ==> old(self).stroke_count < u32::MAX && old(self).expected_stroke < u8::MAX,
        ensures
            (*final(self), r.score, r.anomaly) == point_outcome(
                *old(self),
                flag,
                excessive_speed,
                erratic_jitter,
                sharp_turn,
            ),
    {
        if flag == FLAG_START {
            let wrong_order = self.start_stroke();
            start_report(wrong_order)
        } else if flag == FLAG_MOVE {
            move_report(excessive_speed, erratic_jitter, sharp_turn)
        } else {
            quiet_report()
        }
    }
}

/// A session whose strokes are all started in step never reports a stroke
/// out of order: starting a stroke keeps the count and the expected number
/// in step.
pub proof fn lemma_in_step_never_wrong(before: StrokeOrder, after: StrokeOrder, wrong_order: bool)
    requires
        before.in_step(),
        after.stroke_count == before.stroke_count + 1,
        after.expected_stroke == before.expected_stroke + 1,
        wrong_order == ((after.stroke_count == 1 && before.expected_stroke != 1) || (after.stroke_count
            == 2 && before.expected_stroke != 2)),
    ensures
        !wrong_order,
        after.in_step(),
{
}

/// How a move is scored, as a relation between moves that differ in one
/// finding: a move with nothing found scores 100 and is not flagged; a sharp
/// change of direction costs 20 points and is what the move is flagged for;
/// erratic jitter (without a sharp turn) costs 15 points and is flagged;
/// excessive speed alone costs 20 points and is flagged. A move leaves the
/// stroke count as it was, and its score stays between 45 and 100.
pub proof fn lemma_move_scoring(o: StrokeOrder, speed: bool, jitter: bool)
    ensures
        point_outcome(o, FLAG_MOVE, false, false, false) == (o, 100u8, None::<Anomaly>),
        point_outcome(o, FLAG_MOVE, speed, jitter, true).1 + 20 == point_outcome(o, FLAG_MOVE, speed, jitter, false).1,
        point_outcome(o, FLAG_MOVE, speed, jitter, true).2 == Some(Anomaly::SharpDirectionChange),
        point_outcome(o, FLAG_MOVE, speed, true, false).1 + 15 == point_outcome(o, FLAG_MOVE, speed, false, false).1,
        point_outcome(o, FLAG_MOVE, speed, true, false).2 == Some(Anomaly::ErraticJitter),
        point_outcome(o, FLAG_MOVE, true, false, false).1 + 20 == point_outcome(o, FLAG_MOVE, false, false, false).1,
        point_outcome(o, FLAG_MOVE, true, false, false).2 == Some(Anomaly::ExcessiveSpeed),
        point_outcome(o, FLAG_MOVE, speed, jitter, false).0 == o,
        45 <= point_outcome(o, FLAG_MOVE, speed, jitter, true).1 <= 100,
{
}

/// The start of a stroke counts it, and a session started in step is never
/// flagged for the order of its strokes and scores full marks; the end of a
/// stroke changes nothing and scores full marks.
pub proof fn lemma_start_and_end_scoring(o: StrokeOrder, speed: bool, jitter: bool, sharp: bool)
    requires
        o.stroke_count < u32::MAX,
        o.expected_stroke < u8::MAX,
    ensures
        point_outcome(o, FLAG_START, speed, jitter, sharp).0.stroke_count == o.stroke_count + 1,
        o.in_step() ==> point_outcome(o, FLAG_START, speed, jitter, sharp).0.in_step()
            && point_outcome(o, FLAG_START, speed, jitter, sharp).1 == 100
            && point_outcome(o, FLAG_START, speed, jitter, sharp).2 is None,
        point_outcome(o, FLAG_END, speed, jitter, sharp) == (o, 100u8, None::<Anomaly>),
{
}

} // verus!
