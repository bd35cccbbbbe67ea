//! Synthesis of touch gestures as raw input event records.
//!
//! A record is what the kernel reads from a writer of an input device: two
//! machine words of time stamp, a 16-bit event type, a 16-bit event code and
//! a signed 32-bit value, each little-endian, in this order and without
//! padding. Every update of the touch state ends with a synchronization
//! record.

use vstd::prelude::*;
use crate::packing::{bits_of_i32, i32_bits, le_bytes, lemma_le_bytes_len, put_le};

verus! {

/// Event type of a synchronization record.
pub const EV_SYN: u16 = 0;

/// Event type of a key or button record.
pub const EV_KEY: u16 = 1;

/// Event type of an absolute axis record.
pub const EV_ABS: u16 = 3;

/// Event code that closes one update.
pub const SYN_REPORT: u16 = 0;

/// Event code of the touch contact: value 1 is down, 0 is up.
pub const BTN_TOUCH: u16 = 330;

/// Event code of the horizontal position of a contact.
pub const ABS_MT_POSITION_X: u16 = 53;

/// Event code of the vertical position of a contact.
pub const ABS_MT_POSITION_Y: u16 = 54;

/// Touch state of a contact that is down.
pub const TOUCH_DOWN: i32 = 1;

/// Touch state of a contact that is up.
pub const TOUCH_UP: i32 = 0;

/// The time between two steps of a swipe, in milliseconds.
pub const STEP_MS: u64 = 10;

/// The time to wait after a tap, in milliseconds.
pub const TAP_SETTLE_MS: u64 = 50;

/// One raw input event record.
#[derive(Debug, Clone, Copy, PartialEq, Eq, Structural)]
pub struct InputEvent {
    /// Seconds of the time stamp.
    pub time_sec: usize,
    /// Microseconds of the time stamp.
    pub time_usec: usize,
    /// Event type.
    pub kind: u16,
    /// Event code.
    pub code: u16,
    /// Event value.
    pub value: i32,
}

/// Records to write one after the other, and the time to wait after the last.
#[derive(Debug, PartialEq, Eq)]
pub struct Burst {
    pub events: Vec<InputEvent>,
    pub pause_ms: u64,
}

/// Mathematical model of a [`Burst`].
pub struct BurstView {
    pub events: Seq<InputEvent>,
    pub pause_ms: u64,
}

impl View for Burst {
    type V = BurstView;

    open spec fn view(&self) -> BurstView {
        BurstView { events: self.events@, pause_ms: self.pause_ms }
    }
}

/// The number of bytes of a machine word.
pub open spec fn word_bytes() -> nat {
    (usize::BITS / 8) as nat
}

/// A record without time stamp.
pub open spec fn event(kind: u16, code: u16, value: i32) -> InputEvent {
    InputEvent { time_sec: 0, time_usec: 0, kind, code, value }
}

/// The bytes of a record, as they are written to the device.
pub open spec fn record_bytes(e: InputEvent) -> Seq<u8> {
    le_bytes(e.time_sec as nat, word_bytes()) + le_bytes(e.time_usec as nat, word_bytes())
        + le_bytes(e.kind as nat, 2) + le_bytes(e.code as nat, 2) + le_bytes(i32_bits(e.value), 4)
}

/// One update of a contact with its touch state: horizontal position,
/// vertical position, touch state, synchronization.
pub open spec fn touch_events(x: i32, y: i32, state: i32) -> Seq<InputEvent> {
    seq![
        event(EV_ABS, ABS_MT_POSITION_X, x),
        event(EV_ABS, ABS_MT_POSITION_Y, y),
        event(EV_KEY, BTN_TOUCH, state),
        event(EV_SYN, SYN_REPORT, 0),
    ]
}

/// One update of the position of a contact: horizontal position, vertical
/// position, synchronization.
pub open spec fn move_events(x: i32, y: i32) -> Seq<InputEvent> {
    seq![
        event(EV_ABS, ABS_MT_POSITION_X, x),
        event(EV_ABS, ABS_MT_POSITION_Y, y),
        event(EV_SYN, SYN_REPORT, 0),
    ]
}

/// A tap: the contact goes down and, at once, up again at the same place;
/// then the device is given time to settle.
pub open spec fn tap_burst(x: i32, y: i32) -> BurstView {
    BurstView {
        events: touch_events(x, y, TOUCH_DOWN) + touch_events(x, y, TOUCH_UP),
        pause_ms: TAP_SETTLE_MS,
    }
}

/// The number of steps of a swipe: one for every full step time of its
/// duration, and at least one.
pub open spec fn swipe_steps(duration_ms: u64) -> nat {
    if duration_ms / STEP_MS >= 1 {
        (duration_ms / STEP_MS) as nat
    } else {
        1
    }
}

/// The quotient of `n` by a positive `d`, rounded toward zero.
pub open spec fn toward_zero(n: int, d: int) -> int {
    if n >= 0 {
        n / d
    } else {
        -((-n) / d)
    }
}

/// The position at `step` of `steps` on the straight way from `from` to
/// `to`: `from + step * (to - from) / steps`, rounded toward zero.
pub open spec fn interpolate(from: i32, to: i32, step: nat, steps: nat) -> int {
    toward_zero(from * steps + step * (to - from), steps as int)
}

/// The bytes of a record without time stamp.
pub fn write_event(kind: u16, code: u16, value: i32) -> (bytes: Vec<u8>)
    ensures
        bytes@ == record_bytes(event(kind, code, value)),
        bytes@.len() == 2 * word_bytes() + 8,
{
    InputEvent::new(kind, code, value).to_bytes()
}

impl InputEvent {
    /// A record without time stamp.
    pub fn new(kind: u16, code: u16, value: i32) -> (e: InputEvent)
        ensures
            e == event(kind, code, value),
    {
        InputEvent { time_sec: 0, time_usec: 0, kind, code, value }
    }

    /// The bytes of the record, as they are written to the device.
    pub fn to_bytes(&self) -> (bytes: Vec<u8>)
        ensures
            bytes@ == record_bytes(*self),
            bytes@.len() == 2 * word_bytes() + 8,
    {
        let word: usize = (usize::BITS / 8) as usize;
        let mut bytes: Vec<u8> = Vec::new();
        put_le(&mut bytes, self.time_sec as u64, word);
        put_le(&mut bytes, self.time_usec as u64, word);
        put_le(&mut bytes, self.kind as u64, 2);
        put_le(&mut bytes, self.code as u64, 2);
        put_le(&mut bytes, bits_of_i32(self.value) as u64, 4);
        proof {
            lemma_le_bytes_len(self.time_sec as nat, word_bytes());
            lemma_le_bytes_len(self.time_usec as nat, word_bytes());
            lemma_le_bytes_len(self.kind as nat, 2);
            lemma_le_bytes_len(self.code as nat, 2);
            lemma_le_bytes_len(i32_bits(self.value), 4);
            assert(bytes@ =~= record_bytes(*self));
        }
        bytes
    }
}

/// The records of one update of a contact with its touch state.
pub fn send_touch_event(x: i32, y: i32, state: i32) -> (events: Vec<InputEvent>)
    ensures
        events@ == touch_events(x, y, state),
{
    let mut events: Vec<InputEvent> = Vec::new();
    events.push(InputEvent::new(EV_ABS, ABS_MT_POSITION_X, x));
    events.push(InputEvent::new(EV_ABS, ABS_MT_POSITION_Y, y));
    events.push(InputEvent::new(EV_KEY, BTN_TOUCH, state));
    events.push(InputEvent::new(EV_SYN, SYN_REPORT, 0));
    assert(events@ =~= touch_events(x, y, state));
    events
}

/// The records of one update of the position of a contact.
pub fn send_move_event(x: i32, y: i32) -> (events: Vec<InputEvent>)
    ensures
        events@ == move_events(x, y),
{
    let mut events: Vec<InputEvent> = Vec::new();
    events.push(InputEvent::new(EV_ABS, ABS_MT_POSITION_X, x));
    events.push(InputEvent::new(EV_ABS, ABS_MT_POSITION_Y, y));
    events.push(InputEvent::new(EV_SYN, SYN_REPORT, 0));
    assert(events@ =~= move_events(x, y));
    events
}

/// The records of a tap at a position, and the time to wait after them.
pub fn tap(x: i32, y: i32) -> (burst: Burst)
    ensures
        burst@ == tap_burst(x, y),
{
    let mut events = send_touch_event(x, y, TOUCH_DOWN);
    let mut up = send_touch_event(x, y, TOUCH_UP);
    events.append(&mut up);
    Burst { events, pause_ms: TAP_SETTLE_MS }
}

/// Rounding toward zero keeps a quotient between the bounds of its dividend.
pub proof fn lemma_toward_zero_between(n: int, d: int, low: int, high: int)
    requires
        d > 0,
        low * d <= n <= high * d,
    ensures
        low <= toward_zero(n, d) <= high,
{
    if n >= 0 {
        let q = n / d;
        assert(0 <= q && q * d <= n && n < (q + 1) * d) by (nonlinear_arith)
            requires
                n >= 0,
                d > 0,
                q == n / d,
        ;
        assert(q <= high) by (nonlinear_arith)
            requires
                q * d <= n,
                n <= high * d,
                d > 0,
        ;
        assert(low <= q) by (nonlinear_arith)
            requires
                low * d <= n,
                n < (q + 1) * d,
                d > 0,
        ;
    } else {
        let m = -n;
        let q = m / d;
        assert(0 <= q && q * d <= m && m < (q + 1) * d) by (nonlinear_arith)
            requires
                m >= 0,
                d > 0,
                q == m / d,
        ;
        assert(-q <= high) by (nonlinear_arith)
            requires
                m < (q + 1) * d,
                -m <= high * d,
                d > 0,
        ;
        assert(low <= -q) by (nonlinear_arith)
            requires
                q * d <= m,
                low * d <= -m,
                d > 0,
        ;
    }
}

/// Rounding toward zero leaves a whole quotient as it is.
pub proof fn lemma_toward_zero_exact(k: int, d: int)
    requires
        d > 0,
    ensures
        toward_zero(k * d, d) == k,
{
    lemma_toward_zero_between(k * d, d, k, k);
}

/// A swipe never leaves the stretch between its ends, starts where it
/// starts, and with its last step stands exactly at its end.
pub proof fn lemma_interpolate_between(from: i32, to: i32, step: nat, steps: nat)
    requires
        1 <= steps,
        step <= steps,
    ensures
        from <= to ==> from <= interpolate(from, to, step, steps) <= to,
        to <= from ==> to <= interpolate(from, to, step, steps) <= from,
        interpolate(from, to, 0, steps) == from,
        interpolate(from, to, steps, steps) == to,
{
    let d = steps as int;
    let n = from * steps + step * (to - from);
    if from <= to {
        assert(from * d <= n && n <= to * d) by (nonlinear_arith)
            requires
                n == from * d + step * (to - from),
                0 <= step <= d,
                from <= to,
        ;
        lemma_toward_zero_between(n, d, from as int, to as int);
    } else {
        assert(to * d <= n && n <= from * d) by (nonlinear_arith)
            requires
                n == from * d + step * (to - from),
                0 <= step <= d,
                to <= from,
        ;
        lemma_toward_zero_between(n, d, to as int, from as int);
    }
    assert(from * steps + 0 * (to - from) == from * d) by (nonlinear_arith)
        requires
            d == steps,
    ;
    lemma_toward_zero_exact(from as int, d);
    assert(from * steps + steps * (to - from) == to * d) by (nonlinear_arith)
        requires
            d == steps,
    ;
    lemma_toward_zero_exact(to as int, d);
}

/// The position at `step` of `steps` on the straight way from `from` to `to`.
fn interpolated(from: i32, to: i32, step: u64, steps: u64) -> (at: i32)
    requires
        1 <= steps,
        step <= steps,
    ensures
        at == interpolate(from, to, step as nat, steps as nat),
{
    let d: i128 = steps as i128;
    let way: i128 = to as i128 - from as i128;
    assert(-0x8000_0000_0000_0000_0000_0000 <= from * d <= 0x8000_0000_0000_0000_0000_0000)
        by (nonlinear_arith)
        requires
            -0x8000_0000 <= from <= 0x8000_0000,
            0 <= d <= 0x1_0000_0000_0000_0000,
    ;
    assert(-0x1_0000_0000_0000_0000_0000_0000 <= step * way
        <= 0x1_0000_0000_0000_0000_0000_0000) by (nonlinear_arith)
        requires
            -0x1_0000_0000 <= way <= 0x1_0000_0000,
            0 <= step <= 0x1_0000_0000_0000_0000,
    ;
    let n: i128 = from as i128 * d + step as i128 * way;
    proof {
        lemma_interpolate_between(from, to, step as nat, steps as nat);
    }
    let q: i128 = if n >= 0 {
        n / d
    } else {
        -((-n) / d)
    };
    q as i32
}

/// A swipe from one position to another in a number of steps.
#[derive(Debug, Clone, Copy, PartialEq, Eq)]
pub struct Swipe {
    x1: i32,
    y1: i32,
    x2: i32,
    y2: i32,
    steps: u64,
}

/// Mathematical model of a [`Swipe`].
pub struct SwipeView {
    pub x1: i32,
    pub y1: i32,
    pub x2: i32,
    pub y2: i32,
    pub steps: nat,
}

/// The bursts of a swipe, numbered from 0: the contact goes down at the
/// start; then one move for every step, each followed by the step time; then
/// the contact goes up at the end itself.
pub open spec fn swipe_burst(swipe: SwipeView, index: nat) -> Option<BurstView> {
    if index == 0 {
        Some(BurstView { events: touch_events(swipe.x1, swipe.y1, TOUCH_DOWN), pause_ms: 0 })
    } else if index <= swipe.steps {
        Some(
            BurstView {
                events: move_events(
                    interpolate(swipe.x1, swipe.x2, index, swipe.steps) as i32,
                    interpolate(swipe.y1, swipe.y2, index, swipe.steps) as i32,
                ),
                pause_ms: STEP_MS,
            },
        )
    } else if index == swipe.steps + 1 {
        Some(BurstView { events: touch_events(swipe.x2, swipe.y2, TOUCH_UP), pause_ms: 0 })
    } else {
        None
    }
}

impl View for Swipe {
    type V = SwipeView;

    closed spec fn view(&self) -> SwipeView {
        SwipeView {
            x1: self.x1,
            y1: self.y1,
            x2: self.x2,
            y2: self.y2,
            steps: self.steps as nat,
        }
    }
}

impl Swipe {
    #[verifier::type_invariant]
    spec fn has_steps(self) -> bool {
        1 <= self.steps <= u64::MAX / STEP_MS
    }

    /// The number of steps.
    pub fn steps(&self) -> (steps: u64)
        ensures
            steps == self@.steps,
            steps >= 1,
    {
        proof {
            use_type_invariant(self);
        }
        self.steps
    }

    /// The number of bursts: the steps, the touch before and the touch after them.
    pub fn bursts(&self) -> (count: u64)
        ensures
            count == self@.steps + 2,
    {
        proof {
            use_type_invariant(self);
        }
        self.steps + 2
    }

    /// The burst with the given number, counted from 0; `None` behind the last.
    pub fn burst(&self, index: u64) -> (burst: Option<Burst>)
        ensures
            match burst {
                Some(b) => swipe_burst(self@, index as nat) == Some(b@),
                None => swipe_burst(self@, index as nat) == None::<BurstView>,
            },
    {
        proof {
            use_type_invariant(self);
        }
        if index == 0 {
            Some(Burst { events: send_touch_event(self.x1, self.y1, TOUCH_DOWN), pause_ms: 0 })
        } else if index <= self.steps {
            let x = interpolated(self.x1, self.x2, index, self.steps);
            let y = interpolated(self.y1, self.y2, index, self.steps);
            Some(Burst { events: send_move_event(x, y), pause_ms: STEP_MS })
        } else if index - 1 == self.steps {
            Some(Burst { events: send_touch_event(self.x2, self.y2, TOUCH_UP), pause_ms: 0 })
        } else {
            None
        }
    }
}

/// Plans a swipe between two positions that lasts `duration_ms` milliseconds.
pub fn swipe(x1: i32, y1: i32, x2: i32, y2: i32, duration_ms: u64) -> (plan: Swipe)
    ensures
        plan@ == (SwipeView { x1, y1, x2, y2, steps: swipe_steps(duration_ms) }),
{
    let whole = duration_ms / STEP_MS;
    let steps = if whole >= 1 {
        whole
    } else {
        1
    };
    Swipe { x1, y1, x2, y2, steps }
}

/// The course of a swipe: the contact goes down at the start before the
/// first step; there is one move for every full step time of the duration,
/// and at least one; no move leaves the stretch between the two ends; the
/// last move stands exactly at the end; and the contact goes up at the end
/// itself after the last step, with nothing behind it.
pub proof fn lemma_swipe_course(x1: i32, y1: i32, x2: i32, y2: i32, duration_ms: u64)
    ensures
        ({
            let steps = swipe_steps(duration_ms);
            let plan = SwipeView { x1, y1, x2, y2, steps };
            &&& steps >= 1
            &&& duration_ms >= STEP_MS ==> steps == duration_ms / STEP_MS
            &&& swipe_burst(plan, 0) == Some(
                BurstView { events: touch_events(x1, y1, TOUCH_DOWN), pause_ms: 0 },
            )
            &&& forall|k: nat|
                1 <= k <= steps ==> {
                    let px = interpolate(x1, x2, k, steps);
                    let py = interpolate(y1, y2, k, steps);
                    &&& if x1 <= x2 {
                        x1 <= px <= x2
                    } else {
                        x2 <= px <= x1
                    }
                    &&& if y1 <= y2 {
                        y1 <= py <= y2
                    } else {
                        y2 <= py <= y1
                    }
                    &&& #[trigger] swipe_burst(plan, k) == Some(
                        BurstView { events: move_events(px as i32, py as i32), pause_ms: STEP_MS },
                    )
                }
            &&& swipe_burst(plan, steps) == Some(
                BurstView { events: move_events(x2, y2), pause_ms: STEP_MS },
            )
            &&& swipe_burst(plan, steps + 1) == Some(
                BurstView { events: touch_events(x2, y2, TOUCH_UP), pause_ms: 0 },
            )
            &&& forall|k: nat| k > steps + 1 ==> #[trigger] swipe_burst(plan, k) is None
        }),
{
    let steps = swipe_steps(duration_ms);
    let plan = SwipeView { x1, y1, x2, y2, steps };
    assert forall|k: nat| 1 <= k <= steps implies {
        let px = interpolate(x1, x2, k, steps);
        let py = interpolate(y1, y2, k, steps);
        &&& if x1 <= x2 {
            x1 <= px <= x2
        } else {
            x2 <= px <= x1
        }
        &&& if y1 <= y2 {
            y1 <= py <= y2
        } else {
            y2 <= py <= y1
        }
        &&& #[trigger] swipe_burst(plan, k) == Some(
            BurstView { events: move_events(px as i32, py as i32), pause_ms: STEP_MS },
        )
    } by {
        lemma_interpolate_between(x1, x2, k, steps);
        lemma_interpolate_between(y1, y2, k, steps);
    }
    lemma_interpolate_between(x1, x2, steps, steps);
    lemma_interpolate_between(y1, y2, steps, steps);
}

} // verus!
