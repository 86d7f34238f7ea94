//! TDMA time: hyperframe, multiframe, frame and timeslot.
//!
//! A frame has 4 timeslots, a multiframe 18 frames, a hyperframe 60 multiframes, and the
//! hyperframe number has 16 bits. Time as a number counts timeslots; it starts over with the
//! hyperframe number.

use vstd::arithmetic::div_mod::*;
use vstd::prelude::*;

use crate::text;

verus! {

/// Convert a number of hyperframes to timeslots.
pub fn hyperframes(h: i32) -> (slots: i32)
    requires
        i32::MIN <= h * 4320 <= i32::MAX,
    ensures
        slots == h * 4320,
{
    h * 4320
}

/// Convert a number of multiframes to timeslots.
pub fn multiframes(m: i32) -> (slots: i32)
    requires
        i32::MIN <= m * 72 <= i32::MAX,
    ensures
        slots == m * 72,
{
    m * 72
}

/// Convert a number of frames to timeslots.
pub fn frames(f: i32) -> (slots: i32)
    requires
        i32::MIN <= f * 4 <= i32::MAX,
    ensures
        slots == f * 4,
{
    f * 4
}

#[derive(Clone, Copy, PartialEq, Eq, Structural)]
pub struct TdmaTime {
    /// Timeslot, from 1 to 4
    pub t: u8,
    /// Frame number, from 1 to 18
    pub f: u8,
    /// Multiframe number, from 1 to 60
    pub m: u8,
    /// Hyperframe number, from 0 to 0xFFFF
    pub h: u16,
}

impl Default for TdmaTime {
    /// Returns the default TdmaTime of 0/1/1/1
    fn default() -> (time: TdmaTime)
        ensures
            time == (TdmaTime { h: 0, m: 1, f: 1, t: 1 }),
    {
        TdmaTime { h: 0, m: 1, f: 1, t: 1 }
    }
}

/// `std::fmt::Formatter`, which takes the text of a value.
#[verifier::external_type_specification]
#[verifier::external_body]
pub struct ExFormatter<'a>(std::fmt::Formatter<'a>);

/// `std::fmt::Error`: the text could not be taken.
#[verifier::external_type_specification]
#[verifier::external_body]
pub struct ExFmtError(std::fmt::Error);

/// `Formatter::write_str` of the standard library: it hands a text to what the formatter writes
/// to. Nothing is said of the result: whether the text is taken is up to that.
pub assume_specification<'a>[ std::fmt::Formatter::<'a>::write_str ](
    this: &mut std::fmt::Formatter<'a>,
    data: &str,
) -> std::fmt::Result;

impl std::fmt::Debug for TdmaTime {
    /// Write the time as a log shows it. The one thing that is done to the formatter is that it is
    /// handed that text, and the result is what it answers.
    fn fmt(&self, f: &mut std::fmt::Formatter<'_>) -> (result: std::fmt::Result)
        ensures
            exists|to: &mut std::fmt::Formatter<'_>, text: &str|
                {
                    &&& *to == *old(f)
                    &&& *final(to) == *final(f)
                    &&& text@ == self.shown()
                    &&& #[trigger] call_ensures(std::fmt::Formatter::write_str, (to, text), result)
                },
    {
        let shown: String = self.to_string();
        let text: &str = shown.as_str();
        assert(text@ == self.shown());
        f.write_str(text)
    }
}

/// Value of i32 time where it wraps back to 0.
pub const TIME_INT_WRAP: i32 = 283_115_520;

/// The distance from `b` to `a` on the circle of times, which may be counted either way round:
/// the number nearest to 0 that differs from `a - b` by whole turns.
pub open spec fn wrapped_difference(a: int, b: int) -> int {
    (a - b + TIME_INT_WRAP / 2) % (TIME_INT_WRAP as int) - TIME_INT_WRAP / 2
}

/// Difference between two int times, handling wrap-around of hyperframe number.
pub fn time_int_diff(a: i32, b: i32) -> (diff: i32)
    requires
        i32::MIN <= a - b <= i32::MAX,
    ensures
        diff == wrapped_difference(a as int, b as int),
        -TIME_INT_WRAP / 2 <= diff < TIME_INT_WRAP / 2,
{
    let mut diff: i32 = a - b;
    let half: i32 = TIME_INT_WRAP / 2;
    while diff < -half
        invariant
            half == 141_557_760,
            wrapped_difference(a as int, b as int) == wrapped_difference(diff as int, 0),
        decreases half - diff,
    {
        diff = diff + TIME_INT_WRAP;
    }
    while diff >= half
        invariant
            half == 141_557_760,
            -half <= diff,
            wrapped_difference(a as int, b as int) == wrapped_difference(diff as int, 0),
        decreases diff + half,
    {
        diff = diff - TIME_INT_WRAP;
    }
    diff
}

impl TdmaTime {
    /// The fields are in the ranges that the air interface gives them.
    pub open spec fn valid(self) -> bool {
        1 <= self.t <= 4 && 1 <= self.f <= 18 && 1 <= self.m <= 60
    }

    /// The timeslots from 0/1/1/1 up to this time.
    pub open spec fn slots(self) -> int {
        (self.t - 1) + 4 * (self.f - 1) + 72 * (self.m - 1) + 4320 * self.h
    }

    /// The time that many timeslots after 0/1/1/1, or before it, on the circle of times.
    pub open spec fn at(slots: int) -> TdmaTime {
        TdmaTime {
            t: (slots % 4 + 1) as u8,
            f: (slots / 4 % 18 + 1) as u8,
            m: (slots / 72 % 60 + 1) as u8,
            h: (slots / 4320 % 65536) as u16,
        }
    }

    /// The time as a log shows it: hyperframe/multiframe/frame/timeslot.
    pub open spec fn shown(self) -> Seq<char> {
        text::padded(text::decimal(self.h as nat), 5, ' ') + "/"@ + text::padded(
            text::decimal(self.m as nat),
            2,
            '0',
        ) + "/"@ + text::padded(text::decimal(self.f as nat), 2, '0') + "/"@ + text::decimal(
            self.t as nat,
        )
    }

    /// The time as a log shows it.
    pub fn to_string(&self) -> (text: String)
        ensures
            text@ == self.shown(),
    {
        let mut text = String::new();
        text::push_padded(&mut text, self.h as u128, 5, ' ');
        text.append("/");
        text::push_padded(&mut text, self.m as u128, 2, '0');
        text.append("/");
        text::push_padded(&mut text, self.f as u128, 2, '0');
        text.append("/");
        text::push_decimal(&mut text, self.t as u128);
        assert(text@ =~= self.shown());
        text
    }

    pub fn is_valid(self) -> (valid: bool)
        ensures
            valid == self.valid(),
    {
        self.t >= 1 && self.t <= 4 && self.f >= 1 && self.f <= 18 && self.m >= 1 && self.m <= 60
    }

    pub fn to_int(self) -> (time: i32)
        ensures
            time == self.slots(),
    {
        (self.t as i32 - 1) + ((self.f as i32 - 1) * 4) + ((self.m as i32 - 1) * 72) + (
        self.h as i32 * 4320)
    }

    /// Converts a i32 time into a TdmaTime,
    /// truncating the hyperframe number if it exceeds 65535
    pub fn from_int(time: i32) -> (result: TdmaTime)
        ensures
            result == TdmaTime::at(time as int),
            result.valid(),
    {
        let t: u8 = (euclid_rem(time, 4) + 1) as u8;
        let f: u8 = (euclid_rem(euclid_div(time, 4), 18) + 1) as u8;
        let m: u8 = (euclid_rem(euclid_div(time, 72), 60) + 1) as u8;
        let h: u16 = euclid_rem(euclid_div(time, 4320), 65536) as u16;
        TdmaTime { t, f, m, h }
    }

    /// Add a number of timeslots to a TdmaTime
    pub fn add_timeslots(self, num_slots: i32) -> (time: TdmaTime)
        requires
            i32::MIN <= self.slots() + num_slots <= i32::MAX,
        ensures
            time == TdmaTime::at(self.slots() + num_slots),
            time.valid(),
    {
        TdmaTime::from_int(self.to_int() + num_slots)
    }

    /// Difference between two TdmaTimes in timeslots
    pub fn diff(self, b: Self) -> (slots: i32)
        ensures
            slots == wrapped_difference(self.slots(), b.slots()),
    {
        time_int_diff(self.to_int(), b.to_int())
    }

    /// Age of this TdmaTime compared to now
    pub fn age(self, now: TdmaTime) -> (slots: i32)
        ensures
            slots == wrapped_difference(now.slots(), self.slots()),
    {
        now.diff(self)
    }

    /// The timeslots from here to the next timeslot `ts` of a frame.
    pub open spec fn slots_up_to(self, ts: u8) -> int {
        (ts + 4 - self.t) % 4
    }

    /// Round this time up to the next occurrence for the given timeslot
    /// If already the right timeslot, time remains unchanged
    pub fn forward_to_timeslot(self, ts: u8) -> (time: TdmaTime)
        requires
            self.t <= ts + 4 <= u8::MAX,
        ensures
            time == TdmaTime::at(self.slots() + self.slots_up_to(ts)),
            time.valid(),
    {
        let slots_to_add: i32 = ((ts + 4 - self.t) % 4) as i32;
        self.add_timeslots(slots_to_add)
    }

    /// Returns true if this DL timeslot should contain a mandatory BSCH (SYNC) block
    pub fn is_mandatory_bsch(&self) -> (mandatory: bool)
        requires
            self.f == 18 ==> self.m < 255,
        ensures
            mandatory <==> self.f == 18 && self.t == 4 - (self.m + 1) % 4,
    {
        self.f == 18 && self.t == 4 - ((self.m + 1) % 4)
    }

    /// Returns true if this DL timeslot should contain a mandatory BNCH (broadcast) block
    pub fn is_mandatory_bnch(&self) -> (mandatory: bool)
        requires
            self.f == 18 ==> self.m < 253,
        ensures
            mandatory <==> self.f == 18 && self.t == 4 - (self.m + 3) % 4,
    {
        self.f == 18 && self.t == 4 - ((self.m + 3) % 4)
    }

    /// Returns true if this UL timeslot should contain a mandatory CLCH (Common Linearization) block
    pub fn is_mandatory_clch(&self) -> (mandatory: bool)
        requires
            self.f == 18 ==> self.m < 255,
        ensures
            mandatory <==> self.f == 18 && self.t == 4 - (self.m + 1) % 4,
    {
        self.f == 18 && self.t == 4 - ((self.m + 1) % 4)
    }

    /// Monotonic multiframe index (0-based) across hyperframes: 60 multiframes per hyperframe.
    /// Used for energy-economy monitoring-window scheduling.
    pub fn multiframe_index(self) -> (index: u32)
        ensures
            index == (if self.m == 0 {
                0
            } else {
                self.m - 1
            }) + 60 * self.h,
    {
        (self.m as u32).saturating_sub(1) + (self.h as u32) * 60
    }

    /// The frame's place in its hyperframe, counted from 0.
    pub open spec fn frame_index(self) -> int {
        (if self.m == 0 {
            0
        } else {
            self.m - 1
        }) * 18 + (if self.f == 0 {
            0
        } else {
            self.f - 1
        })
    }

    /// The place in its hyperframe of the frame that the monitoring starts in, counted from 0.
    pub open spec fn window_start(monitoring_frame: u8, monitoring_multiframe: u8) -> int {
        (monitoring_multiframe - 1) * 18 + (monitoring_frame - 1)
    }

    /// A monitoring window can be told by these parameters.
    pub open spec fn is_window(monitoring_frame: u8, monitoring_multiframe: u8, cycle_len: u8) -> bool {
        cycle_len != 0 && 1 <= monitoring_frame <= 18 && 1 <= monitoring_multiframe <= 60
    }

    /// The terminal is awake in this frame: it is a whole number of cycles away from the frame
    /// that the monitoring starts in.
    pub open spec fn monitored(
        self,
        monitoring_frame: u8,
        monitoring_multiframe: u8,
        cycle_len: u8,
    ) -> bool {
        &&& TdmaTime::is_window(monitoring_frame, monitoring_multiframe, cycle_len)
        &&& (self.frame_index() - TdmaTime::window_start(monitoring_frame, monitoring_multiframe))
            % (cycle_len as int) == 0
    }

    /// True if this slot falls inside an energy-economy MS's downlink monitoring window, i.e. the
    /// MS (granted `EnergySavingMode` Eg1..Eg7) is awake to receive on the MCCH at this instant.
    ///
    /// Per ETSI EN 300 392-2 clause 23.7.6 / Table 23.9 the energy-economy cycle is counted in
    /// **TDMA frames, not multiframes**: from the start point (`monitoring_frame`, `monitoring_
    /// multiframe`) the MS wakes for one frame, then sleeps `cycle_len - 1` frames, and repeats —
    /// EG1 = wake every 2 frames, EG2 every 3, EG3 every 6. The absolute TDMA-frame index within a
    /// hyperframe is `(m-1)*18 + (f-1)`; the MS is awake when that index is congruent (mod
    /// `cycle_len`) to the start point's index. Every supported cycle length (2, 3, 6) divides the
    /// 1080-frame hyperframe, so the phase is consistent across hyperframe rollover and the
    /// hyperframe number need not enter the comparison. The check is timeslot-independent so the
    /// whole frame (all 4 timeslots) is "open" — this absorbs the 1-slot TX-ahead skew and the
    /// CMCE→LLC→UMAC latency.
    ///
    /// Returns false for invalid parameters (`cycle_len == 0`, frame out of 1..=18, multiframe out
    /// of 1..=60) so a bad published window never silently gates everything.
    pub fn in_ee_monitoring_window(
        self,
        monitoring_frame: u8,
        monitoring_multiframe: u8,
        cycle_len: u8,
    ) -> (awake: bool)
        ensures
            awake == self.monitored(monitoring_frame, monitoring_multiframe, cycle_len),
    {
        if cycle_len == 0 || monitoring_frame < 1 || monitoring_frame > 18 || monitoring_multiframe
            < 1 || monitoring_multiframe > 60 {
            return false;
        }
        let start_abs: u32 = (monitoring_multiframe as u32 - 1) * 18 + (monitoring_frame as u32
            - 1);
        let cur_abs: u32 = (self.m as u32).saturating_sub(1) * 18 + (self.f as u32).saturating_sub(
            1,
        );
        let cycle: u32 = cycle_len as u32;
        proof {
            lemma_mod_equivalence(cur_abs as int, start_abs as int, cycle as int);
        }
        (cur_abs % cycle) == (start_abs % cycle)
    }
}

/// Division that rounds down.
fn euclid_div(a: i32, b: i32) -> (q: i32)
    requires
        b > 0,
    ensures
        q == a / b,
{
    assert(i32::MIN <= a as int / b as int <= i32::MAX) by (nonlinear_arith)
        requires
            b > 0,
            i32::MIN <= a <= i32::MAX,
    ;
    match a.checked_div_euclid(b) {
        Some(q) => q,
        None => 0,
    }
}

/// The remainder of a division that rounds down, which is never negative.
fn euclid_rem(a: i32, b: i32) -> (r: i32)
    requires
        b > 0,
    ensures
        r == a % b,
        0 <= r < b,
{
    match a.checked_rem_euclid(b) {
        Some(r) => r,
        None => 0,
    }
}

/// Times and the numbers below [`TIME_INT_WRAP`] stand for each other one to one, and every other
/// number stands for the time of its remainder.
pub proof fn law_time_and_number_agree(time: TdmaTime, n: int)
    ensures
        time.valid() ==> TdmaTime::at(time.slots()) == time && 0 <= time.slots() < TIME_INT_WRAP,
        TdmaTime::at(n).valid(),
        TdmaTime::at(n).slots() == n % (TIME_INT_WRAP as int),
{
    lemma_place_values(n);
    if time.valid() {
        lemma_fields_of_slots(time);
    }
}

/// A number of timeslots is made up of its timeslot, frame, multiframe and hyperframe.
proof fn lemma_place_values(n: int)
    ensures
        n % 4 + 4 * (n / 4 % 18) + 72 * (n / 72 % 60) + 4320 * (n / 4320 % 65536) == n % 283_115_520,
{
    assert(n / 4 / 18 == n / 72);
    assert(n / 72 / 60 == n / 4320);
    assert(n / 4320 / 65536 == n / 283_115_520);
}

/// The fields of a time are found in its number of timeslots.
proof fn lemma_fields_of_slots(time: TdmaTime)
    requires
        time.valid(),
    ensures
        TdmaTime::at(time.slots()) == time,
        0 <= time.slots() < TIME_INT_WRAP,
{
    let x = time.slots();
    let (t, f, m, h) = (time.t - 1, time.f - 1, time.m - 1, time.h as int);
    lemma_fundamental_div_mod_converse(x, 4, f + 18 * m + 1080 * h, t);
    lemma_fundamental_div_mod_converse(x, 72, m + 60 * h, t + 4 * f);
    lemma_fundamental_div_mod_converse(x, 4320, h, t + 4 * f + 72 * m);
    lemma_fundamental_div_mod_converse(f + 18 * m + 1080 * h, 18, m + 60 * h, f);
    lemma_fundamental_div_mod_converse(m + 60 * h, 60, h, m);
    lemma_fundamental_div_mod_converse(h, 65536, 0, h);
}

/// What was added is the difference, over the wrap too, as long as it is less than half a turn.
pub proof fn law_difference_of_added(time: TdmaTime, n: int)
    requires
        -TIME_INT_WRAP / 2 <= n < TIME_INT_WRAP / 2,
    ensures
        wrapped_difference(TdmaTime::at(time.slots() + n).slots(), time.slots()) == n,
        n != -TIME_INT_WRAP / 2 ==> wrapped_difference(
            time.slots(),
            TdmaTime::at(time.slots() + n).slots(),
        ) == -n,
{
    let x = time.slots() + n;
    law_time_and_number_agree(time, x);
    let (wrap, half) = (283_115_520int, 141_557_760int);
    let turns = x / wrap;
    lemma_fundamental_div_mod(x, wrap);
    lemma_mod_multiples_vanish(-turns, n + half, wrap);
    lemma_mod_multiples_vanish(turns, half - n, wrap);
    lemma_small_mod((n + half) as nat, wrap as nat);
    if n != -half {
        lemma_small_mod((half - n) as nat, wrap as nat);
    }
}

/// Adding and then taking away the same number of timeslots leads back, and adding twice is
/// adding the sum.
pub proof fn law_adding_composes(time: TdmaTime, n: int, k: int)
    ensures
        TdmaTime::at(TdmaTime::at(time.slots() + n).slots() + k) == TdmaTime::at(
            time.slots() + n + k,
        ),
        time.valid() ==> TdmaTime::at(TdmaTime::at(time.slots() + n).slots() - n) == time,
{
    let x = time.slots() + n;
    law_time_and_number_agree(time, x);
    lemma_at_is_periodic(x % 283_115_520 + k, x / 283_115_520);
    lemma_at_is_periodic(x % 283_115_520 - n, x / 283_115_520);
    assert(x == x % 283_115_520 + 283_115_520 * (x / 283_115_520));
}

/// Whole turns do not change a time.
proof fn lemma_at_is_periodic(n: int, turns: int)
    ensures
        TdmaTime::at(n + 283_115_520 * turns) == TdmaTime::at(n),
{
    let x = n + 283_115_520 * turns;
    lemma_mod_multiples_vanish(70_778_880 * turns, n, 4);
    lemma_hoist_over_denominator(n, 70_778_880 * turns, 4);
    lemma_mod_multiples_vanish(3_932_160 * turns, n / 4, 18);
    lemma_hoist_over_denominator(n, 3_932_160 * turns, 72);
    lemma_mod_multiples_vanish(65_536 * turns, n / 72, 60);
    lemma_hoist_over_denominator(n, 65_536 * turns, 4320);
    lemma_mod_multiples_vanish(turns, n / 4320, 65_536);
}

/// The difference of two times the other way round is its negative, but for times half a turn
/// apart.
pub proof fn law_difference_is_antisymmetric(a: int, b: int)
    ensures
        wrapped_difference(a, b) != -TIME_INT_WRAP / 2 ==> wrapped_difference(b, a)
            == -wrapped_difference(a, b),
{
}

/// Going forward to a timeslot ends in it, takes less than a frame, and goes nowhere from that
/// timeslot itself.
pub proof fn law_forward_reaches_the_timeslot(time: TdmaTime, ts: u8)
    requires
        time.valid(),
        1 <= ts <= 4,
    ensures
        TdmaTime::at(time.slots() + time.slots_up_to(ts)).t == ts,
        0 <= time.slots_up_to(ts) < 4,
        time.t == ts ==> TdmaTime::at(time.slots() + time.slots_up_to(ts)) == time,
{
    law_time_and_number_agree(time, 0);
}

/// In frame 18 one timeslot is the synchronisation block's, and another one the broadcast block's.
pub proof fn law_mandatory_blocks_do_not_meet(time: TdmaTime)
    requires
        time.valid(),
    ensures
        1 <= 4 - (time.m + 1) % 4 <= 4,
        1 <= 4 - (time.m + 3) % 4 <= 4,
        4 - (time.m + 1) % 4 != 4 - (time.m + 3) % 4,
{
}

/// A monitoring window does not depend on the timeslot nor on the hyperframe.
pub proof fn law_window_is_open_for_whole_frames(
    time: TdmaTime,
    other: TdmaTime,
    frame: u8,
    multiframe: u8,
    cycle: u8,
)
    requires
        time.f == other.f,
        time.m == other.m,
    ensures
        time.monitored(frame, multiframe, cycle) == other.monitored(frame, multiframe, cycle),
{
}

/// With a cycle that divides the hyperframe, a terminal is awake in exactly one of any `cycle`
/// frames on end, which the start point tells, and in the same way again from there on: it sleeps
/// through `cycle - 1` frames and is awake in the one after them, over every rollover.
pub proof fn law_window_opens_once_per_cycle(
    time: TdmaTime,
    frame: u8,
    multiframe: u8,
    cycle: u8,
    frames: int,
)
    requires
        TdmaTime::is_window(frame, multiframe, cycle),
        1080int % (cycle as int) == 0,
    ensures
        ({
            let wait = (TdmaTime::window_start(frame, multiframe) - time.slots() / 4) % (
            cycle as int);
            &&& 0 <= wait < cycle
            &&& 0 <= frames < cycle ==> (TdmaTime::at(time.slots() + 4 * frames).monitored(
                frame,
                multiframe,
                cycle,
            ) <==> frames == wait)
        }),
        TdmaTime::at(time.slots() + 4 * (frames + cycle)).monitored(frame, multiframe, cycle)
            == TdmaTime::at(time.slots() + 4 * frames).monitored(frame, multiframe, cycle),
{
    let c = cycle as int;
    let ahead = TdmaTime::window_start(frame, multiframe) - time.slots() / 4;
    lemma_monitored(time.slots() + 4 * frames, frame, multiframe, cycle);
    lemma_monitored(time.slots() + 4 * (frames + cycle), frame, multiframe, cycle);
    lemma_mod_multiples_vanish(1, frames - ahead, c);
    lemma_mod_bound(ahead, c);
    lemma_fundamental_div_mod(ahead, c);
    if 0 <= frames < c {
        let wait = ahead % c;
        lemma_mod_multiples_vanish(-(ahead / c), frames - wait, c);
        assert(c * -(ahead / c) == -(c * (ahead / c))) by (nonlinear_arith);
        if frames >= wait {
            lemma_small_mod((frames - wait) as nat, c as nat);
        } else {
            lemma_mod_multiples_vanish(1, frames - wait, c);
            lemma_small_mod((frames - wait + c) as nat, c as nat);
        }
    }
}

/// The terminal is awake in the frames that are whole cycles away from the start point, whichever
/// hyperframe they are in.
proof fn lemma_monitored(n: int, frame: u8, multiframe: u8, cycle: u8)
    requires
        TdmaTime::is_window(frame, multiframe, cycle),
        1080int % (cycle as int) == 0,
    ensures
        TdmaTime::at(n).monitored(frame, multiframe, cycle) <==> (n / 4 - TdmaTime::window_start(
            frame,
            multiframe,
        )) % (cycle as int) == 0,
{
    let c = cycle as int;
    let (d, whole) = (1080int / c, n / 4 / 1080);
    lemma_frame_index(n);
    lemma_fundamental_div_mod(n / 4, 1080);
    lemma_fundamental_div_mod(1080, c);
    assert(1080 * whole == c * (d * whole)) by (nonlinear_arith)
        requires
            1080 == c * d,
    ;
    lemma_mod_multiples_vanish(
        d * whole,
        n / 4 % 1080 - TdmaTime::window_start(frame, multiframe),
        c,
    );
}

/// The place of a frame in its hyperframe.
proof fn lemma_frame_index(n: int)
    ensures
        TdmaTime::at(n).frame_index() == n / 4 % 1080,
{
    let x = n / 4;
    let a = x / 18;
    let (f, m) = (x % 18, a % 60);
    lemma_fundamental_div_mod(n, 4);
    lemma_fundamental_div_mod(x, 18);
    lemma_fundamental_div_mod(a, 60);
    lemma_fundamental_div_mod_converse(n, 72, a, 4 * f + n % 4);
    lemma_fundamental_div_mod_converse(x, 1080, a / 60, 18 * m + f);
    assert(n / 72 == a);
}

/// The multiframe index counts multiframes from 0/1/1/1 on.
pub proof fn law_multiframe_index_counts_multiframes(time: TdmaTime)
    requires
        time.valid(),
    ensures
        (time.m - 1) + 60 * time.h == time.slots() / 72,
{
}

/// The number of a time counts timeslots from 0/1/1/1 on: one for each timeslot, 4 for each frame,
/// 72 for each multiframe and 4320 for each hyperframe that lies between two times.
pub proof fn law_numbers_count_timeslots(a: TdmaTime, b: TdmaTime, m: i32, n: i32)
    requires
        call_ensures(TdmaTime::to_int, (a,), m),
        call_ensures(TdmaTime::to_int, (b,), n),
    ensures
        m == a.slots(),
        m - n == (a.t - b.t) + 4 * (a.f - b.f) + 72 * (a.m - b.m) + 4320 * (a.h - b.h),
        a.t == 1 && a.f == 1 && a.m == 1 && a.h == 0 ==> m == 0,
{
}

/// A number is turned into the one time with a timeslot of 4, a frame of 18 and a multiframe of 60
/// whose number it is, or differs from by whole turns of 65536 hyperframes.
pub proof fn law_a_number_names_one_time(n: i32, time: TdmaTime)
    requires
        call_ensures(TdmaTime::from_int, (n,), time),
    ensures
        1 <= time.t <= 4,
        1 <= time.f <= 18,
        1 <= time.m <= 60,
        (n - time.slots()) % 283_115_520 == 0,
        TIME_INT_WRAP == 4 * 18 * 60 * 65536,
{
    law_time_and_number_agree(time, n as int);
}

/// Adding timeslots leads to the time that lies as many of them on, or back.
pub proof fn law_adding_goes_that_many_timeslots_on(time: TdmaTime, n: i32, later: TdmaTime)
    requires
        call_ensures(TdmaTime::add_timeslots, (time, n), later),
    ensures
        1 <= later.t <= 4,
        1 <= later.f <= 18,
        1 <= later.m <= 60,
        (later.slots() - time.slots() - n) % 283_115_520 == 0,
{
    law_time_and_number_agree(time, time.slots() + n);
}

/// The difference of two times is the number of timeslots from the one to the other, the short way
/// round: adding it to the one leads to the other, and it is less than half a turn.
pub proof fn law_differences_go_the_short_way_round(a: int, b: int)
    ensures
        -141_557_760 <= wrapped_difference(a, b) < 141_557_760,
        (b + wrapped_difference(a, b) - a) % 283_115_520 == 0,
        forall|x: i32, y: i32, d: i32| #[trigger]
            call_ensures(time_int_diff, (x, y), d) ==> d == wrapped_difference(x as int, y as int),
        forall|x: TdmaTime, y: TdmaTime, d: i32| #[trigger]
            call_ensures(TdmaTime::diff, (x, y), d) ==> d == wrapped_difference(
                x.slots(),
                y.slots(),
            ),
        forall|then: TdmaTime, now: TdmaTime, d: i32| #[trigger]
            call_ensures(TdmaTime::age, (then, now), d) ==> d == wrapped_difference(
                now.slots(),
                then.slots(),
            ),
{
    let x = a - b + 141_557_760;
    assert(x == 283_115_520 * (x / 283_115_520) + x % 283_115_520);
    let off = b + wrapped_difference(a, b) - a;
    assert(off == 283_115_520 * (-(x / 283_115_520)));
    lemma_mod_multiples_basic(-(x / 283_115_520), 283_115_520);
}

/// What was added to a time is how much older than the result it is.
pub proof fn law_a_time_ages_by_what_was_added(
    time: TdmaTime,
    n: i32,
    later: TdmaTime,
    age: i32,
    diff: i32,
)
    requires
        -141_557_760 <= n < 141_557_760,
        call_ensures(TdmaTime::add_timeslots, (time, n), later),
        call_ensures(TdmaTime::age, (time, later), age),
        call_ensures(TdmaTime::diff, (later, time), diff),
    ensures
        age == n,
        diff == n,
{
    law_difference_of_added(time, n as int);
}

/// Going forward to a timeslot takes as many timeslots as there are from one to the other within a
/// frame: less than four, and none where it is that timeslot already.
pub proof fn law_forward_takes_less_than_a_frame(time: TdmaTime, ts: u8, later: TdmaTime)
    requires
        call_ensures(TdmaTime::forward_to_timeslot, (time, ts), later),
    ensures
        exists|n: int|
            {
                &&& 0 <= n < 4
                &&& (time.t + n - ts) % 4 == 0
                &&& #[trigger] TdmaTime::at(time.slots() + n) == later
            },
        1 <= ts <= 4 && time.valid() ==> later.t == ts,
        ts == time.t && time.valid() ==> later == time,
        1 <= later.t <= 4,
        1 <= later.f <= 18,
        1 <= later.m <= 60,
{
    let n = time.slots_up_to(ts);
    let k = ts + 4 - time.t;
    lemma_fundamental_div_mod(k, 4);
    lemma_mod_multiples_basic(1 - k / 4, 4);
    assert(time.t + n - ts == (1 - k / 4) * 4);
    assert(TdmaTime::at(time.slots() + n) == later);
    law_time_and_number_agree(time, time.slots() + n);
    if time.valid() && 1 <= ts <= 4 {
        law_forward_reaches_the_timeslot(time, ts);
    }
}

/// A time is valid where its timeslot is one of 4, its frame one of 18 and its multiframe one of
/// 60, counted from 1.
pub proof fn law_valid_times(time: TdmaTime, r: bool)
    requires
        call_ensures(TdmaTime::is_valid, (time,), r),
    ensures
        r <==> 1 <= time.t && time.t <= 4 && 1 <= time.f && time.f <= 18 && 1 <= time.m && time.m
            <= 60,
        r == time.valid(),
{
}

/// The mandatory blocks of frame 18 go round the timeslots from multiframe to multiframe: in the
/// timeslot that makes a remainder of 3 with the multiframe stand the synchronisation block and,
/// on the uplink, the linearisation block; in the one that makes 1 stands the broadcast block. No
/// other frame has any.
pub proof fn law_mandatory_blocks_go_round(time: TdmaTime, bsch: bool, bnch: bool, clch: bool)
    requires
        call_ensures(TdmaTime::is_mandatory_bsch, (&time,), bsch),
        call_ensures(TdmaTime::is_mandatory_bnch, (&time,), bnch),
        call_ensures(TdmaTime::is_mandatory_clch, (&time,), clch),
    ensures
        bsch <==> time.f == 18 && 1 <= time.t <= 4 && (time.m + time.t) % 4 == 3,
        bnch <==> time.f == 18 && 1 <= time.t <= 4 && (time.m + time.t) % 4 == 1,
        clch == bsch,
{
}

/// The multiframe index counts multiframes over the hyperframes, 60 to each.
pub proof fn law_multiframes_are_numbered(time: TdmaTime, index: u32)
    requires
        call_ensures(TdmaTime::multiframe_index, (time,), index),
    ensures
        time.m >= 1 ==> index == 60 * time.h + time.m - 1,
        time.m == 0 ==> index == 60 * time.h,
        time.valid() ==> index == time.slots() / 72,
{
}

/// Numbers of frames, multiframes and hyperframes are numbers of 4, 18 times 4 and 60 times 18
/// times 4 timeslots.
pub proof fn law_units_of_time(n: i32, f: i32, m: i32, h: i32)
    requires
        call_ensures(frames, (n,), f),
        call_ensures(multiframes, (n,), m),
        call_ensures(hyperframes, (n,), h),
    ensures
        f == 4 * n,
        m == 18 * f,
        h == 60 * m,
{
}

/// Every start point that exists is one: any frame of 18 in any multiframe of 60, with any cycle
/// that is not zero. In the frame of the start point itself the terminal is awake, in every
/// timeslot and every hyperframe; with anything else as a start point it never is.
pub proof fn law_every_start_point_is_a_window(
    time: TdmaTime,
    frame: u8,
    multiframe: u8,
    cycle: u8,
    awake: bool,
)
    requires
        call_ensures(TdmaTime::in_ee_monitoring_window, (time, frame, multiframe, cycle), awake),
    ensures
        TdmaTime::is_window(frame, multiframe, cycle) <==> 1 <= frame <= 18 && 1 <= multiframe <= 60
            && cycle > 0,
        1 <= frame <= 18 && 1 <= multiframe <= 60 && cycle > 0 && time.f == frame && time.m
            == multiframe ==> awake,
        frame < 1 || frame > 18 || multiframe < 1 || multiframe > 60 || cycle == 0 ==> !awake,
{
    if cycle > 0 {
        lemma_small_mod(0, cycle as nat);
    }
}

/// A terminal that is awake in one frame is awake in another one exactly where the two are a whole
/// number of cycles apart in the hyperframe. (A frame or multiframe of 0 counts as the first.)
pub proof fn law_a_window_opens_every_cycle(
    a: TdmaTime,
    b: TdmaTime,
    frame: u8,
    multiframe: u8,
    cycle: u8,
    awake_in_a: bool,
    awake_in_b: bool,
)
    requires
        call_ensures(TdmaTime::in_ee_monitoring_window, (a, frame, multiframe, cycle), awake_in_a),
        call_ensures(TdmaTime::in_ee_monitoring_window, (b, frame, multiframe, cycle), awake_in_b),
        awake_in_a,
    ensures
        ({
            let am = if a.m == 0 { 1int } else { a.m as int };
            let af = if a.f == 0 { 1int } else { a.f as int };
            let bm = if b.m == 0 { 1int } else { b.m as int };
            let bf = if b.f == 0 { 1int } else { b.f as int };
            awake_in_b <==> (18 * (bm - am) + (bf - af)) % (cycle as int) == 0
        }),
{
    let c = cycle as int;
    let w = TdmaTime::window_start(frame, multiframe);
    let (x, y) = (a.frame_index() - w, b.frame_index() - w);
    assert(x % c == 0);
    lemma_fundamental_div_mod(x, c);
    lemma_mod_multiples_vanish(-(x / c), y, c);
    assert(c * -(x / c) == -(c * (x / c))) by (nonlinear_arith);
    assert((y - x) % c == y % c);
}

/// A time is shown as its hyperframe in five places, its multiframe and its frame in two each, and
/// its timeslot, with strokes between them: reading the numbers gives the time.
pub proof fn law_a_shown_time_reads_back(time: TdmaTime, text: String)
    requires
        time.valid(),
        call_ensures(TdmaTime::to_string, (&time,), text),
    ensures
        text@.len() == 13,
        text@[5] == '/' && text@[8] == '/' && text@[11] == '/',
        exists|n: int|
            #![trigger text@.subrange(n, 5)]
            {
                &&& 0 <= n < 5
                &&& text@.subrange(n, 5) == text::decimal(time.h as nat)
                &&& forall|i: int| 0 <= i < n ==> #[trigger] text@[i] == ' '
            },
        text::spells(text@.subrange(6, 8), time.m as int),
        text::spells(text@.subrange(9, 11), time.f as int),
        text::spells(text@.subrange(12, 13), time.t as int),
        text@ == time.shown(),
{
    reveal_strlit("/");
    let (h, m, f, t) = (time.h as nat, time.m as nat, time.f as nat, time.t as nat);
    lemma_decimal_len(h);
    let hs = text::padded(text::decimal(h), 5, ' ');
    let ms = text::padded(text::decimal(m), 2, '0');
    let fs = text::padded(text::decimal(f), 2, '0');
    lemma_two_digits(m);
    lemma_two_digits(f);
    text::law_decimal_spells_the_number(t);
    lemma_decimal_len(t);
    let n = 5 - text::decimal(h).len();
    assert(text@.subrange(n, 5) =~= text::decimal(h));
    assert(text@.subrange(6, 8) =~= ms);
    assert(text@.subrange(9, 11) =~= fs);
    assert(text@.subrange(12, 13) =~= text::decimal(t));
}

/// How many digits a number up to that of a hyperframe has.
proof fn lemma_decimal_len(n: nat)
    requires
        n <= 65535,
    ensures
        1 <= text::decimal(n).len() <= 5,
        n < 10 ==> text::decimal(n).len() == 1,
        10 <= n < 100 ==> text::decimal(n).len() == 2,
{
    reveal_with_fuel(text::decimal, 6);
}

/// A number of one or two digits in two places spells itself.
proof fn lemma_two_digits(n: nat)
    requires
        n < 100,
    ensures
        text::padded(text::decimal(n), 2, '0').len() == 2,
        text::spells(text::padded(text::decimal(n), 2, '0'), n as int),
{
    lemma_decimal_len(n);
    text::law_decimal_spells_the_number(n);
    let digits = text::padded(text::decimal(n), 2, '0');
    if n < 10 {
        reveal(vstd::arithmetic::power::pow);
        assert(vstd::arithmetic::power::pow(10, 1) == 10) by {
            vstd::arithmetic::power::lemma_pow1(10);
        }
        assert(vstd::arithmetic::power::pow(10, 2) == 10 * vstd::arithmetic::power::pow(10, 1));
        assert(text::decimal(n)[0] as int == 48 + n);
        assert(digits[0] == '0' && digits[1] == text::decimal(n)[0]);
        assert(vstd::arithmetic::power::pow(10, 0) == 1);
    } else {
        assert(digits =~= text::decimal(n));
    }
}

/// Times can be converted, compared and asked about whatever they are; only where a number would
/// leave 32 bits, or a sum the 8 of a field, can they not be reckoned with.
pub proof fn law_times_can_be_reckoned_with(
    time: TdmaTime,
    other: TdmaTime,
    n: i32,
    frame: u8,
    multiframe: u8,
    cycle: u8,
)
    ensures
        call_requires(TdmaTime::is_valid, (time,)),
        call_requires(TdmaTime::to_int, (time,)),
        call_requires(TdmaTime::from_int, (n,)),
        call_requires(TdmaTime::diff, (time, other)),
        call_requires(TdmaTime::age, (time, other)),
        call_requires(TdmaTime::multiframe_index, (time,)),
        call_requires(TdmaTime::to_string, (&time,)),
        call_requires(TdmaTime::in_ee_monitoring_window, (time, frame, multiframe, cycle)),
        i32::MIN <= time.slots() + n <= i32::MAX ==> call_requires(
            TdmaTime::add_timeslots,
            (time, n),
        ),
        time.t <= frame + 4 <= 255 ==> call_requires(TdmaTime::forward_to_timeslot, (time, frame)),
        time.m <= 252 ==> call_requires(TdmaTime::is_mandatory_bsch, (&time,)) && call_requires(
            TdmaTime::is_mandatory_bnch,
            (&time,),
        ) && call_requires(TdmaTime::is_mandatory_clch, (&time,)),
        time.f != 18 ==> call_requires(TdmaTime::is_mandatory_bsch, (&time,)) && call_requires(
            TdmaTime::is_mandatory_bnch,
            (&time,),
        ) && call_requires(TdmaTime::is_mandatory_clch, (&time,)),
{
}

/// Time starts at 0/1/1/1.
pub proof fn law_time_starts_at_the_first_timeslot(time: TdmaTime)
    requires
        call_ensures(TdmaTime::default, (), time),
    ensures
        time.t == 1,
        time.f == 1,
        time.m == 1,
        time.h == 0,
        time.slots() == 0,
{
}

/// Whatever its fields hold, a time is shown as four numbers with strokes between them: the
/// hyperframe behind as many spaces as it takes to fill five places, the multiframe and the frame
/// behind a zero where they have one digit, and the timeslot.
pub proof fn law_a_time_is_shown_by_its_fields(
    time: TdmaTime,
    spaces: Seq<char>,
    m: Seq<char>,
    f: Seq<char>,
)
    requires
        spaces.len() + text::decimal(time.h as nat).len() == 5,
        forall|i: int| 0 <= i < spaces.len() ==> #[trigger] spaces[i] == ' ',
        time.m < 10 ==> m == "0"@ + text::decimal(time.m as nat),
        time.m >= 10 ==> m == text::decimal(time.m as nat),
        time.f < 10 ==> f == "0"@ + text::decimal(time.f as nat),
        time.f >= 10 ==> f == text::decimal(time.f as nat),
    ensures
        time.shown() == spaces + text::decimal(time.h as nat) + "/"@ + m + "/"@ + f + "/"@
            + text::decimal(time.t as nat),
        text::decimal(time.h as nat).len() <= 5,
{
    reveal_strlit("0");
    let h = text::decimal(time.h as nat);
    lemma_decimal_len(time.h as nat);
    lemma_more_digits(time.m as nat);
    lemma_more_digits(time.f as nat);
    assert(text::padded(h, 5, ' ') =~= spaces + h);
    assert(text::padded(text::decimal(time.m as nat), 2, '0') =~= m);
    assert(text::padded(text::decimal(time.f as nat), 2, '0') =~= f);
}

/// A number of a field has one digit below ten, and more from there on.
proof fn lemma_more_digits(n: nat)
    requires
        n <= 255,
    ensures
        n < 10 ==> text::decimal(n).len() == 1,
        n >= 10 ==> text::decimal(n).len() >= 2,
{
    reveal_with_fuel(text::decimal, 4);
}

} // verus!
