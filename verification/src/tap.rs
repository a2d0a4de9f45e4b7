//! Tap tempo: a BPM estimated from the times at which a key was tapped.
//!
//! Times are nanoseconds on a monotonic clock.
use vstd::prelude::*;
use crate::layout::{Rect, centered, centering_fits, spec_centered};
use crate::text::{push_decimal, spec_decimal};
use crate::parse::{spec_time_signature, time_signature_round_trip, ranged_value, decimal_reads_back};
use vstd::arithmetic::div_mod::lemma_fundamental_div_mod_converse;
use vstd::arithmetic::div_mod::lemma_fundamental_div_mod;

verus! {

/// Nanoseconds in a minute.
pub const NANOS_PER_MINUTE: u128 = 60_000_000_000;

/// The slowest and the fastest tempo that an estimate gives.
pub const MIN_BPM: u16 = 20;
pub const MAX_BPM: u16 = 400;

/// The time from `earlier` to `later`; zero where `later` comes first.
pub open spec fn interval(earlier: u64, later: u64) -> int {
    if later >= earlier { later - earlier } else { 0 }
}

/// The sum of the intervals between consecutive taps.
pub open spec fn total_interval(taps: Seq<u64>) -> int
    decreases taps.len(),
{
    if taps.len() < 2 {
        0
    } else {
        total_interval(taps.drop_last()) + interval(taps[taps.len() - 2], taps[taps.len() - 1])
    }
}

/// `a / b` rounded to the nearest integer, halves upwards.
pub open spec fn round_div(a: int, b: int) -> int {
    a / b + if 2 * (a % b) >= b { 1int } else { 0int }
}

pub open spec fn clamp_bpm(v: int) -> u16 {
    if v < MIN_BPM { MIN_BPM } else if v > MAX_BPM { MAX_BPM } else { v as u16 }
}

/// The tempo of taps `taps`: a minute over the mean interval between them,
/// rounded, and held to `MIN_BPM..=MAX_BPM`; taps that take no time at all
/// give the fastest tempo.  Fewer than two taps give no tempo.
pub open spec fn spec_estimate_bpm(taps: Seq<u64>) -> Option<u16> {
    if taps.len() < 2 {
        None
    } else if total_interval(taps) == 0 {
        Some(MAX_BPM)
    } else {
        Some(clamp_bpm(round_div(NANOS_PER_MINUTE * (taps.len() - 1), total_interval(taps))))
    }
}

/// Estimates the tempo of the taps at times `taps` (see [`spec_estimate_bpm`]).
pub fn estimate_bpm(taps: &[u64]) -> (r: Option<u16>)
    ensures
        r == spec_estimate_bpm(taps@),
        r is Some <==> taps@.len() >= 2,
        r matches Some(b) ==> MIN_BPM <= b <= MAX_BPM,
{
    let n = taps.len();
    if n < 2 {
        return None;
    }
    let mut total: u128 = 0;
    let mut k: usize = 1;
    while k < n
        invariant
            n == taps@.len(),
            1 <= k <= n,
            total == total_interval(taps@.subrange(0, k as int)),
            total <= (k - 1) * (u64::MAX as int),
        decreases n - k,
    {
        proof {
            let prefix = taps@.subrange(0, k + 1);
            assert(prefix.drop_last() =~= taps@.subrange(0, k as int));
        }
        let a = taps[k - 1];
        let b = taps[k];
        let step: u64 = if b >= a { b - a } else { 0 };
        total = total + step as u128;
        k = k + 1;
    }
    proof {
        assert(taps@.subrange(0, n as int) =~= taps@);
    }
    if total == 0 {
        return Some(MAX_BPM);
    }
    let intervals = (n - 1) as u128;
    let numerator = NANOS_PER_MINUTE * intervals;
    let quotient = numerator / total;
    let remainder = numerator % total;
    let rounded = if remainder >= total - remainder { quotient + 1 } else { quotient };
    let bpm = if rounded < MIN_BPM as u128 {
        MIN_BPM
    } else if rounded > MAX_BPM as u128 {
        MAX_BPM
    } else {
        rounded as u16
    };
    Some(bpm)
}


/// Taps that follow one another every `period` nanoseconds.
pub open spec fn evenly_spaced(taps: Seq<u64>, period: int) -> bool {
    forall|k: int| 0 <= k < taps.len() - 1 ==> #[trigger] taps[k + 1] == taps[k] + period
}

proof fn lemma_even_total(taps: Seq<u64>, period: int)
    requires
        taps.len() >= 1,
        period >= 0,
        evenly_spaced(taps, period),
    ensures
        total_interval(taps) == (taps.len() - 1) * period,
    decreases taps.len(),
{
    if taps.len() >= 2 {
        let shorter = taps.drop_last();
        assert forall|k: int| 0 <= k < shorter.len() - 1 implies #[trigger] shorter[k + 1] == shorter[k] + period by {
            assert(taps[k + 1] == taps[k] + period);
        }
        lemma_even_total(shorter, period);
        let k = taps.len() - 2;
        assert(taps[k + 1] == taps[k] + period);
        assert(k * period + period == (k + 1) * period) by (nonlinear_arith);
        assert(interval(taps[k], taps[k + 1]) == period);
        assert(total_interval(taps) == total_interval(shorter) + interval(taps[k], taps[k + 1]));
    } else {
        assert((taps.len() - 1) * period == 0) by (nonlinear_arith)
            requires taps.len() == 1;
    }
}

/// Taps at a steady period give the tempo of that period: a minute over the
/// period, rounded and held to `MIN_BPM..=MAX_BPM`, however many taps there are.
pub proof fn steady_taps_give_their_tempo(taps: Seq<u64>, period: int)
    requires
        taps.len() >= 2,
        period > 0,
        evenly_spaced(taps, period),
    ensures
        spec_estimate_bpm(taps) == Some(clamp_bpm(round_div(NANOS_PER_MINUTE as int, period))),
{
    lemma_even_total(taps, period);
    let m = taps.len() - 1;
    let a = NANOS_PER_MINUTE as int;
    let total = total_interval(taps);
    assert(total == m * period);
    assert(total > 0) by (nonlinear_arith)
        requires total == m * period, m >= 1, period > 0;
    lemma_fundamental_div_mod(a, period);
    let q = a / period;
    let r = a % period;
    assert(0 <= r < period);
    assert(a * m == q * (m * period) + r * m) by (nonlinear_arith)
        requires a == period * q + r;
    assert(0 <= r * m < m * period) by (nonlinear_arith)
        requires 0 <= r < period, m >= 1;
    lemma_fundamental_div_mod_converse(a * m, m * period, q, r * m);
    assert((2 * (r * m) >= m * period) == (2 * r >= period)) by (nonlinear_arith)
        requires m >= 1;
    assert(NANOS_PER_MINUTE * (taps.len() - 1) == a * m);
}


/// How long the progress marker lights up after a tap, in nanoseconds.
pub const FLASH_NANOS: u64 = 150_000_000;

/// A key of the tap-tempo screen.
#[derive(Copy, Clone, Debug, PartialEq, Eq, Structural)]
pub enum Key {
    Char(char),
    Enter,
    Esc,
    Other,
}

/// A key event: the key, whether Control was held, and whether the key was
/// released (rather than pressed or repeated).
#[derive(Copy, Clone, Debug, PartialEq, Eq, Structural)]
pub struct KeyPress {
    pub key: Key,
    pub ctrl: bool,
    pub release: bool,
}

/// What a key event leads to.
#[derive(Copy, Clone, Debug, PartialEq, Eq, Structural)]
pub enum TapOutcome {
    /// The session goes on.
    Continue,
    /// The session is over, with the accepted tempo, or `None` where it was
    /// cancelled or gave no tempo.
    Done(Option<u16>),
}

/// A tap-tempo session: it collects taps until `amount` of them were given,
/// or the user accepts or cancels.
#[derive(Debug)]
pub struct TapSession {
    amount: u8,
    taps: Vec<u64>,
    flash_until: Option<u64>,
}

pub struct TapSessionModel {
    pub amount: u8,
    pub taps: Seq<u64>,
    pub flash_until: Option<u64>,
}

impl View for TapSession {
    type V = TapSessionModel;

    closed spec fn view(&self) -> TapSessionModel {
        TapSessionModel { amount: self.amount, taps: self.taps@, flash_until: self.flash_until }
    }
}

/// Whether the key event is a tap.
pub open spec fn is_tap(press: KeyPress) -> bool {
    !press.release && press.key == Key::Char(' ')
}

/// The session after the key event `press` at time `now`, and its outcome.
pub open spec fn tap_transition(m: TapSessionModel, press: KeyPress, now: u64) -> (TapSessionModel, TapOutcome) {
    if press.release {
        (m, TapOutcome::Continue)
    } else if press.key == Key::Char('c') && press.ctrl {
        (m, TapOutcome::Done(None))
    } else if press.key == Key::Char('q') || press.key == Key::Esc {
        (m, TapOutcome::Done(None))
    } else if press.key == Key::Enter && m.taps.len() >= 2 {
        (m, TapOutcome::Done(spec_estimate_bpm(m.taps)))
    } else if press.key == Key::Char(' ') {
        let next = TapSessionModel {
            amount: m.amount,
            taps: m.taps.push(now),
            flash_until: Some((now + FLASH_NANOS) as u64),
        };
        if next.taps.len() >= m.amount {
            (next, TapOutcome::Done(spec_estimate_bpm(next.taps)))
        } else {
            (next, TapOutcome::Continue)
        }
    } else {
        (m, TapOutcome::Continue)
    }
}

impl TapSession {
    /// A session that accepts the tempo after `amount` taps.
    pub fn new(amount: u8) -> (r: TapSession)
        ensures
            r@.amount == amount,
            r@.taps == Seq::<u64>::empty(),
            r@.flash_until is None,
    {
        TapSession { amount, taps: Vec::new(), flash_until: None }
    }

    /// Handles the key event `press` at time `now`.
    pub fn handle_key(&mut self, press: KeyPress, now: u64) -> (r: TapOutcome)
        requires
            is_tap(press) ==> now + FLASH_NANOS <= u64::MAX,
            is_tap(press) ==> old(self)@.taps.len() < usize::MAX,
        ensures
            (final(self)@, r) == tap_transition(old(self)@, press, now),
    {
        if press.release {
            return TapOutcome::Continue;
        }
        match press.key {
            Key::Char('c') if press.ctrl => TapOutcome::Done(None),
            Key::Char('q') | Key::Esc => TapOutcome::Done(None),
            Key::Enter if self.taps.len() >= 2 => TapOutcome::Done(estimate_bpm(self.taps.as_slice())),
            Key::Char(' ') => {
                self.taps.push(now);
                self.flash_until = Some(now + FLASH_NANOS);
                if self.taps.len() >= self.amount as usize {
                    TapOutcome::Done(estimate_bpm(self.taps.as_slice()))
                } else {
                    TapOutcome::Continue
                }
            },
            _ => TapOutcome::Continue,
        }
    }

    /// The number of taps needed.
    pub fn amount(&self) -> (r: u8)
        ensures
            r == self@.amount,
    {
        self.amount
    }

    /// The number of taps so far.
    pub fn tap_count(&self) -> (r: usize)
        ensures
            r == self@.taps.len(),
    {
        self.taps.len()
    }

    /// The time until which the progress marker lights up.
    pub fn flash_until(&self) -> (r: Option<u64>)
        ensures
            r == self@.flash_until,
    {
        self.flash_until
    }

    /// The tempo of the taps so far.
    pub fn estimated_bpm(&self) -> (r: Option<u16>)
        ensures
            r == spec_estimate_bpm(self@.taps),
    {
        estimate_bpm(self.taps.as_slice())
    }
}

/// Whether the progress marker is lit at time `now`.
pub fn marker_lit(flash_until: Option<u64>, now: u64) -> (r: bool)
    ensures
        r == (flash_until matches Some(until) && now < until),
{
    match flash_until {
        Some(until) => now < until,
        None => false,
    }
}

/// The progress line: one mark per needed tap, `●` for those given and `○`
/// for the rest.
pub open spec fn spec_progress(tap_count: int, amount: int) -> Seq<char> {
    Seq::new(amount as nat, |i: int| if i < tap_count { '●' } else { '○' })
}

pub fn progress_marks(tap_count: usize, amount: u8) -> (r: String)
    ensures
        r@ == spec_progress(tap_count as int, amount as int),
{
    let mut out = String::new();
    let mut i: u8 = 0;
    while i < amount
        invariant
            i <= amount,
            out@ == spec_progress(tap_count as int, i as int),
        decreases amount - i,
    {
        proof {
            reveal_strlit("●");
            reveal_strlit("○");
        }
        if (i as usize) < tap_count {
            out.append("●");
        } else {
            out.append("○");
        }
        assert(out@ =~= spec_progress(tap_count as int, i + 1));
        i = i + 1;
    }
    out
}

/// The status line of the tap-tempo screen.
pub open spec fn spec_tap_status(tap_count: int, amount: u8, bpm: Option<u16>, numerator: u8, denominator: u8) -> Seq<char> {
    let shown = if tap_count < amount { tap_count } else { amount as int };
    "Taps: "@ + spec_decimal(shown as nat) + "/"@ + spec_decimal(amount as nat)
        + "   BPM: "@ + (match bpm { Some(b) => spec_decimal(b as nat), None => "--"@ })
        + "   Meter: "@ + spec_decimal(numerator as nat) + "/"@ + spec_decimal(denominator as nat)
}

pub fn tap_status(tap_count: usize, amount: u8, bpm: Option<u16>, numerator: u8, denominator: u8) -> (r: String)
    ensures
        r@ == spec_tap_status(tap_count as int, amount, bpm, numerator, denominator),
{
    let shown: u8 = if tap_count < amount as usize { tap_count as u8 } else { amount };
    let mut out = String::from_str("Taps: ");
    push_decimal(&mut out, shown as u64);
    out.append("/");
    push_decimal(&mut out, amount as u64);
    out.append("   BPM: ");
    match bpm {
        Some(b) => push_decimal(&mut out, b as u64),
        None => out.append("--"),
    }
    out.append("   Meter: ");
    push_decimal(&mut out, numerator as u64);
    out.append("/");
    push_decimal(&mut out, denominator as u64);
    out
}

/// The panel of the tap-tempo screen: at most 58 by 7 cells, centred.
pub open spec fn spec_tap_panel(area: Rect) -> Rect {
    spec_centered(area, 58, 7)
}

/// What the tap-tempo screen shows in `area`.
pub struct TapScreen {
    pub panel: Rect,
    pub status: String,
    pub progress: String,
    /// The progress marks light up.
    pub lit: bool,
}

/// The tap-tempo screen for a session with `tap_count` of `amount` taps, the
/// tempo estimated so far, the meter, and whether the marker lights up.
pub fn tap_screen(area: Rect, tap_count: usize, amount: u8, numerator: u8, denominator: u8, estimated_bpm: Option<u16>, lit: bool) -> (r: TapScreen)
    requires
        centering_fits(area, 58, 7),
    ensures
        r.panel == spec_tap_panel(area),
        r.status@ == spec_tap_status(tap_count as int, amount, estimated_bpm, numerator, denominator),
        r.progress@ == spec_progress(if tap_count < amount { tap_count as int } else { amount as int }, amount as int),
        r.lit == lit,
{
    let shown: usize = if tap_count < amount as usize { tap_count } else { amount as usize };
    let progress = progress_marks(shown, amount);
    TapScreen {
        panel: centered(area, 58, 7),
        status: tap_status(tap_count, amount, estimated_bpm, numerator, denominator),
        progress,
        lit,
    }
}


proof fn lemma_shift_total(taps: Seq<u64>, shifted: Seq<u64>, offset: int)
    requires
        taps.len() == shifted.len(),
        forall|k: int| 0 <= k < taps.len() ==> #[trigger] shifted[k] == taps[k] + offset,
    ensures
        total_interval(taps) == total_interval(shifted),
    decreases taps.len(),
{
    if taps.len() >= 2 {
        let n = taps.len();
        assert(shifted[n - 1] == taps[n - 1] + offset);
        assert(shifted[n - 2] == taps[n - 2] + offset);
        lemma_shift_total(taps.drop_last(), shifted.drop_last(), offset);
    }
}

/// The estimate depends on the intervals between the taps only: moving every
/// tap by the same time leaves it unchanged.
pub proof fn estimate_ignores_time_origin(taps: Seq<u64>, shifted: Seq<u64>, offset: int)
    requires
        taps.len() == shifted.len(),
        forall|k: int| 0 <= k < taps.len() ==> #[trigger] shifted[k] == taps[k] + offset,
    ensures
        spec_estimate_bpm(taps) == spec_estimate_bpm(shifted),
{
    lemma_shift_total(taps, shifted, offset);
}


/// The title of the tap-tempo panel.
pub fn tap_title() -> (r: &'static str)
    ensures
        r == " Tap tempo ",
{
    " Tap tempo "
}

/// The first line of the tap-tempo panel: keys and what they do.
pub fn tap_legend() -> (r: Vec<(&'static str, &'static str)>)
    ensures
        r@ == seq![("<Space>", " tap   "), ("<Enter>", " accept   "), ("<Esc>", " cancel")],
{
    let r = vec![("<Space>", " tap   "), ("<Enter>", " accept   "), ("<Esc>", " cancel")];
    assert(r@ =~= seq![("<Space>", " tap   "), ("<Enter>", " accept   "), ("<Esc>", " cancel")]);
    r
}


/// A tap appends its time to the taps and lights the marker for
/// `FLASH_NANOS`.  The tap that brings the count to `amount` ends the session
/// with the tempo of all taps, that one included, which for two taps or more
/// is a tempo in `MIN_BPM..=MAX_BPM`; any other tap lets it go on.
pub proof fn tap_completes_with_all_taps(m: TapSessionModel, press: KeyPress, now: u64)
    requires
        is_tap(press),
    ensures
        tap_transition(m, press, now).0 == (TapSessionModel {
            amount: m.amount,
            taps: m.taps.push(now),
            flash_until: Some((now + FLASH_NANOS) as u64),
        }),
        tap_transition(m, press, now).0.flash_until == Some((now + 150_000_000) as u64),
        m.taps.len() + 1 >= m.amount ==> tap_transition(m, press, now).1 == TapOutcome::Done(spec_estimate_bpm(m.taps.push(now))),
        m.taps.len() + 1 < m.amount ==> tap_transition(m, press, now).1 == TapOutcome::Continue,
        m.taps.len() + 1 >= m.amount && m.taps.len() >= 1 ==> (tap_transition(m, press, now).1 matches TapOutcome::Done(Some(b))
            && MIN_BPM <= b <= MAX_BPM),
{
}

/// Enter accepts the tempo of the taps so far once there are two of them;
/// before that, and on a release, nothing changes; `q`, `Esc` and Control-C
/// cancel the session without a tempo.
pub proof fn accept_and_cancel(m: TapSessionModel, press: KeyPress, now: u64)
    ensures
        press.release ==> tap_transition(m, press, now) == (m, TapOutcome::Continue),
        !press.release && press.key == Key::Enter && m.taps.len() >= 2
            ==> tap_transition(m, press, now) == (m, TapOutcome::Done(spec_estimate_bpm(m.taps))),
        !press.release && press.key == Key::Enter && m.taps.len() < 2
            ==> tap_transition(m, press, now) == (m, TapOutcome::Continue),
        !press.release && (press.key == Key::Esc || press.key == Key::Char('q') || (press.key == Key::Char('c') && press.ctrl))
            ==> tap_transition(m, press, now) == (m, TapOutcome::Done(None)),
{
}

/// Two or more taps always give a tempo, in `MIN_BPM..=MAX_BPM`; fewer give none.
pub proof fn estimate_exists_from_two_taps(taps: Seq<u64>)
    ensures
        taps.len() >= 2 <==> spec_estimate_bpm(taps) is Some,
        spec_estimate_bpm(taps) matches Some(b) ==> 20 <= b <= 400,
{
}


proof fn lemma_round_div_nearest(x: int, t: int)
    requires
        x >= 0,
        t > 0,
    ensures
        2 * round_div(x, t) * t <= 2 * x + t,
        2 * x + t < 2 * (round_div(x, t) + 1) * t,
        round_div(x, t) >= 0,
{
    lemma_fundamental_div_mod(x, t);
    let q = x / t;
    let r = x % t;
    assert(0 <= r < t);
    assert(q >= 0) by (nonlinear_arith)
        requires x == t * q + r, 0 <= r < t, x >= 0, t > 0;
    if 2 * r >= t {
        assert(2 * (q + 1) * t <= 2 * x + t) by (nonlinear_arith)
            requires x == t * q + r, 2 * r >= t;
        assert(2 * x + t < 2 * (q + 2) * t) by (nonlinear_arith)
            requires x == t * q + r, r < t, r >= 0, t > 0;
    } else {
        assert(2 * q * t <= 2 * x + t) by (nonlinear_arith)
            requires x == t * q + r, r >= 0, t > 0;
        assert(2 * x + t < 2 * (q + 1) * t) by (nonlinear_arith)
            requires x == t * q + r, 2 * r < t;
    }
}

/// The estimate is the whole tempo nearest to a minute over the mean interval
/// (halves up), held to `MIN_BPM..=MAX_BPM`.  With `m` intervals taking `total`
/// nanoseconds in all, the tempo `b` satisfies
/// `b - 1/2 <= 60e9 * m / total < b + 1/2`, except that at the bounds only
/// the inner inequality holds.
pub proof fn estimate_is_nearest_tempo(taps: Seq<u64>)
    requires
        taps.len() >= 2,
        total_interval(taps) > 0,
    ensures
        spec_estimate_bpm(taps) matches Some(b) && ({
            let x = 60_000_000_000 * (taps.len() - 1);
            let t = total_interval(taps);
            &&& 20 <= b <= 400
            &&& b > 20 ==> 2 * b * t <= 2 * x + t
            &&& b < 400 ==> 2 * x + t < 2 * (b + 1) * t
        }),
{
    let x = 60_000_000_000 * (taps.len() - 1);
    let t = total_interval(taps);
    lemma_round_div_nearest(x, t);
    let v = round_div(x, t);
    let b = clamp_bpm(v);
    if v < 20 {
        assert(2 * x + t < 2 * (20 + 1) * t) by (nonlinear_arith)
            requires 2 * x + t < 2 * (v + 1) * t, v < 20, t > 0;
    } else if v > 400 {
        assert(2 * 400 * t <= 2 * x + t) by (nonlinear_arith)
            requires 2 * v * t <= 2 * x + t, v > 400, t > 0;
    }
}

/// Taps that take no time at all give the fastest tempo.
pub proof fn instant_taps_give_the_fastest_tempo(taps: Seq<u64>)
    requires
        taps.len() >= 2,
        total_interval(taps) == 0,
    ensures
        spec_estimate_bpm(taps) == Some(400u16),
{
}


/// For taps in time order the intervals add up to the time from the first
/// tap to the last.
pub proof fn ordered_taps_span(taps: Seq<u64>)
    requires
        taps.len() >= 1,
        forall|k: int| 0 <= k < taps.len() - 1 ==> #[trigger] taps[k] <= taps[k + 1],
    ensures
        total_interval(taps) == taps[taps.len() - 1] - taps[0],
    decreases taps.len(),
{
    if taps.len() >= 2 {
        let shorter = taps.drop_last();
        assert forall|k: int| 0 <= k < shorter.len() - 1 implies #[trigger] shorter[k] <= shorter[k + 1] by {
            assert(taps[k] <= taps[k + 1]);
        }
        ordered_taps_span(shorter);
        let k = taps.len() - 2;
        assert(taps[k] <= taps[k + 1]);
    }
}


/// The status line starts with the number of taps given, at most the number
/// needed, and ends with the meter as the time signature it came from.
pub proof fn tap_status_fields(tap_count: int, amount: u8, bpm: Option<u16>, numerator: u8, denominator: u8)
    requires
        tap_count >= 0,
    ensures
        ({
            let text = spec_tap_status(tap_count, amount, bpm, numerator, denominator);
            let shown = spec_decimal(if tap_count < amount { tap_count as nat } else { amount as nat });
            let meter = spec_decimal(numerator as nat) + seq!['/'] + spec_decimal(denominator as nat);
            &&& text.subrange(6, 6 + shown.len() as int) == shown
            &&& ranged_value(shown, 0, amount as int) == Some(if tap_count < amount { tap_count } else { amount as int })
            &&& text.subrange(text.len() - meter.len(), text.len() as int) == meter
            &&& (numerator >= 1 && denominator >= 1 ==> spec_time_signature(meter) == Some((numerator, denominator)))
        }),
{
    reveal_strlit("Taps: ");
    reveal_strlit("/");
    assert("Taps: "@.len() == 6);
    assert("/"@ =~= seq!['/']);
    let text = spec_tap_status(tap_count, amount, bpm, numerator, denominator);
    let n = if tap_count < amount { tap_count as nat } else { amount as nat };
    let shown = spec_decimal(n);
    let meter = spec_decimal(numerator as nat) + seq!['/'] + spec_decimal(denominator as nat);
    assert(text.subrange(6, 6 + shown.len() as int) =~= shown);
    assert(text.subrange(text.len() - meter.len(), text.len() as int) =~= meter);
    decimal_reads_back(n, 0, amount as int);
    if numerator >= 1 && denominator >= 1 {
        time_signature_round_trip(numerator, denominator);
    }
}

/// The progress line has one mark per needed tap; the first `tap_count` of
/// them are filled and the rest hollow.
pub proof fn progress_marks_count(tap_count: int, amount: int)
    requires
        amount >= 0,
    ensures
        spec_progress(tap_count, amount).len() == amount,
        forall|i: int| 0 <= i < amount ==> (#[trigger] spec_progress(tap_count, amount)[i] == '●') == (i < tap_count),
        forall|i: int| 0 <= i < amount ==> (spec_progress(tap_count, amount)[i] == '●' || #[trigger] spec_progress(tap_count, amount)[i] == '○'),
{
}

} // verus!
