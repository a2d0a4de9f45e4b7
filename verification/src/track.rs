//! The bar track: one row of beat segments, separators and the tick marker.
use vstd::prelude::*;
use vstd::arithmetic::div_mod::{lemma_div_is_ordered, lemma_div_multiples_vanish};
use vstd::arithmetic::mul::lemma_mul_inequality;
use vstd::arithmetic::div_mod::lemma_fundamental_div_mod;
use crate::layout::{Rect, sat_add};
use crate::ui::UiState;

verus! {

/// What the track shows in one column, before the tick marker is drawn.
#[derive(Copy, Clone, Debug, PartialEq, Eq, Structural)]
pub enum TrackMark {
    /// Nothing is drawn.
    Blank,
    /// Part of a beat's segment; `current` for the beat that is playing.
    Fill { current: bool },
    /// A separator between beats.
    Bar,
}

/// One row of the track: the marks of the columns `area.x ..`, one per
/// column of the area, then the tick marker drawn over them at `tick_column`.
#[derive(Debug)]
pub struct TrackRow {
    pub marks: Vec<TrackMark>,
    pub tick_column: u16,
    /// The tick marker is highlighted (the accented first tick of the bar).
    pub tick_accent: bool,
}

/// Ticks in a bar.
pub open spec fn track_total(s: UiState) -> int {
    s.bar_beats * s.ticks_per_beat
}

/// The offset of the last column of the area.
pub open spec fn last_column(area: Rect) -> int {
    if area.width == 0 { 0 } else { area.width - 1 }
}

/// The beat that is playing, counted from 0.
pub open spec fn current_beat(s: UiState) -> int {
    if s.beat_in_bar == 0 { 0 } else { s.beat_in_bar - 1 }
}

/// The tick that is playing, counted from 0 at the start of the bar.
pub open spec fn current_tick(s: UiState) -> int {
    current_beat(s) * s.ticks_per_beat + s.tick_in_beat
}

/// The offset of the separator before beat `beat` (after the last beat for
/// `beat == bar_beats`): the bar's ticks spread over the columns.
pub open spec fn separator_offset(area: Rect, s: UiState, beat: int) -> int {
    (beat * s.ticks_per_beat * last_column(area)) / track_total(s)
}

/// The offset of the playing tick, cut to `u16` as a column offset is.
pub open spec fn tick_offset(area: Rect, s: UiState) -> u16 {
    ((current_tick(s) * last_column(area)) / track_total(s)) as u16
}

/// The column of the tick marker: at the playing tick's offset, but not
/// right of the area's last column.
pub open spec fn tick_column(area: Rect, s: UiState) -> int {
    let c = area.x + tick_offset(area, s);
    let last = sat_add(area.x, area.width) - 1;
    if c < last { c } else { last }
}

pub open spec fn tick_accent(s: UiState) -> bool {
    s.accent && s.tick_in_beat == 0 && s.beat_in_bar == 1
}

/// Whether anything is drawn.
pub open spec fn track_drawn(area: Rect, s: UiState) -> bool {
    area.width != 0 && area.height != 0 && s.bar_beats != 0 && s.ticks_per_beat != 0
}

/// Whether the columns of the track stay within `u16`.
pub open spec fn track_fits(area: Rect, s: UiState) -> bool {
    track_drawn(area, s) ==> {
        &&& area.x + area.width <= u16::MAX + 1
        &&& area.x + tick_offset(area, s) <= u16::MAX
    }
}

/// Whether offset `o` lies strictly inside the segment of beat `b`.
pub open spec fn in_segment(area: Rect, s: UiState, b: int, o: int) -> bool {
    &&& 0 <= b < s.bar_beats
    &&& separator_offset(area, s, b) < o < separator_offset(area, s, b + 1)
}

pub open spec fn is_separator(area: Rect, s: UiState, o: int) -> bool {
    exists|b: int| 0 <= b <= s.bar_beats && #[trigger] separator_offset(area, s, b) == o
}

/// The mark at offset `o` of the row.
pub open spec fn row_mark(area: Rect, s: UiState, o: int) -> TrackMark {
    if is_separator(area, s, o) {
        TrackMark::Bar
    } else if exists|b: int| #[trigger] in_segment(area, s, b, o) {
        TrackMark::Fill { current: in_segment(area, s, current_beat(s), o) }
    } else {
        TrackMark::Blank
    }
}

proof fn lemma_product_bound(b: int, t: int, l: int)
    requires
        0 <= b <= 255,
        0 <= t <= 255,
        0 <= l <= 65535,
    ensures
        0 <= b * t <= 65025,
        0 <= b * t * l <= 4261413375,
{
    assert(0 <= b * t <= 65025) by (nonlinear_arith)
        requires 0 <= b <= 255, 0 <= t <= 255;
    assert(0 <= (b * t) * l <= 4261413375) by (nonlinear_arith)
        requires 0 <= b * t <= 65025, 0 <= l <= 65535;
}

/// The separator offsets of all beats, `0 ..= bar_beats`.
fn separator_offsets(area: Rect, s: UiState) -> (r: Vec<u32>)
    requires
        track_drawn(area, s),
    ensures
        r@.len() == s.bar_beats + 1,
        forall|b: int| 0 <= b <= s.bar_beats ==> r@[b] == separator_offset(area, s, b),
{
    let bars = s.bar_beats as u32;
    let tpb = s.ticks_per_beat as u32;
    let last = area.width as u32 - 1;
    proof {
        lemma_product_bound(bars as int, tpb as int, 0);
        assert(bars * tpb >= 1) by (nonlinear_arith)
            requires bars >= 1, tpb >= 1;
    }
    let total = bars * tpb;
    let mut r: Vec<u32> = Vec::new();
    let mut b: u32 = 0;
    while b <= bars
        invariant
            bars == s.bar_beats,
            tpb == s.ticks_per_beat,
            last == last_column(area),
            total == track_total(s),
            total >= 1,
            b <= bars + 1,
            r@.len() == b,
            forall|k: int| 0 <= k < b ==> r@[k] == separator_offset(area, s, k),
        decreases bars + 1 - b,
    {
        proof {
            lemma_product_bound(b as int, tpb as int, last as int);
        }
        r.push(b * tpb * last / total);
        b = b + 1;
    }
    r
}

/// The row that the track draws in `area` for `state`, or `None` where it
/// draws nothing (an empty area, no beats or no ticks per beat).
pub fn track_row(area: Rect, state: UiState) -> (r: Option<TrackRow>)
    requires
        track_fits(area, state),
    ensures
        r is None <==> !track_drawn(area, state),
        r matches Some(row) ==> {
            &&& row.marks@.len() == area.width
            &&& forall|o: int| 0 <= o < area.width ==> #[trigger] row.marks@[o] == row_mark(area, state, o)
            &&& row.tick_column == tick_column(area, state)
            &&& row.tick_accent == tick_accent(state)
            &&& row.tick_accent == (state.accent && state.tick_in_beat == 0 && state.beat_in_bar == 1)
        },
{
    if area.is_empty() || state.bar_beats == 0 || state.ticks_per_beat == 0 {
        return None;
    }
    let seps = separator_offsets(area, state);
    let bars = state.bar_beats as usize;
    let tpb = state.ticks_per_beat as u32;
    let last = area.width as u32 - 1;
    let current_beat_index: u32 = state.beat_in_bar.saturating_sub(1) as u32;
    let mut marks: Vec<TrackMark> = Vec::new();
    let mut o: u32 = 0;
    while o < area.width as u32
        invariant
            track_drawn(area, state),
            seps@.len() == bars + 1,
            bars == state.bar_beats,
            current_beat_index == current_beat(state),
            forall|b: int| 0 <= b <= bars ==> seps@[b] == separator_offset(area, state, b),
            o <= area.width,
            marks@.len() == o,
            forall|k: int| 0 <= k < o ==> #[trigger] marks@[k] == row_mark(area, state, k),
        decreases area.width - o,
    {
        let mut separator = false;
        let mut b: usize = 0;
        while b <= bars
            invariant
                seps@.len() == bars + 1,
                forall|j: int| 0 <= j <= bars ==> seps@[j] == separator_offset(area, state, j),
                bars == state.bar_beats,
                b <= bars + 1,
                separator == exists|j: int| 0 <= j < b && #[trigger] separator_offset(area, state, j) == o,
            decreases bars + 1 - b,
        {
            if seps[b] == o {
                separator = true;
            }
            b = b + 1;
        }
        let mark = if separator {
            TrackMark::Bar
        } else {
            let mut inside = false;
            let mut current = false;
            let mut b: usize = 0;
            while b < bars
                invariant
                    seps@.len() == bars + 1,
                    forall|j: int| 0 <= j <= bars ==> seps@[j] == separator_offset(area, state, j),
                    bars == state.bar_beats,
                    current_beat_index == current_beat(state),
                    b <= bars,
                    inside == exists|j: int| 0 <= j < b && #[trigger] in_segment(area, state, j, o as int),
                    current == (current_beat(state) < b && in_segment(area, state, current_beat(state), o as int)),
                decreases bars - b,
            {
                if seps[b] < o && o < seps[b + 1] {
                    assert(in_segment(area, state, b as int, o as int));
                    inside = true;
                    if b as u32 == current_beat_index {
                        current = true;
                    }
                } else {
                    assert(!in_segment(area, state, b as int, o as int));
                }
                b = b + 1;
            }
            if inside {
                TrackMark::Fill { current }
            } else {
                TrackMark::Blank
            }
        };
        marks.push(mark);
        o = o + 1;
    }
    proof {
        lemma_product_bound(state.bar_beats as int, tpb as int, 0);
        lemma_product_bound(current_beat_index as int, tpb as int, 0);
    }
    let total = state.bar_beats as u32 * tpb;
    let tick: u32 = current_beat_index * tpb + state.tick_in_beat as u32;
    proof {
        assert(tick <= 65025) by (nonlinear_arith)
            requires tick == current_beat_index * tpb + state.tick_in_beat, current_beat_index <= 254,
                tpb <= 255, state.tick_in_beat <= 255;
        assert(tick * last <= 4261413375) by (nonlinear_arith)
            requires tick <= 65025, last <= 65535;
        assert(total >= 1) by (nonlinear_arith)
            requires total == state.bar_beats * tpb, state.bar_beats >= 1, tpb >= 1;
    }
    let offset = #[verifier::truncate] ((tick * last / total) as u16);
    let column = area.x + offset;
    let edge = area.right() - 1;
    Some(TrackRow {
        marks,
        tick_column: if column < edge { column } else { edge },
        tick_accent: state.accent && state.tick_in_beat == 0 && state.beat_in_bar == 1,
    })
}


/// The separators run from the first column of the track to its last, in
/// the order of the beats.
pub proof fn track_separators_ordered(area: Rect, s: UiState, b1: int, b2: int)
    requires
        track_drawn(area, s),
        0 <= b1 <= b2 <= s.bar_beats,
    ensures
        separator_offset(area, s, b1) <= separator_offset(area, s, b2),
        separator_offset(area, s, 0) == 0,
        separator_offset(area, s, s.bar_beats as int) == last_column(area),
{
    let t = s.ticks_per_beat as int;
    let l = last_column(area);
    let total = track_total(s);
    assert(total > 0) by (nonlinear_arith)
        requires total == s.bar_beats * s.ticks_per_beat, s.bar_beats >= 1, s.ticks_per_beat >= 1;
    lemma_mul_inequality(b1, b2, t);
    lemma_mul_inequality(b1 * t, b2 * t, l);
    lemma_div_is_ordered(b1 * t * l, b2 * t * l, total);
    assert(0int * t * l == 0) by (nonlinear_arith);
    lemma_div_multiples_vanish(l, total);
    assert(s.bar_beats * t * l == total * l) by (nonlinear_arith)
        requires total == s.bar_beats * t;
}

/// No column lies inside the segments of two different beats.
pub proof fn track_segments_disjoint(area: Rect, s: UiState, b1: int, b2: int, o: int)
    requires
        track_drawn(area, s),
        in_segment(area, s, b1, o),
        in_segment(area, s, b2, o),
    ensures
        b1 == b2,
{
    if b1 < b2 {
        track_separators_ordered(area, s, b1 + 1, b2);
    } else if b2 < b1 {
        track_separators_ordered(area, s, b2 + 1, b1);
    }
}


/// Whether the track's columns for `state` stay within `u16` in `area`.
pub fn fits_track(area: Rect, state: UiState) -> (r: bool)
    ensures
        r == track_fits(area, state),
{
    if area.is_empty() || state.bar_beats == 0 || state.ticks_per_beat == 0 {
        return true;
    }
    if area.x as u32 + area.width as u32 > 65536 {
        return false;
    }
    let tpb = state.ticks_per_beat as u32;
    let last = area.width as u32 - 1;
    let current_beat_index: u32 = state.beat_in_bar.saturating_sub(1) as u32;
    proof {
        lemma_product_bound(state.bar_beats as int, tpb as int, 0);
        lemma_product_bound(current_beat_index as int, tpb as int, 0);
    }
    let total = state.bar_beats as u32 * tpb;
    let tick: u32 = current_beat_index * tpb + state.tick_in_beat as u32;
    proof {
        assert(tick <= 65025) by (nonlinear_arith)
            requires tick == current_beat_index * tpb + state.tick_in_beat, current_beat_index <= 254,
                tpb <= 255, state.tick_in_beat <= 255;
        assert(tick * last <= 4261413375) by (nonlinear_arith)
            requires tick <= 65025, last <= 65535;
        assert(total >= 1) by (nonlinear_arith)
            requires total == state.bar_beats * tpb, state.bar_beats >= 1, tpb >= 1;
    }
    let offset = #[verifier::truncate] ((tick * last / total) as u16);
    area.x as u32 + offset as u32 <= 65535
}


/// Only the first tick of the bar is accented, and it is whenever accents
/// are on: the tick marker is highlighted exactly when accents are on, the
/// playing beat is the first (`beat_in_bar == 1`) and the tick is its first.
/// The accented tick is the bar's tick 0.
pub proof fn accent_only_on_downbeat(s: UiState)
    ensures
        tick_accent(s) <==> (s.accent && s.beat_in_bar == 1 && s.tick_in_beat == 0),
        tick_accent(s) ==> current_tick(s) == 0,
        s.beat_in_bar != 1 ==> !tick_accent(s),
{
    assert(0int * s.ticks_per_beat == 0);
}


/// Where the state names a tick of the bar (`beat_in_bar` in `1..=bar_beats`,
/// `tick_in_beat` below `ticks_per_beat`), the tick marker lies in the
/// playing beat: between the separators before and after it.
pub proof fn tick_within_playing_beat(area: Rect, s: UiState)
    requires
        track_drawn(area, s),
        1 <= s.beat_in_bar <= s.bar_beats,
        s.tick_in_beat < s.ticks_per_beat,
    ensures
        separator_offset(area, s, s.beat_in_bar - 1) <= tick_offset(area, s) as int <= separator_offset(area, s, s.beat_in_bar as int),
        tick_offset(area, s) as int <= last_column(area),
{
    let t = s.ticks_per_beat as int;
    let l = last_column(area);
    let total = track_total(s);
    let b = s.beat_in_bar - 1;
    let ct = current_tick(s);
    assert(ct == b * t + s.tick_in_beat);
    assert(total > 0) by (nonlinear_arith)
        requires total == s.bar_beats * s.ticks_per_beat, s.bar_beats >= 1, s.ticks_per_beat >= 1;
    assert(b * t <= ct <= (b + 1) * t) by (nonlinear_arith)
        requires ct == b * t + s.tick_in_beat, s.tick_in_beat < t, s.tick_in_beat >= 0;
    assert(b * t >= 0) by (nonlinear_arith) requires b >= 0, t >= 0;
    lemma_mul_inequality(b * t, ct, l);
    lemma_mul_inequality(ct, (b + 1) * t, l);
    lemma_div_is_ordered(b * t * l, ct * l, total);
    lemma_div_is_ordered(ct * l, (b + 1) * t * l, total);
    track_separators_ordered(area, s, s.beat_in_bar as int, s.bar_beats as int);
    assert(0 <= ct * l) by (nonlinear_arith) requires ct >= 0, l >= 0;
    assert(0 <= (ct * l) / total) by (nonlinear_arith) requires ct * l >= 0, total > 0;
    assert((ct * l) / total <= l);
    assert(l <= 65535);
}


/// Inside the segment of beat `b`, off the separators, the track shows a
/// fill, highlighted exactly when `b` is the playing beat (`beat_in_bar`,
/// counted from 1, where 0 counts as the first); on a separator it shows a bar.
pub proof fn playing_beat_is_highlighted(area: Rect, s: UiState, b: int, o: int)
    requires
        track_drawn(area, s),
    ensures
        is_separator(area, s, o) ==> row_mark(area, s, o) == TrackMark::Bar,
        in_segment(area, s, b, o) && !is_separator(area, s, o) ==>
            row_mark(area, s, o) == (TrackMark::Fill { current: b == s.beat_in_bar - 1 || (s.beat_in_bar == 0 && b == 0) }),
{
    if in_segment(area, s, b, o) && !is_separator(area, s, o) {
        assert(exists|j: int| #[trigger] in_segment(area, s, j, o));
        let cb = current_beat(s);
        if in_segment(area, s, cb, o) {
            track_segments_disjoint(area, s, b, cb, o);
        }
    }
}


/// The columns spread the bar's ticks evenly, rounding down: the separator
/// before beat `b` is the last column at or before the point
/// `b * ticks_per_beat / (bar_beats * ticks_per_beat)` of the way across, and
/// the tick marker's offset is the last column at or before the playing
/// tick's point.
pub proof fn track_columns_round_down(area: Rect, s: UiState, b: int)
    requires
        track_drawn(area, s),
        0 <= b <= s.bar_beats,
    ensures
        ({
            let total = s.bar_beats * s.ticks_per_beat;
            let l = last_column(area);
            let sep = separator_offset(area, s, b);
            &&& total * sep <= b * s.ticks_per_beat * l < total * (sep + 1)
            &&& (current_tick(s) * l) / total <= u16::MAX ==> {
                let off = tick_offset(area, s) as int;
                total * off <= current_tick(s) * l < total * (off + 1)
            }
        }),
{
    let total = track_total(s);
    assert(total > 0) by (nonlinear_arith)
        requires total == s.bar_beats * s.ticks_per_beat, s.bar_beats >= 1, s.ticks_per_beat >= 1;
    let x = b * s.ticks_per_beat * last_column(area);
    lemma_fundamental_div_mod(x, total);
    assert(total * (x / total) <= x < total * (x / total + 1)) by (nonlinear_arith)
        requires x == total * (x / total) + x % total, 0 <= x % total < total;
    let y = current_tick(s) * last_column(area);
    lemma_fundamental_div_mod(y, total);
    assert(total * (y / total) <= y < total * (y / total + 1)) by (nonlinear_arith)
        requires y == total * (y / total) + y % total, 0 <= y % total < total;
    assert(y >= 0) by (nonlinear_arith)
        requires y == current_tick(s) * last_column(area), current_tick(s) >= 0, last_column(area) >= 0;
    assert(y / total >= 0) by (nonlinear_arith) requires y >= 0, total > 0;
}

} // verus!
