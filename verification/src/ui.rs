//! The metronome's main screen: what it shows and where.
use vstd::prelude::*;
use crate::layout::{Rect, centered, centering_fits, sat_add, spec_centered, spec_rect};
use crate::text::{pad_left, push_decimal, push_decimal_padded, spec_decimal};
use crate::parse::{spec_time_signature, time_signature_round_trip};

verus! {

/// What the main screen shows.
#[derive(Clone, Copy, Debug)]
pub struct UiState {
    pub bpm: u16,
    pub bar_beats: u8,
    pub denominator: u8,
    pub ticks_per_beat: u8,
    pub beat_in_bar: u8,
    pub tick_in_beat: u8,
    pub playing: bool,
    pub accent: bool,
    pub show_help: bool,
}

/// The status text of the header, such as `120 BPM  |  4/4  |  sub 2  |  RUN`.
pub open spec fn spec_hud_text(s: UiState) -> Seq<char> {
    pad_left(spec_decimal(s.bpm as nat), 3) + " BPM  |  "@ + spec_decimal(s.bar_beats as nat) + "/"@
        + spec_decimal(s.denominator as nat) + "  |  sub "@ + spec_decimal(s.ticks_per_beat as nat)
        + "  |  "@ + (if s.playing { "RUN"@ } else { "PAUSE"@ })
}

pub fn hud_text(s: UiState) -> (r: String)
    ensures
        r@ == spec_hud_text(s),
{
    let mut out = String::new();
    push_decimal_padded(&mut out, s.bpm as u64, 3);
    out.append(" BPM  |  ");
    push_decimal(&mut out, s.bar_beats as u64);
    out.append("/");
    push_decimal(&mut out, s.denominator as u64);
    out.append("  |  sub ");
    push_decimal(&mut out, s.ticks_per_beat as u64);
    out.append("  |  ");
    if s.playing {
        out.append("RUN");
    } else {
        out.append("PAUSE");
    }
    assert(out@ =~= spec_hud_text(s));
    out
}

/// Where the header goes: the title left of the status text where both fit
/// with room to spare, else the status text alone across the row.
#[derive(Copy, Clone, Debug, PartialEq, Eq, Structural)]
pub enum HeaderLayout {
    Split { title: Rect, hud: Rect },
    HudOnly { hud: Rect },
}

pub open spec fn spec_header_layout(area: Rect, hud_width: u16) -> HeaderLayout {
    if area.width > sat_add(hud_width, 11) {
        HeaderLayout::Split {
            title: spec_rect(area.x, area.y, (area.width - hud_width) as u16, 1),
            hud: spec_rect((sat_add(area.x, area.width) - hud_width) as u16, area.y, hud_width, 1),
        }
    } else {
        HeaderLayout::HudOnly { hud: spec_rect(area.x, area.y, area.width, 1) }
    }
}

/// Lays out the header row of `area` for a status text `hud_width` cells wide.
pub fn header_layout(area: Rect, hud_width: u16) -> (r: HeaderLayout)
    ensures
        r == spec_header_layout(area, hud_width),
        r is Split <==> area.width > hud_width as int + 11,
        area.x + area.width <= u16::MAX && area.y < u16::MAX ==> match r {
            HeaderLayout::Split { title, hud } => {
                &&& title.x == area.x && title.y == area.y && title.height == 1
                &&& hud.y == area.y && hud.height == 1 && hud.width == hud_width
                &&& hud.x == title.x + title.width
                &&& hud.x + hud.width == area.x + area.width
            },
            HeaderLayout::HudOnly { hud } => hud == Rect { x: area.x, y: area.y, width: area.width, height: 1 },
        },
{
    if area.width > hud_width.saturating_add(11) {
        HeaderLayout::Split {
            title: Rect::new(area.x, area.y, area.width - hud_width, 1),
            hud: Rect::new(area.right() - hud_width, area.y, hud_width, 1),
        }
    } else {
        HeaderLayout::HudOnly { hud: Rect::new(area.x, area.y, area.width, 1) }
    }
}

/// Where the parts of the main screen go, and the header's status text.
#[derive(Debug)]
pub struct ScreenLayout {
    pub hud: String,
    pub header: HeaderLayout,
    /// The bar track, where the area has at least three rows.
    pub track: Option<Rect>,
    /// The footer row, where the area has at least three rows.
    pub footer: Option<Rect>,
    /// The help panel, where help is shown.
    pub help: Option<Rect>,
}

/// The width of the status text: its length, at most `u16::MAX`.
pub open spec fn hud_width(s: UiState) -> u16 {
    let n = spec_hud_text(s).len();
    if n < u16::MAX { n as u16 } else { u16::MAX }
}

/// The help panel: at most 58 by 7 cells, centred.
pub open spec fn spec_help_panel(area: Rect) -> Rect {
    spec_centered(area, 58, 7)
}

pub open spec fn spec_track_area(area: Rect) -> Rect {
    spec_rect(area.x, sat_add(area.y, 2), area.width, (area.height - 3) as u16)
}

pub open spec fn spec_footer_area(area: Rect) -> Rect {
    spec_rect(area.x, (sat_add(area.y, area.height) - 1) as u16, area.width, 1)
}

/// Lays out the main screen in `area`; `None` where the area holds no cell.
pub fn screen_layout(area: Rect, state: UiState) -> (r: Option<ScreenLayout>)
    requires
        state.show_help && !area.spec_is_empty() ==> centering_fits(area, 58, 7),
    ensures
        r is None <==> area.spec_is_empty(),
        r matches Some(l) ==> {
            &&& l.hud@ == spec_hud_text(state)
            &&& l.header == spec_header_layout(area, hud_width(state))
            &&& l.track == (if area.height >= 3 { Some(spec_track_area(area)) } else { None })
            &&& l.footer == (if area.height >= 3 { Some(spec_footer_area(area)) } else { None })
            &&& l.help == (if state.show_help { Some(spec_help_panel(area)) } else { None })
        },
        r matches Some(l) ==> (area.x + area.width <= u16::MAX && area.y + area.height <= u16::MAX && area.height >= 3 ==> {
            &&& l.track matches Some(t) && t.x == area.x && t.width == area.width && t.y == area.y + 2
                && t.y + t.height + 1 == area.y + area.height
            &&& l.footer matches Some(f) && f.x == area.x && f.width == area.width && f.height == 1
                && f.y == area.y + area.height - 1
        }),
{
    if area.is_empty() {
        return None;
    }
    let hud = hud_text(state);
    let len = hud.as_str().unicode_len();
    let width: u16 = if len < 65535 { len as u16 } else { 65535 };
    let header = header_layout(area, width);
    let (track, footer) = if area.height >= 3 {
        (
            Some(Rect::new(area.x, area.y.saturating_add(2), area.width, area.height.saturating_sub(3))),
            Some(Rect::new(area.x, area.bottom() - 1, area.width, 1)),
        )
    } else {
        (None, None)
    };
    let help = if state.show_help { Some(centered(area, 58, 7)) } else { None };
    Some(ScreenLayout { hud, header, track, footer, help })
}


/// The title shown left of the header's status text.
pub fn screen_title() -> (r: &'static str)
    ensures
        r == "Metronome",
{
    "Metronome"
}

/// The title of the help panel.
pub fn help_title() -> (r: &'static str)
    ensures
        r == " Help ",
{
    " Help "
}

/// The lines of the help panel: on each, keys and what they do.
pub fn help_lines() -> (r: Vec<Vec<(&'static str, &'static str)>>)
    ensures
        r@.len() == 4,
        r@[0]@ == seq![("<Space>", " Play/Pause   "), ("<q>/<Esc>", " Quit")],
        r@[1]@ == seq![("<s>", " Subdivision   "), ("<Tab>", " Signature")],
        r@[2]@ == seq![("<Up>/<Down>", " +/-1   "), ("<Left>/<Right>", " +/-5")],
        r@[3]@ == seq![("<h>", " Close help")],
{
    let first = vec![("<Space>", " Play/Pause   "), ("<q>/<Esc>", " Quit")];
    let second = vec![("<s>", " Subdivision   "), ("<Tab>", " Signature")];
    let third = vec![("<Up>/<Down>", " +/-1   "), ("<Left>/<Right>", " +/-5")];
    let fourth = vec![("<h>", " Close help")];
    assert(first@ =~= seq![("<Space>", " Play/Pause   "), ("<q>/<Esc>", " Quit")]);
    assert(second@ =~= seq![("<s>", " Subdivision   "), ("<Tab>", " Signature")]);
    assert(third@ =~= seq![("<Up>/<Down>", " +/-1   "), ("<Left>/<Right>", " +/-5")]);
    assert(fourth@ =~= seq![("<h>", " Close help")]);
    vec![first, second, third, fourth]
}


/// The fields of the header's status text: it starts with the tempo, right
/// aligned in three columns; after ` BPM  |  ` stands the meter as the time
/// signature it came from (beats per bar, `/`, beat unit: the text that reads
/// back as `(bar_beats, denominator)`); it ends with the ticks per beat, `  |  `
/// and `RUN` or `PAUSE`.
pub proof fn header_fields(s: UiState)
    ensures
        ({
            let k = pad_left(spec_decimal(s.bpm as nat), 3).len() + 9;
            let meter = spec_decimal(s.bar_beats as nat) + seq!['/'] + spec_decimal(s.denominator as nat);
            let text = spec_hud_text(s);
            let status = if s.playing { seq!['R', 'U', 'N'] } else { seq!['P', 'A', 'U', 'S', 'E'] };
            let sub = spec_decimal(s.ticks_per_beat as nat);
            &&& text.subrange(0, k - 9) == pad_left(spec_decimal(s.bpm as nat), 3)
            &&& text.subrange(k as int, (k + meter.len()) as int) == meter
            &&& (s.bar_beats >= 1 && s.denominator >= 1 ==> spec_time_signature(meter) == Some((s.bar_beats, s.denominator)))
            &&& text.subrange(text.len() - status.len(), text.len() as int) == status
            &&& text.subrange(text.len() - status.len() - 5 - sub.len(), text.len() - status.len() - 5) == sub
        }),
{
    reveal_strlit(" BPM  |  ");
    reveal_strlit("/");
    reveal_strlit("  |  ");
    reveal_strlit("RUN");
    reveal_strlit("PAUSE");
    assert("RUN"@ =~= seq!['R', 'U', 'N']);
    assert("PAUSE"@ =~= seq!['P', 'A', 'U', 'S', 'E']);
    assert("  |  "@.len() == 5);
    let text = spec_hud_text(s);
    let status = if s.playing { seq!['R', 'U', 'N'] } else { seq!['P', 'A', 'U', 'S', 'E'] };
    let sub = spec_decimal(s.ticks_per_beat as nat);
    assert(text.subrange(text.len() - status.len(), text.len() as int) =~= status);
    assert(text.subrange(text.len() - status.len() - 5 - sub.len(), text.len() - status.len() - 5) =~= sub);
    let p = pad_left(spec_decimal(s.bpm as nat), 3);
    let k = p.len() + 9;
    let meter = spec_decimal(s.bar_beats as nat) + seq!['/'] + spec_decimal(s.denominator as nat);
    assert(" BPM  |  "@.len() == 9);
    assert("/"@ =~= seq!['/']);
    assert(spec_hud_text(s).subrange(k as int, (k + meter.len()) as int) =~= meter);
    assert(text.subrange(0, k - 9) =~= p);
    if s.bar_beats >= 1 && s.denominator >= 1 {
        time_signature_round_trip(s.bar_beats, s.denominator);
    }
}

} // verus!
