//! The footer of the main screen: the key bindings.
use vstd::prelude::*;
use crate::layout::sat_add;

verus! {

/// The display width that `ratatui::text::Line::width` gives a line of raw
/// spans with the texts `spans`, in order.
pub uninterp spec fn line_width(spans: Seq<Seq<char>>) -> nat;

/// Whether every character of the texts is printable ASCII (space to `~`).
pub open spec fn printable_ascii(texts: Seq<Seq<char>>) -> bool {
    forall|k: int, j: int| 0 <= k < texts.len() && 0 <= j < texts[k].len() ==> ' ' <= #[trigger] texts[k][j] <= '~'
}

/// The number of characters in all the texts together.
pub open spec fn total_chars(texts: Seq<Seq<char>>) -> nat
    decreases texts.len(),
{
    if texts.len() == 0 {
        0
    } else {
        total_chars(texts.drop_last()) + texts.last().len()
    }
}

/// Calls `ratatui::text::Line::width` on a line of raw spans with the texts
/// `spans`.  Claimed: the result is `line_width` of those texts, and where
/// every character is printable ASCII it is their number of characters (a
/// line's width is the sum of its spans' widths, each the unicode-width of
/// its text, one column for each printable ASCII character).  For other
/// texts the width is not stated.
#[verifier::external_body]
fn text_line_width(spans: &[&str]) -> (w: usize)
    ensures
        w as nat == line_width(spans@.map_values(|s: &str| s@)),
        printable_ascii(spans@.map_values(|s: &str| s@)) ==> w as nat == total_chars(spans@.map_values(|s: &str| s@)),
{
    let mut line = ratatui::text::Line::default();
    for s in spans {
        line.push_span(ratatui::text::Span::raw(*s));
    }
    line.width()
}

/// Key bindings shown on the left of the footer: each key and its description.
pub fn footer_left_controls() -> (r: Vec<(&'static str, &'static str)>)
    ensures
        r@ == seq![
            ("<Space>", ": Play/Pause   "),
            ("<q>/<Esc>", ": Quit   "),
            ("<s>", ": Subdivision   "),
            ("<Tab>", ": Signature   "),
            ("<h>", ": Help"),
        ],
{
    let r = vec![
        ("<Space>", ": Play/Pause   "),
        ("<q>/<Esc>", ": Quit   "),
        ("<s>", ": Subdivision   "),
        ("<Tab>", ": Signature   "),
        ("<h>", ": Help"),
    ];
    assert(r@ =~= seq![
        ("<Space>", ": Play/Pause   "),
        ("<q>/<Esc>", ": Quit   "),
        ("<s>", ": Subdivision   "),
        ("<Tab>", ": Signature   "),
        ("<h>", ": Help"),
    ]);
    r
}

/// Key bindings shown on the right of the footer, where there is room.
pub fn footer_right_controls() -> (r: Vec<(&'static str, &'static str)>)
    ensures
        r@ == seq![("<Up>/<Down>", ": +/-1   "), ("<Left>/<Right>", ": +/-5")],
{
    let r = vec![("<Up>/<Down>", ": +/-1   "), ("<Left>/<Right>", ": +/-5")];
    assert(r@ =~= seq![("<Up>/<Down>", ": +/-1   "), ("<Left>/<Right>", ": +/-5")]);
    r
}

/// The texts of a line of key bindings: each key, then its description.
pub open spec fn control_texts(controls: Seq<(&str, &str)>) -> Seq<Seq<char>>
    decreases controls.len(),
{
    if controls.len() == 0 {
        Seq::empty()
    } else {
        control_texts(controls.drop_last()) + seq![controls.last().0@, controls.last().1@]
    }
}

fn control_spans(controls: &Vec<(&'static str, &'static str)>) -> (r: Vec<&'static str>)
    ensures
        r@.map_values(|s: &str| s@) == control_texts(controls@),
{
    let mut r: Vec<&'static str> = Vec::new();
    let mut i: usize = 0;
    while i < controls.len()
        invariant
            i <= controls@.len(),
            r@.map_values(|s: &str| s@) == control_texts(controls@.subrange(0, i as int)),
        decreases controls@.len() - i,
    {
        let (key, description) = controls[i];
        proof {
            assert(controls@.subrange(0, i + 1).drop_last() =~= controls@.subrange(0, i as int));
        }
        r.push(key);
        r.push(description);
        assert(r@.map_values(|s: &str| s@) =~= control_texts(controls@.subrange(0, i + 1)));
        i = i + 1;
    }
    assert(controls@.subrange(0, controls@.len() as int) =~= controls@);
    r
}

pub open spec fn cap_u16(n: int) -> u16 {
    if n < u16::MAX { n as u16 } else { u16::MAX }
}

/// Whether a footer `area_width` cells wide shows the right-hand bindings
/// too: where it holds both lines, each at most `u16::MAX` wide, and two
/// cells between them.
pub open spec fn spec_footer_fits(area_width: u16, left_width: int, right_width: int) -> bool {
    area_width >= sat_add(sat_add(cap_u16(left_width), cap_u16(right_width)), 2)
}

pub fn footer_fits(area_width: u16, left_width: usize, right_width: usize) -> (r: bool)
    ensures
        r == spec_footer_fits(area_width, left_width as int, right_width as int),
{
    let left: u16 = if left_width < 65535 { left_width as u16 } else { 65535 };
    let right: u16 = if right_width < 65535 { right_width as u16 } else { 65535 };
    area_width >= left.saturating_add(right).saturating_add(2)
}

proof fn lemma_footer_texts()
    ensures
        printable_ascii(control_texts(seq![
            ("<Space>", ": Play/Pause   "),
            ("<q>/<Esc>", ": Quit   "),
            ("<s>", ": Subdivision   "),
            ("<Tab>", ": Signature   "),
            ("<h>", ": Help"),
        ])),
        total_chars(control_texts(seq![
            ("<Space>", ": Play/Pause   "),
            ("<q>/<Esc>", ": Quit   "),
            ("<s>", ": Subdivision   "),
            ("<Tab>", ": Signature   "),
            ("<h>", ": Help"),
        ])) == 87,
        printable_ascii(control_texts(seq![("<Up>/<Down>", ": +/-1   "), ("<Left>/<Right>", ": +/-5")])),
        total_chars(control_texts(seq![("<Up>/<Down>", ": +/-1   "), ("<Left>/<Right>", ": +/-5")])) == 40,
{
    reveal_strlit("<Space>");
    reveal_strlit(": Play/Pause   ");
    reveal_strlit("<q>/<Esc>");
    reveal_strlit(": Quit   ");
    reveal_strlit("<s>");
    reveal_strlit(": Subdivision   ");
    reveal_strlit("<Tab>");
    reveal_strlit(": Signature   ");
    reveal_strlit("<h>");
    reveal_strlit(": Help");
    reveal_strlit("<Up>/<Down>");
    reveal_strlit(": +/-1   ");
    reveal_strlit("<Left>/<Right>");
    reveal_strlit(": +/-5");
    reveal_with_fuel(control_texts, 6);
    let left = control_texts(seq![
        ("<Space>", ": Play/Pause   "),
        ("<q>/<Esc>", ": Quit   "),
        ("<s>", ": Subdivision   "),
        ("<Tab>", ": Signature   "),
        ("<h>", ": Help"),
    ]);
    let left_texts = seq![
        "<Space>"@, ": Play/Pause   "@, "<q>/<Esc>"@, ": Quit   "@, "<s>"@,
        ": Subdivision   "@, "<Tab>"@, ": Signature   "@, "<h>"@, ": Help"@,
    ];
    assert(left =~= left_texts);
    reveal_with_fuel(total_chars, 11);
    assert(total_chars(left_texts) == 87);
    assert forall|k: int, j: int| 0 <= k < left_texts.len() && 0 <= j < left_texts[k].len()
        implies ' ' <= #[trigger] left_texts[k][j] <= '~' by {
        assert(0 <= k < 10);
        if k == 0 { } else if k == 1 { } else if k == 2 { } else if k == 3 { } else if k == 4 { }
        else if k == 5 { } else if k == 6 { } else if k == 7 { } else if k == 8 { } else { }
    }
    let right = control_texts(seq![("<Up>/<Down>", ": +/-1   "), ("<Left>/<Right>", ": +/-5")]);
    let right_texts = seq!["<Up>/<Down>"@, ": +/-1   "@, "<Left>/<Right>"@, ": +/-5"@];
    assert(right =~= right_texts);
    assert(total_chars(right_texts) == 40);
    assert forall|k: int, j: int| 0 <= k < right_texts.len() && 0 <= j < right_texts[k].len()
        implies ' ' <= #[trigger] right_texts[k][j] <= '~' by {
        assert(0 <= k < 4);
        if k == 0 { } else if k == 1 { } else if k == 2 { } else { }
    }
}

/// Whether a footer `area_width` cells wide shows the right-hand bindings:
/// the left line is 87 cells wide and the right one 40.
pub fn footer_shows_right(area_width: u16) -> (r: bool)
    ensures
        r == (area_width >= 129),
        r == spec_footer_fits(
            area_width,
            line_width(control_texts(seq![
                ("<Space>", ": Play/Pause   "),
                ("<q>/<Esc>", ": Quit   "),
                ("<s>", ": Subdivision   "),
                ("<Tab>", ": Signature   "),
                ("<h>", ": Help"),
            ])) as int,
            line_width(control_texts(seq![("<Up>/<Down>", ": +/-1   "), ("<Left>/<Right>", ": +/-5")])) as int,
        ),
{
    let left = control_spans(&footer_left_controls());
    let right = control_spans(&footer_right_controls());
    proof {
        lemma_footer_texts();
    }
    let left_width = text_line_width(left.as_slice());
    let right_width = text_line_width(right.as_slice());
    footer_fits(area_width, left_width, right_width)
}

} // verus!
