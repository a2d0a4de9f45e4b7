use metronome::footer::{footer_fits, footer_left_controls, footer_right_controls, footer_shows_right};
use metronome::layout::{centered, fits_centered, Rect};
use metronome::track::{fits_track, track_row, TrackMark};
use metronome::ui::{header_layout, help_lines, help_title, hud_text, screen_layout, screen_title, HeaderLayout, UiState};

fn state() -> UiState {
    UiState {
        bpm: 120,
        bar_beats: 4,
        denominator: 4,
        ticks_per_beat: 2,
        beat_in_bar: 1,
        tick_in_beat: 0,
        playing: true,
        accent: true,
        show_help: false,
    }
}

#[test]
fn rect_new_clamps_to_u16() {
    assert_eq!(Rect::new(65530, 65000, 10, 1000), Rect { x: 65530, y: 65000, width: 5, height: 535 });
    let r = Rect::new(2, 3, 4, 5);
    assert_eq!((r.right(), r.bottom(), r.is_empty()), (6, 8, false));
    assert!(Rect::new(0, 0, 0, 5).is_empty());
}

#[test]
fn centred_panel() {
    assert_eq!(centered(Rect::new(0, 0, 80, 24), 58, 7), Rect::new(11, 8, 58, 7));
    assert_eq!(centered(Rect::new(0, 0, 40, 10), 58, 7), Rect::new(0, 1, 40, 7));
    assert_eq!(centered(Rect::new(5, 5, 3, 3), 58, 7), Rect::new(5, 5, 3, 3));
}

#[test]
fn hud_text_pads_the_tempo() {
    assert_eq!(hud_text(state()), "120 BPM  |  4/4  |  sub 2  |  RUN");
    let mut s = state();
    s.bpm = 60;
    s.playing = false;
    assert_eq!(hud_text(s), " 60 BPM  |  4/4  |  sub 2  |  PAUSE");
}

#[test]
fn header_split_and_hud_only() {
    let area = Rect::new(0, 0, 80, 24);
    assert_eq!(
        header_layout(area, 33),
        HeaderLayout::Split { title: Rect::new(0, 0, 47, 1), hud: Rect::new(47, 0, 33, 1) }
    );
    assert_eq!(header_layout(Rect::new(0, 0, 44, 5), 33), HeaderLayout::HudOnly { hud: Rect::new(0, 0, 44, 1) });
}

#[test]
fn renders_normal_and_tiny_terminals() {
    let l = screen_layout(Rect::new(0, 0, 80, 24), state()).unwrap();
    assert_eq!(l.track, Some(Rect::new(0, 2, 80, 21)));
    assert_eq!(l.footer, Some(Rect::new(0, 23, 80, 1)));
    assert_eq!(l.help, None);
    let l = screen_layout(Rect::new(0, 0, 1, 1), state()).unwrap();
    assert_eq!(l.track, None);
    assert_eq!(l.header, HeaderLayout::HudOnly { hud: Rect::new(0, 0, 1, 1) });
    assert!(screen_layout(Rect::new(0, 0, 0, 0), state()).is_none());
}

#[test]
fn renders_help_overlay() {
    let mut s = state();
    s.show_help = true;
    let l = screen_layout(Rect::new(0, 0, 40, 10), s).unwrap();
    assert_eq!(l.help, Some(Rect::new(0, 1, 40, 7)));
}

#[test]
fn track_row_marks() {
    // 4 beats of 2 ticks over 9 columns: separators at 0, 2, 4, 6, 8.
    let row = track_row(Rect::new(0, 0, 9, 1), state()).unwrap();
    assert_eq!(
        row.marks,
        vec![
            TrackMark::Bar,
            TrackMark::Fill { current: true },
            TrackMark::Bar,
            TrackMark::Fill { current: false },
            TrackMark::Bar,
            TrackMark::Fill { current: false },
            TrackMark::Bar,
            TrackMark::Fill { current: false },
            TrackMark::Bar,
        ]
    );
    assert_eq!(row.tick_column, 0);
    assert!(row.tick_accent);
    let mut s = state();
    s.beat_in_bar = 3;
    s.tick_in_beat = 1;
    let row = track_row(Rect::new(10, 3, 9, 1), s).unwrap();
    assert_eq!(row.marks[5], TrackMark::Fill { current: true });
    assert_eq!(row.tick_column, 15);
    assert!(!row.tick_accent);
    assert!(track_row(Rect::new(0, 0, 0, 1), state()).is_none());
    s.bar_beats = 0;
    assert!(track_row(Rect::new(0, 0, 9, 1), s).is_none());
}

#[test]
fn tick_column_stays_in_the_track() {
    let mut s = state();
    s.tick_in_beat = 200;
    let row = track_row(Rect::new(0, 0, 9, 1), s).unwrap();
    assert_eq!(row.tick_column, 8);
}

#[test]
fn footer_controls_and_width() {
    assert_eq!(footer_left_controls().len(), 5);
    assert_eq!(footer_right_controls()[1], ("<Left>/<Right>", ": +/-5"));
    let left: usize = footer_left_controls().iter().map(|(k, d)| k.len() + d.len()).sum();
    let right: usize = footer_right_controls().iter().map(|(k, d)| k.len() + d.len()).sum();
    let needed = (left + right + 2) as u16;
    assert_eq!(needed, 129);
    assert!(footer_shows_right(129));
    assert!(!footer_shows_right(128));
    assert!(footer_shows_right(u16::MAX));
    assert!(footer_shows_right(needed));
    assert!(!footer_shows_right(needed - 1));
    assert!(footer_fits(10, 4, 4));
    assert!(!footer_fits(9, 4, 4));
    assert!(!footer_fits(u16::MAX - 1, usize::MAX, 0));
}

#[test]
fn fit_checks() {
    assert!(fits_centered(Rect::new(0, 0, 80, 24), 58, 7));
    assert!(!fits_centered(Rect { x: 65535, y: 0, width: 100, height: 1 }, 58, 7));
    assert!(fits_track(Rect::new(0, 0, 9, 1), state()));
    assert!(fits_track(Rect::new(0, 0, 0, 0), state()));
    assert!(!fits_track(Rect { x: 65535, y: 0, width: 9, height: 1 }, state()));
}

#[test]
fn screen_labels() {
    assert_eq!(screen_title(), "Metronome");
    assert_eq!(help_title(), " Help ");
    let lines = help_lines();
    assert_eq!(lines.len(), 4);
    assert_eq!(lines[3], vec![("<h>", " Close help")]);
    assert_eq!(lines[0][1], ("<q>/<Esc>", " Quit"));
}

#[test]
fn help_overlay_on_an_empty_area() {
    let mut s = state();
    s.show_help = true;
    assert!(screen_layout(Rect { x: 65535, y: 0, width: 0, height: 5 }, s).is_none());
}
