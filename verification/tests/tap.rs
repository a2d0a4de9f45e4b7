use std::time::{Duration, Instant};

use metronome::layout::Rect;
use metronome::tap::{
    estimate_bpm, marker_lit, progress_marks, tap_legend, tap_screen, tap_status, tap_title, Key, KeyPress, TapOutcome,
    TapSession,
};

/// The times of `taps` in nanoseconds after the first of them.
fn nanos(taps: &[Instant]) -> Vec<u64> {
    taps.iter().map(|t| t.duration_since(taps[0]).as_nanos() as u64).collect()
}

#[test]
fn estimates_and_clamps_bpm() {
    let start = Instant::now();
    assert_eq!(estimate_bpm(&nanos(&[start])), None);
    assert_eq!(estimate_bpm(&nanos(&[start, start + Duration::from_millis(500)])), Some(120));
    assert_eq!(estimate_bpm(&nanos(&[start, start + Duration::from_secs(10)])), Some(20));
}

#[test]
fn estimate_uses_the_mean_interval() {
    // Intervals of 0.4 s and 0.6 s: a mean of 0.5 s.
    assert_eq!(estimate_bpm(&[0, 400_000_000, 1_000_000_000]), Some(120));
    // 60 / 0.7 = 85.71...
    assert_eq!(estimate_bpm(&[0, 700_000_000]), Some(86));
    // 60 / 0.48 = 125 exactly; 60 / 0.4705882 rounds half up.
    assert_eq!(estimate_bpm(&[0, 480_000_000]), Some(125));
    assert_eq!(estimate_bpm(&[]), None);
}

#[test]
fn estimate_clamps_fast_and_instant_taps() {
    assert_eq!(estimate_bpm(&[0, 100_000_000]), Some(400));
    assert_eq!(estimate_bpm(&[5, 5, 5]), Some(400));
    // A later tap that comes first counts as no time.
    assert_eq!(estimate_bpm(&[1_000, 0]), Some(400));
}

#[test]
fn steady_taps_give_their_tempo() {
    let taps: Vec<u64> = (0..8).map(|k| k * 750_000_000).collect();
    assert_eq!(estimate_bpm(&taps), Some(80));
}

fn press(key: Key) -> KeyPress {
    KeyPress { key, ctrl: false, release: false }
}

#[test]
fn session_finishes_after_amount_taps() {
    let mut s = TapSession::new(3);
    assert_eq!(s.handle_key(press(Key::Char(' ')), 0), TapOutcome::Continue);
    assert_eq!(s.flash_until(), Some(150_000_000));
    assert_eq!(s.estimated_bpm(), None);
    assert_eq!(s.handle_key(press(Key::Char(' ')), 500_000_000), TapOutcome::Continue);
    assert_eq!(s.estimated_bpm(), Some(120));
    assert_eq!(s.tap_count(), 2);
    assert_eq!(s.handle_key(press(Key::Char(' ')), 1_000_000_000), TapOutcome::Done(Some(120)));
    assert_eq!(s.amount(), 3);
}

#[test]
fn session_keys() {
    let mut s = TapSession::new(8);
    assert_eq!(s.handle_key(press(Key::Enter), 0), TapOutcome::Continue);
    assert_eq!(s.handle_key(press(Key::Char('c')), 0), TapOutcome::Continue);
    assert_eq!(s.handle_key(press(Key::Other), 0), TapOutcome::Continue);
    assert_eq!(s.handle_key(KeyPress { key: Key::Char(' '), ctrl: false, release: true }, 0), TapOutcome::Continue);
    assert_eq!(s.tap_count(), 0);
    s.handle_key(press(Key::Char(' ')), 0);
    s.handle_key(press(Key::Char(' ')), 1_000_000_000);
    assert_eq!(s.handle_key(press(Key::Enter), 2_000_000_000), TapOutcome::Done(Some(60)));
    assert_eq!(s.handle_key(press(Key::Esc), 0), TapOutcome::Done(None));
    assert_eq!(s.handle_key(press(Key::Char('q')), 0), TapOutcome::Done(None));
    assert_eq!(s.handle_key(KeyPress { key: Key::Char('c'), ctrl: true, release: false }, 0), TapOutcome::Done(None));
}

#[test]
fn marker_lights_until_flash_ends() {
    assert!(marker_lit(Some(10), 9));
    assert!(!marker_lit(Some(10), 10));
    assert!(!marker_lit(None, 0));
}

#[test]
fn progress_and_status_text() {
    assert_eq!(progress_marks(2, 4), "●●○○");
    assert_eq!(progress_marks(9, 3), "●●●");
    assert_eq!(tap_status(0, 10, None, 7, 8), "Taps: 0/10   BPM: --   Meter: 7/8");
    assert_eq!(tap_status(12, 10, Some(128), 4, 4), "Taps: 10/10   BPM: 128   Meter: 4/4");
}

#[test]
fn renders_tap_ui_on_tiny_terminal() {
    let s = tap_screen(Rect::new(0, 0, 1, 1), 0, 10, 7, 8, None, marker_lit(None, 0));
    assert_eq!(s.panel, Rect::new(0, 0, 1, 1));
    assert_eq!(s.progress, "○○○○○○○○○○");
    assert!(!s.lit);
}

#[test]
fn tap_screen_on_a_normal_area() {
    let s = tap_screen(Rect::new(0, 0, 80, 24), 3, 4, 3, 4, Some(90), true);
    assert_eq!(s.panel, Rect::new(11, 8, 58, 7));
    assert_eq!(s.progress, "●●●○");
    assert_eq!(s.status, "Taps: 3/4   BPM: 90   Meter: 3/4");
    assert!(s.lit);
}

#[test]
fn tap_labels() {
    assert_eq!(tap_title(), " Tap tempo ");
    assert_eq!(tap_legend(), vec![("<Space>", " tap   "), ("<Enter>", " accept   "), ("<Esc>", " cancel")]);
}
