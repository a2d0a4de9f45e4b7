use metronome::cli::{Cli, Commands, SoundType, Subdivision};
use metronome::parse::{time_signature, CliError, HelpTopic};

#[test]
fn parses_tap_amount_and_trailing_signature() {
    let cli = Cli::try_parse_from(&["metronome", "tap", "--amount", "10", "--signature", "7/8"]).unwrap();

    assert_eq!(cli.signature, "7/8");
    assert!(matches!(cli.command, Some(Commands::Tap { amount: 10 })));
}

#[test]
fn rejects_tap_amount_below_two() {
    assert!(Cli::try_parse_from(&["metronome", "tap", "-a", "1"]).is_err());
}

#[test]
fn ticks_per_beat_of_each_subdivision() {
    assert_eq!(Subdivision::Quarter.ticks_per_beat(), 1);
    assert_eq!(Subdivision::Eighth.ticks_per_beat(), 2);
    assert_eq!(Subdivision::Triplet.ticks_per_beat(), 3);
    assert_eq!(Subdivision::Sixteenth.ticks_per_beat(), 4);
}

#[test]
fn defaults_without_arguments() {
    let cli = Cli::try_parse_from(&["metronome"]).unwrap();
    assert_eq!(cli.bpm_positional, None);
    assert_eq!(cli.bpm, 120);
    assert_eq!(cli.signature, "4/4");
    assert_eq!(cli.subdivision, Subdivision::Quarter);
    assert!(!cli.mute);
    assert_eq!(cli.sound, SoundType::Click);
    assert!(cli.command.is_none());
    let empty: [&str; 0] = [];
    assert_eq!(Cli::try_parse_from(&empty).unwrap().bpm, 120);
}

#[test]
fn tap_amount_defaults_to_eight() {
    let cli = Cli::try_parse_from(&["metronome", "tap"]).unwrap();
    assert!(matches!(cli.command, Some(Commands::Tap { amount: 8 })));
}

#[test]
fn parses_every_option() {
    let cli = Cli::try_parse_from(&[
        "metronome", "90", "--bpm", "100", "-s", "3/4", "--subdivision", "triplet", "--mute", "--sound", "cowbell",
    ])
    .unwrap();
    assert_eq!(cli.bpm_positional, Some(90));
    assert_eq!(cli.bpm, 100);
    assert_eq!(cli.signature, "3/4");
    assert_eq!(cli.subdivision, Subdivision::Triplet);
    assert!(cli.mute);
    assert_eq!(cli.sound, SoundType::Cowbell);
    assert!(cli.command.is_none());
}

#[test]
fn attached_values() {
    let cli = Cli::try_parse_from(&["metronome", "--bpm=60", "-s6/8", "--sound=beep"]).unwrap();
    assert_eq!(cli.bpm, 60);
    assert_eq!(cli.signature, "6/8");
    assert_eq!(cli.sound, SoundType::Beep);
    let cli = Cli::try_parse_from(&["metronome", "-b=75", "--signature="]).unwrap();
    assert_eq!(cli.bpm, 75);
    assert_eq!(cli.signature, "");
    let cli = Cli::try_parse_from(&["metronome", "tap", "-a64"]).unwrap();
    assert!(matches!(cli.command, Some(Commands::Tap { amount: 64 })));
    let cli = Cli::try_parse_from(&["metronome", "-b", "+0400"]).unwrap();
    assert_eq!(cli.bpm, 400);
}

#[test]
fn ramp_takes_a_pattern() {
    let cli = Cli::try_parse_from(&["metronome", "ramp", "80-120"]).unwrap();
    match cli.command {
        Some(Commands::Ramp { pattern }) => assert_eq!(pattern, "80-120"),
        _ => panic!("expected ramp"),
    }
    let cli = Cli::try_parse_from(&["metronome", "ramp", "--", "-x"]).unwrap();
    match cli.command {
        Some(Commands::Ramp { pattern }) => assert_eq!(pattern, "-x"),
        _ => panic!("expected ramp"),
    }
    assert_eq!(Cli::try_parse_from(&["metronome", "ramp"]).unwrap_err(), CliError::MissingArgument);
    assert_eq!(Cli::try_parse_from(&["metronome", "ramp", "a", "b"]).unwrap_err(), CliError::UnknownArgument);
}

#[test]
fn signature_after_subcommand_wins() {
    let cli = Cli::try_parse_from(&["metronome", "-s", "3/4", "tap", "-s", "5/4"]).unwrap();
    assert_eq!(cli.signature, "5/4");
    let cli = Cli::try_parse_from(&["metronome", "-s", "3/4", "tap"]).unwrap();
    assert_eq!(cli.signature, "3/4");
}

#[test]
fn option_value_may_be_a_subcommand_name() {
    let cli = Cli::try_parse_from(&["metronome", "-s", "tap"]).unwrap();
    assert_eq!(cli.signature, "tap");
    assert!(cli.command.is_none());
}

#[test]
fn each_error() {
    let err = |args: &[&str]| Cli::try_parse_from(args).unwrap_err();
    assert_eq!(err(&["metronome", "--help"]), CliError::DisplayHelp(HelpTopic::Top));
    assert_eq!(err(&["metronome", "-h"]), CliError::DisplayHelp(HelpTopic::Top));
    assert_eq!(err(&["metronome", "help"]), CliError::DisplayHelp(HelpTopic::Top));
    assert_eq!(err(&["metronome", "tap", "-h"]), CliError::DisplayHelp(HelpTopic::Tap));
    assert_eq!(err(&["metronome", "ramp", "--help"]), CliError::DisplayHelp(HelpTopic::Ramp));
    assert_eq!(err(&["metronome", "-V"]), CliError::DisplayVersion);
    assert_eq!(err(&["metronome", "--version"]), CliError::DisplayVersion);
    assert_eq!(err(&["metronome", "--tempo", "90"]), CliError::UnknownArgument);
    assert_eq!(err(&["metronome", "tap", "-V"]), CliError::UnknownArgument);
    assert_eq!(err(&["metronome", "tap", "--bpm", "90"]), CliError::UnknownArgument);
    assert_eq!(err(&["metronome", "90", "100"]), CliError::UnknownArgument);
    assert_eq!(err(&["metronome", "--mute=yes"]), CliError::UnexpectedValue);
    assert_eq!(err(&["metronome", "--bpm"]), CliError::MissingValue);
    assert_eq!(err(&["metronome", "--bpm", "--mute"]), CliError::MissingValue);
    assert_eq!(err(&["metronome", "-b", "-5"]), CliError::UnknownArgument);
    assert_eq!(err(&["metronome", "-b", "-s"]), CliError::MissingValue);
    assert_eq!(err(&["metronome", "--bpm", "--foo"]), CliError::UnknownArgument);
    assert_eq!(err(&["metronome", "--bpm", "--mute=yes"]), CliError::UnexpectedValue);
    assert_eq!(err(&["metronome", "--bpm", "--sound=wood"]), CliError::MissingValue);
    assert_eq!(err(&["metronome", "--bpm", "--"]), CliError::MissingValue);
    assert_eq!(err(&["metronome", "help", "tap"]), CliError::DisplayHelp(HelpTopic::Tap));
    assert_eq!(err(&["metronome", "help", "ramp"]), CliError::DisplayHelp(HelpTopic::Ramp));
    assert_eq!(err(&["metronome", "help", "help"]), CliError::DisplayHelp(HelpTopic::Help));
    assert_eq!(err(&["metronome", "help", "xyz"]), CliError::UnknownArgument);
    assert_eq!(err(&["metronome", "help", "tap", "ramp"]), CliError::UnknownArgument);
    assert_eq!(err(&["metronome", "--bpm", "19"]), CliError::InvalidValue);
    assert_eq!(err(&["metronome", "--bpm", "401"]), CliError::InvalidValue);
    assert_eq!(err(&["metronome", "--bpm", "fast"]), CliError::InvalidValue);
    assert_eq!(err(&["metronome", "--sound", "gong"]), CliError::InvalidValue);
    assert_eq!(err(&["metronome", "--subdivision", "Quarter"]), CliError::InvalidValue);
    assert_eq!(err(&["metronome", "tap", "--amount", "65"]), CliError::InvalidValue);
    assert_eq!(err(&["metronome", "--mute", "--mute"]), CliError::DuplicateArgument);
    assert_eq!(err(&["metronome", "-b", "90", "--bpm", "100"]), CliError::DuplicateArgument);
}

#[test]
fn positional_bpm_and_escape() {
    let cli = Cli::try_parse_from(&["metronome", "--", "200"]).unwrap();
    assert_eq!(cli.bpm_positional, Some(200));
    assert_eq!(Cli::try_parse_from(&["metronome", "--", "tap"]).unwrap_err(), CliError::InvalidValue);
    let cli = Cli::try_parse_from(&["metronome", "120", "tap"]).unwrap();
    assert_eq!(cli.bpm_positional, Some(120));
    assert!(matches!(cli.command, Some(Commands::Tap { amount: 8 })));
}

#[test]
fn reads_time_signatures() {
    assert_eq!(time_signature("7/8"), Some((7, 8)));
    assert_eq!(time_signature("4/4"), Some((4, 4)));
    assert_eq!(time_signature("12/16"), Some((12, 16)));
    assert_eq!(time_signature("0/4"), None);
    assert_eq!(time_signature("4"), None);
    assert_eq!(time_signature("4/"), None);
    assert_eq!(time_signature("256/4"), None);
}
