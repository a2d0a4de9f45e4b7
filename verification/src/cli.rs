use vstd::prelude::*;

verus! {

/// How many ticks each beat is divided into.
#[derive(Copy, Clone, Debug, PartialEq, Eq, Structural)]
pub enum Subdivision {
    Quarter,
    Eighth,
    Triplet,
    Sixteenth,
}

impl Subdivision {
    /// Number of ticks per beat that this subdivision denotes.
    pub open spec fn spec_ticks_per_beat(self) -> u8 {
        match self {
            Subdivision::Quarter => 1,
            Subdivision::Eighth => 2,
            Subdivision::Triplet => 3,
            Subdivision::Sixteenth => 4,
        }
    }

    pub fn ticks_per_beat(self) -> (ticks: u8)
        ensures
            ticks == self.spec_ticks_per_beat(),
            1 <= ticks <= 4,
    {
        match self {
            Subdivision::Quarter => 1,
            Subdivision::Eighth => 2,
            Subdivision::Triplet => 3,
            Subdivision::Sixteenth => 4,
        }
    }
}

/// The sound played on each tick.
#[derive(Copy, Clone, Debug, PartialEq, Eq, Structural)]
pub enum SoundType {
    Click,
    Wood,
    Cowbell,
    Sidestick,
    Beep,
}

/// The subcommands of the metronome.
#[derive(Debug)]
pub enum Commands {
    /// Estimate BPM by tapping a key at a steady tempo; `amount` taps are
    /// collected before the BPM is accepted.
    Tap { amount: u8 },
    Ramp { pattern: String },
}

/// The parsed command line.
#[derive(Debug)]
pub struct Cli {
    pub bpm_positional: Option<u16>,
    pub bpm: u16,
    /// Time signature to use (for example 3/4, 6/8, or 7/8).
    pub signature: String,
    pub subdivision: Subdivision,
    pub mute: bool,
    pub sound: SoundType,
    pub command: Option<Commands>,
}

/// The mathematical value of a [`Commands`].
pub enum CommandsModel {
    Tap { amount: u8 },
    Ramp { pattern: Seq<char> },
}

/// The mathematical value of a [`Cli`]: its strings taken as character sequences.
pub struct CliModel {
    pub bpm_positional: Option<u16>,
    pub bpm: u16,
    pub signature: Seq<char>,
    pub subdivision: Subdivision,
    pub mute: bool,
    pub sound: SoundType,
    pub command: Option<CommandsModel>,
}

impl View for Commands {
    type V = CommandsModel;

    open spec fn view(&self) -> CommandsModel {
        match self {
            Commands::Tap { amount } => CommandsModel::Tap { amount: *amount },
            Commands::Ramp { pattern } => CommandsModel::Ramp { pattern: pattern@ },
        }
    }
}

impl View for Cli {
    type V = CliModel;

    open spec fn view(&self) -> CliModel {
        CliModel {
            bpm_positional: self.bpm_positional,
            bpm: self.bpm,
            signature: self.signature@,
            subdivision: self.subdivision,
            mute: self.mute,
            sound: self.sound,
            command: match self.command {
                Some(c) => Some(c@),
                None => None,
            },
        }
    }
}

} // verus!
