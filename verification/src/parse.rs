//! The grammar of the metronome's command line.
//!
//! ```text
//! metronome [OPTIONS] [BPM] [COMMAND]
//!   BPM                        20..=400
//!   -b, --bpm <BPM>            20..=400            (default 120)
//!   -s, --signature <SIG>      any text, global    (default "4/4")
//!       --subdivision <SUB>    quarter | eighth | triplet | sixteenth (default quarter)
//!       --mute
//!       --sound <SOUND>        click | wood | cowbell | sidestick | beep (default click)
//!   -h, --help    -V, --version (help is available on every level)
//! COMMAND
//!   tap  [-a, --amount <N>]    2..=64              (default 8)
//!   ramp <PATTERN>
//!   help [COMMAND]             COMMAND is tap, ramp or help
//! ```
//!
//! The first argument is the program's name and is skipped.  A value may be
//! attached (`--bpm=90`, `-b90`, `-b=90`) or given as the next argument; a
//! value given as the next argument never starts with `-` unless it is `-`
//! itself; where an option or `--` comes in its place, the value is missing,
//! unless that option is unknown or takes no value but has one attached,
//! which is reported instead.  `--` ends the options: what follows are positional arguments.
//! Giving an option twice on one level is an error; `--signature` may be
//! given before and after the subcommand, and the later one counts.
use vstd::prelude::*;
use crate::cli::{Cli, CliModel, Commands, CommandsModel, SoundType, Subdivision};
use crate::text::{digit_char, spec_decimal};

verus! {

/// Why a command line was refused.
#[derive(Copy, Clone, Debug, PartialEq, Eq, Structural)]
pub enum CliError {
    /// `-h`, `--help` or the `help` subcommand asked for the help of a command.
    DisplayHelp(HelpTopic),
    /// `-V` or `--version` was given.
    DisplayVersion,
    /// An option that this level does not know, a positional argument for
    /// which there is no place, or a `help` subcommand followed by anything
    /// but the name of one subcommand.
    UnknownArgument,
    /// A value was attached to an option that takes none (`--mute=yes`).
    UnexpectedValue,
    /// An option that takes a value was not given one.
    MissingValue,
    /// A value that is not a number in range or not one of the allowed names.
    InvalidValue,
    /// The same option was given twice on one level.
    DuplicateArgument,
    /// `ramp` was given without its pattern.
    MissingArgument,
}

/// The command whose help was asked for.
#[derive(Copy, Clone, Debug, PartialEq, Eq, Structural)]
pub enum HelpTopic {
    Top,
    Tap,
    Ramp,
    Help,
}

pub open spec fn level_topic(level: Level) -> HelpTopic {
    match level {
        Level::Top => HelpTopic::Top,
        Level::Tap => HelpTopic::Tap,
        Level::Ramp => HelpTopic::Ramp,
    }
}

fn topic_of(level: Level) -> (r: HelpTopic)
    ensures
        r == level_topic(level),
{
    match level {
        Level::Top => HelpTopic::Top,
        Level::Tap => HelpTopic::Tap,
        Level::Ramp => HelpTopic::Ramp,
    }
}

/// Which level of the command line the parser is on.
#[derive(Copy, Clone, Debug, PartialEq, Eq, Structural)]
pub enum Level {
    Top,
    Tap,
    Ramp,
}

/// The options that take a value.
#[derive(Copy, Clone, Debug, PartialEq, Eq, Structural)]
pub enum ValueOpt {
    Bpm,
    Signature,
    Subdivision,
    Sound,
    Amount,
}

/// What an option name stands for on a level.
#[derive(Copy, Clone, Debug, PartialEq, Eq, Structural)]
pub enum OptName {
    Help,
    Version,
    Mute,
    Value(ValueOpt),
    Unknown,
}

/// A value's text: argument `token` from character `start` to its end.
#[derive(Copy, Clone, Debug, PartialEq, Eq, Structural)]
pub struct Span {
    pub token: usize,
    pub start: usize,
}

/// What has been read of the command line so far.
#[derive(Copy, Clone, Debug, PartialEq, Eq, Structural)]
pub struct ParseState {
    pub level: Level,
    /// `--` was given on this level.
    pub escaped: bool,
    /// An option whose value is the next argument.
    pub pending: Option<ValueOpt>,
    pub bpm_positional: Option<u16>,
    pub bpm: Option<u16>,
    pub signature: Option<Span>,
    pub sub_signature: Option<Span>,
    pub subdivision: Option<Subdivision>,
    pub mute: bool,
    pub sound: Option<SoundType>,
    pub amount: Option<u8>,
    pub pattern: Option<Span>,
}

pub open spec fn initial_state() -> ParseState {
    ParseState {
        level: Level::Top,
        escaped: false,
        pending: None,
        bpm_positional: None,
        bpm: None,
        signature: None,
        sub_signature: None,
        subdivision: None,
        mute: false,
        sound: None,
        amount: None,
        pattern: None,
    }
}

/// The arguments as character sequences.
pub open spec fn arg_texts(args: Seq<&str>) -> Seq<Seq<char>> {
    args.map_values(|s: &str| s@)
}

pub open spec fn is_digit(c: char) -> bool {
    '0' <= c <= '9'
}

pub open spec fn all_digits(s: Seq<char>) -> bool {
    s.len() > 0 && forall|k: int| 0 <= k < s.len() ==> is_digit(#[trigger] s[k])
}

/// The number that a string of decimal digits denotes.
pub open spec fn digits_value(s: Seq<char>) -> int
    decreases s.len(),
{
    if s.len() == 0 {
        0
    } else {
        digits_value(s.drop_last()) * 10 + (s.last() as int - '0' as int)
    }
}

/// The integer that `s` denotes: an optional sign, then decimal digits.
pub open spec fn int_value(s: Seq<char>) -> Option<int> {
    if s.len() > 0 && s[0] == '+' && all_digits(s.skip(1)) {
        Some(digits_value(s.skip(1)))
    } else if s.len() > 0 && s[0] == '-' && all_digits(s.skip(1)) {
        Some(-digits_value(s.skip(1)))
    } else if all_digits(s) {
        Some(digits_value(s))
    } else {
        None
    }
}

/// The integer that `s` denotes, where it lies in `lo..=hi`.
pub open spec fn ranged_value(s: Seq<char>, lo: int, hi: int) -> Option<int> {
    match int_value(s) {
        Some(v) => if lo <= v <= hi { Some(v) } else { None },
        None => None,
    }
}

pub open spec fn subdivision_named(s: Seq<char>) -> Option<Subdivision> {
    if s == "quarter"@ {
        Some(Subdivision::Quarter)
    } else if s == "eighth"@ {
        Some(Subdivision::Eighth)
    } else if s == "triplet"@ {
        Some(Subdivision::Triplet)
    } else if s == "sixteenth"@ {
        Some(Subdivision::Sixteenth)
    } else {
        None
    }
}

pub open spec fn sound_named(s: Seq<char>) -> Option<SoundType> {
    if s == "click"@ {
        Some(SoundType::Click)
    } else if s == "wood"@ {
        Some(SoundType::Wood)
    } else if s == "cowbell"@ {
        Some(SoundType::Cowbell)
    } else if s == "sidestick"@ {
        Some(SoundType::Sidestick)
    } else if s == "beep"@ {
        Some(SoundType::Beep)
    } else {
        None
    }
}

pub open spec fn is_escape(tok: Seq<char>) -> bool {
    tok.len() == 2 && tok[0] == '-' && tok[1] == '-'
}

pub open spec fn is_long(tok: Seq<char>) -> bool {
    tok.len() > 2 && tok[0] == '-' && tok[1] == '-'
}

pub open spec fn is_short(tok: Seq<char>) -> bool {
    tok.len() >= 2 && tok[0] == '-' && tok[1] != '-'
}

/// The index of the first `c` in `s` at or after `from`, or `s.len()`.
pub open spec fn find_char(s: Seq<char>, c: char, from: int) -> int
    decreases s.len() - from,
{
    if from >= s.len() {
        s.len() as int
    } else if s[from] == c {
        from
    } else {
        find_char(s, c, from + 1)
    }
}

pub open spec fn long_name(level: Level, name: Seq<char>) -> OptName {
    if name == "help"@ {
        OptName::Help
    } else if level == Level::Top && name == "version"@ {
        OptName::Version
    } else if level == Level::Top && name == "mute"@ {
        OptName::Mute
    } else if level == Level::Top && name == "bpm"@ {
        OptName::Value(ValueOpt::Bpm)
    } else if name == "signature"@ {
        OptName::Value(ValueOpt::Signature)
    } else if level == Level::Top && name == "subdivision"@ {
        OptName::Value(ValueOpt::Subdivision)
    } else if level == Level::Top && name == "sound"@ {
        OptName::Value(ValueOpt::Sound)
    } else if level == Level::Tap && name == "amount"@ {
        OptName::Value(ValueOpt::Amount)
    } else {
        OptName::Unknown
    }
}

pub open spec fn short_name(level: Level, c: char) -> OptName {
    if c == 'h' {
        OptName::Help
    } else if level == Level::Top && c == 'V' {
        OptName::Version
    } else if level == Level::Top && c == 'b' {
        OptName::Value(ValueOpt::Bpm)
    } else if c == 's' {
        OptName::Value(ValueOpt::Signature)
    } else if level == Level::Tap && c == 'a' {
        OptName::Value(ValueOpt::Amount)
    } else {
        OptName::Unknown
    }
}

/// The text of a value.
pub open spec fn span_text(toks: Seq<Seq<char>>, span: Span) -> Seq<char> {
    toks[span.token as int].skip(span.start as int)
}

/// Stores the value `span` for option `opt`.
pub open spec fn apply_value(toks: Seq<Seq<char>>, st: ParseState, opt: ValueOpt, span: Span) -> Result<ParseState, CliError> {
    let v = span_text(toks, span);
    match opt {
        ValueOpt::Bpm => if st.bpm is Some {
            Err(CliError::DuplicateArgument)
        } else {
            match ranged_value(v, 20, 400) {
                Some(n) => Ok(ParseState { bpm: Some(n as u16), ..st }),
                None => Err(CliError::InvalidValue),
            }
        },
        ValueOpt::Signature => if st.level == Level::Top {
            if st.signature is Some {
                Err(CliError::DuplicateArgument)
            } else {
                Ok(ParseState { signature: Some(span), ..st })
            }
        } else {
            if st.sub_signature is Some {
                Err(CliError::DuplicateArgument)
            } else {
                Ok(ParseState { sub_signature: Some(span), ..st })
            }
        },
        ValueOpt::Subdivision => if st.subdivision is Some {
            Err(CliError::DuplicateArgument)
        } else {
            match subdivision_named(v) {
                Some(d) => Ok(ParseState { subdivision: Some(d), ..st }),
                None => Err(CliError::InvalidValue),
            }
        },
        ValueOpt::Sound => if st.sound is Some {
            Err(CliError::DuplicateArgument)
        } else {
            match sound_named(v) {
                Some(d) => Ok(ParseState { sound: Some(d), ..st }),
                None => Err(CliError::InvalidValue),
            }
        },
        ValueOpt::Amount => if st.amount is Some {
            Err(CliError::DuplicateArgument)
        } else {
            match ranged_value(v, 2, 64) {
                Some(n) => Ok(ParseState { amount: Some(n as u8), ..st }),
                None => Err(CliError::InvalidValue),
            }
        },
    }
}

/// Reads the long option `--name` or `--name=value` in argument `i`.
pub open spec fn long_step(toks: Seq<Seq<char>>, i: int, st: ParseState) -> Result<ParseState, CliError> {
    let tok = toks[i];
    let eq = find_char(tok, '=', 2);
    let attached = eq < tok.len();
    match long_name(st.level, tok.subrange(2, eq)) {
        OptName::Unknown => Err(CliError::UnknownArgument),
        OptName::Help => if attached { Err(CliError::UnexpectedValue) } else { Err(CliError::DisplayHelp(level_topic(st.level))) },
        OptName::Version => if attached { Err(CliError::UnexpectedValue) } else { Err(CliError::DisplayVersion) },
        OptName::Mute => if attached {
            Err(CliError::UnexpectedValue)
        } else if st.mute {
            Err(CliError::DuplicateArgument)
        } else {
            Ok(ParseState { mute: true, ..st })
        },
        OptName::Value(o) => if attached {
            apply_value(toks, st, o, Span { token: i as usize, start: (eq + 1) as usize })
        } else {
            Ok(ParseState { pending: Some(o), ..st })
        },
    }
}

/// Reads the short option `-c`, `-cvalue` or `-c=value` in argument `i`.
pub open spec fn short_step(toks: Seq<Seq<char>>, i: int, st: ParseState) -> Result<ParseState, CliError> {
    let tok = toks[i];
    match short_name(st.level, tok[1]) {
        OptName::Help => Err(CliError::DisplayHelp(level_topic(st.level))),
        OptName::Version => Err(CliError::DisplayVersion),
        OptName::Value(o) => if tok.len() == 2 {
            Ok(ParseState { pending: Some(o), ..st })
        } else if tok[2] == '=' {
            apply_value(toks, st, o, Span { token: i as usize, start: 3 })
        } else {
            apply_value(toks, st, o, Span { token: i as usize, start: 2 })
        },
        _ => Err(CliError::UnknownArgument),
    }
}

/// Reads argument `i` as a positional argument.
pub open spec fn positional_step(toks: Seq<Seq<char>>, i: int, st: ParseState) -> Result<ParseState, CliError> {
    match st.level {
        Level::Top => if st.bpm_positional is Some {
            Err(CliError::UnknownArgument)
        } else {
            match ranged_value(toks[i], 20, 400) {
                Some(n) => Ok(ParseState { bpm_positional: Some(n as u16), ..st }),
                None => Err(CliError::InvalidValue),
            }
        },
        Level::Tap => Err(CliError::UnknownArgument),
        Level::Ramp => if st.pattern is Some {
            Err(CliError::UnknownArgument)
        } else {
            Ok(ParseState { pattern: Some(Span { token: i as usize, start: 0 }), ..st })
        },
    }
}

/// The `help` subcommand in argument `i`: it takes at most the name of one
/// subcommand, which has no subcommands of its own.
pub open spec fn help_request(toks: Seq<Seq<char>>, i: int) -> Result<ParseState, CliError> {
    let rest = toks.len() - (i + 1);
    if rest == 0 {
        Err(CliError::DisplayHelp(HelpTopic::Top))
    } else if rest == 1 && toks[i + 1] == "tap"@ {
        Err(CliError::DisplayHelp(HelpTopic::Tap))
    } else if rest == 1 && toks[i + 1] == "ramp"@ {
        Err(CliError::DisplayHelp(HelpTopic::Ramp))
    } else if rest == 1 && toks[i + 1] == "help"@ {
        Err(CliError::DisplayHelp(HelpTopic::Help))
    } else {
        Err(CliError::UnknownArgument)
    }
}

/// The long option `tok` where the previous option still wants its value:
/// an unknown name is reported as such, a value attached to an option that
/// takes none as such, and anything else as the missing value.
pub open spec fn missing_value_before_long(level: Level, tok: Seq<char>) -> Result<ParseState, CliError> {
    let eq = find_char(tok, '=', 2);
    let attached = eq < tok.len();
    match long_name(level, tok.subrange(2, eq)) {
        OptName::Unknown => Err(CliError::UnknownArgument),
        OptName::Value(_) => Err(CliError::MissingValue),
        _ => if attached { Err(CliError::UnexpectedValue) } else { Err(CliError::MissingValue) },
    }
}

/// Reads argument `i`.
pub open spec fn step(toks: Seq<Seq<char>>, i: int, st: ParseState) -> Result<ParseState, CliError> {
    let tok = toks[i];
    match st.pending {
        Some(o) => if is_escape(tok) {
            Err(CliError::MissingValue)
        } else if is_long(tok) {
            missing_value_before_long(st.level, tok)
        } else if is_short(tok) {
            if short_name(st.level, tok[1]) == OptName::Unknown {
                Err(CliError::UnknownArgument)
            } else {
                Err(CliError::MissingValue)
            }
        } else {
            apply_value(toks, ParseState { pending: None, ..st }, o, Span { token: i as usize, start: 0 })
        },
        None => if !st.escaped && st.level == Level::Top && tok == "help"@ {
            help_request(toks, i)
        } else if !st.escaped && st.level == Level::Top && tok == "tap"@ {
            Ok(ParseState { level: Level::Tap, ..st })
        } else if !st.escaped && st.level == Level::Top && tok == "ramp"@ {
            Ok(ParseState { level: Level::Ramp, ..st })
        } else if !st.escaped && is_escape(tok) {
            Ok(ParseState { escaped: true, ..st })
        } else if !st.escaped && is_long(tok) {
            long_step(toks, i, st)
        } else if !st.escaped && is_short(tok) {
            short_step(toks, i, st)
        } else {
            positional_step(toks, i, st)
        },
    }
}

/// Reads the arguments from `i` on.
pub open spec fn run(toks: Seq<Seq<char>>, i: int, st: ParseState) -> Result<ParseState, CliError>
    decreases toks.len() - i,
{
    if i >= toks.len() {
        Ok(st)
    } else {
        match step(toks, i, st) {
            Ok(next) => run(toks, i + 1, next),
            Err(e) => Err(e),
        }
    }
}

/// The command line that a complete reading denotes, with its defaults.
pub open spec fn finish(toks: Seq<Seq<char>>, st: ParseState) -> Result<CliModel, CliError> {
    if st.pending is Some {
        Err(CliError::MissingValue)
    } else if st.level == Level::Ramp && st.pattern is None {
        Err(CliError::MissingArgument)
    } else {
        Ok(CliModel {
            bpm_positional: st.bpm_positional,
            bpm: match st.bpm { Some(b) => b, None => 120 },
            signature: match st.sub_signature {
                Some(s) => span_text(toks, s),
                None => match st.signature {
                    Some(s) => span_text(toks, s),
                    None => "4/4"@,
                },
            },
            subdivision: match st.subdivision { Some(d) => d, None => Subdivision::Quarter },
            mute: st.mute,
            sound: match st.sound { Some(s) => s, None => SoundType::Click },
            command: match st.level {
                Level::Top => None,
                Level::Tap => Some(CommandsModel::Tap { amount: match st.amount { Some(a) => a, None => 8 } }),
                Level::Ramp => Some(CommandsModel::Ramp { pattern: span_text(toks, st.pattern->0) }),
            },
        })
    }
}

/// What the command line `toks` (program name first) denotes.
pub open spec fn spec_parse(toks: Seq<Seq<char>>) -> Result<CliModel, CliError> {
    if toks.len() == 0 {
        finish(toks, initial_state())
    } else {
        match run(toks, 1, initial_state()) {
            Ok(st) => finish(toks, st),
            Err(e) => Err(e),
        }
    }
}


proof fn lemma_digits_value_nonneg(s: Seq<char>)
    requires
        forall|k: int| 0 <= k < s.len() ==> is_digit(#[trigger] s[k]),
    ensures
        digits_value(s) >= 0,
    decreases s.len(),
{
    if s.len() > 0 {
        lemma_digits_value_nonneg(s.drop_last());
    }
}

/// Whether the characters `from..to` of `s` spell `lit`.
fn text_eq(s: &str, from: usize, to: usize, lit: &str) -> (b: bool)
    requires
        from <= to <= s@.len(),
    ensures
        b == (s@.subrange(from as int, to as int) == lit@),
{
    let n = lit.unicode_len();
    if to - from != n {
        return false;
    }
    let mut k: usize = 0;
    while k < n
        invariant
            n == lit@.len(),
            to - from == n,
            from <= to <= s@.len(),
            0 <= k <= n,
            forall|j: int| 0 <= j < k ==> s@[from + j] == lit@[j],
        decreases n - k,
    {
        if s.get_char(from + k) != lit.get_char(k) {
            assert(s@.subrange(from as int, to as int)[k as int] != lit@[k as int]);
            return false;
        }
        k = k + 1;
    }
    assert(s@.subrange(from as int, to as int) =~= lit@);
    true
}

/// Whether the text of `s` from character `from` on spells `lit`.
fn rest_eq(s: &str, from: usize, lit: &str) -> (b: bool)
    requires
        from <= s@.len(),
    ensures
        b == (s@.skip(from as int) == lit@),
{
    let n = s.unicode_len();
    assert(s@.skip(from as int) =~= s@.subrange(from as int, n as int));
    text_eq(s, from, n, lit)
}

/// The index of the first `c` in `s` at or after `from`, or the length of `s`.
fn find_char_in(s: &str, c: char, from: usize) -> (r: usize)
    requires
        from <= s@.len(),
    ensures
        r as int == find_char(s@, c, from as int),
        from <= r <= s@.len(),
        r < s@.len() ==> s@[r as int] == c,
{
    let n = s.unicode_len();
    let mut k = from;
    while k < n
        invariant
            n == s@.len(),
            from <= k <= n,
            find_char(s@, c, k as int) == find_char(s@, c, from as int),
        decreases n - k,
    {
        if s.get_char(k) == c {
            return k;
        }
        k = k + 1;
    }
    k
}

/// The number in `lo..=hi` that the text of `s` from character `from` on denotes.
fn ranged_number(s: &str, from: usize, lo: u16, hi: u16) -> (r: Option<u16>)
    requires
        from <= s@.len(),
        1 <= lo <= hi,
    ensures
        r == (match ranged_value(s@.skip(from as int), lo as int, hi as int) {
            Some(v) => Some(v as u16),
            None => None,
        }),
{
    let ghost t = s@.skip(from as int);
    let n = s.unicode_len();
    if from == n {
        return None;
    }
    let first = s.get_char(from);
    let negative = first == '-';
    let signed = first == '+' || first == '-';
    let start: usize = if signed { from + 1 } else { from };
    if start == n {
        return None;
    }
    let cap: u32 = 100000;
    let mut acc: u32 = 0;
    let mut k = start;
    while k < n
        invariant
            n == s@.len(),
            from <= start <= k <= n,
            start < n,
            acc <= cap,
            cap == 100000,
            t == s@.skip(from as int),
            from < n,
            signed == (s@[from as int] == '+' || s@[from as int] == '-'),
            start == (if signed { from + 1 } else { from as int }),
            forall|j: int| start <= j < k ==> is_digit(#[trigger] s@[j]),
            acc as int == (if digits_value(s@.subrange(start as int, k as int)) < cap {
                digits_value(s@.subrange(start as int, k as int))
            } else {
                cap as int
            }),
        decreases n - k,
    {
        let c = s.get_char(k);
        if !('0' <= c && c <= '9') {
            proof {
                let rest = s@.subrange(start as int, n as int);
                assert(rest[k - start] == c);
                assert(!all_digits(rest));
                if signed {
                    assert(t.skip(1) =~= rest);
                    assert(!all_digits(t));
                } else {
                    assert(t =~= rest);
                    assert(t[0] != '+' && t[0] != '-');
                }
            }
            return None;
        }
        let d: u32 = (c as u32) - ('0' as u32);
        proof {
            let prev = s@.subrange(start as int, k as int);
            let next = s@.subrange(start as int, k + 1);
            assert(next.drop_last() =~= prev);
            assert(digits_value(next) == digits_value(prev) * 10 + d);
            lemma_digits_value_nonneg(prev);
        }
        if acc >= 10000 {
            acc = cap;
        } else {
            let v = acc * 10 + d;
            acc = if v < cap { v } else { cap };
        }
        k = k + 1;
    }
    proof {
        let rest = s@.subrange(start as int, n as int);
        assert(all_digits(rest));
        lemma_digits_value_nonneg(rest);
        if signed {
            assert(t.skip(1) =~= rest);
        } else {
            assert(t =~= rest);
        }
    }
    if negative {
        None
    } else if lo as u32 <= acc && acc <= hi as u32 {
        Some(acc as u16)
    } else {
        None
    }
}


fn subdivision_in(s: &str, from: usize) -> (r: Option<Subdivision>)
    requires
        from <= s@.len(),
    ensures
        r == subdivision_named(s@.skip(from as int)),
{
    if rest_eq(s, from, "quarter") {
        Some(Subdivision::Quarter)
    } else if rest_eq(s, from, "eighth") {
        Some(Subdivision::Eighth)
    } else if rest_eq(s, from, "triplet") {
        Some(Subdivision::Triplet)
    } else if rest_eq(s, from, "sixteenth") {
        Some(Subdivision::Sixteenth)
    } else {
        None
    }
}

fn sound_in(s: &str, from: usize) -> (r: Option<SoundType>)
    requires
        from <= s@.len(),
    ensures
        r == sound_named(s@.skip(from as int)),
{
    if rest_eq(s, from, "click") {
        Some(SoundType::Click)
    } else if rest_eq(s, from, "wood") {
        Some(SoundType::Wood)
    } else if rest_eq(s, from, "cowbell") {
        Some(SoundType::Cowbell)
    } else if rest_eq(s, from, "sidestick") {
        Some(SoundType::Sidestick)
    } else if rest_eq(s, from, "beep") {
        Some(SoundType::Beep)
    } else {
        None
    }
}

proof fn lemma_arg_text(args: Seq<&str>, i: int)
    requires
        0 <= i < args.len(),
    ensures
        arg_texts(args)[i] == args[i]@,
        arg_texts(args).len() == args.len(),
{
}

fn apply_value_exec(args: &[&str], st: ParseState, opt: ValueOpt, span: Span) -> (r: Result<ParseState, CliError>)
    requires
        span.token < args@.len(),
        span.start <= args@[span.token as int]@.len(),
    ensures
        r == apply_value(arg_texts(args@), st, opt, span),
{
    let tok: &str = args[span.token];
    proof {
        lemma_arg_text(args@, span.token as int);
    }
    match opt {
        ValueOpt::Bpm => if st.bpm.is_some() {
            Err(CliError::DuplicateArgument)
        } else {
            match ranged_number(tok, span.start, 20, 400) {
                Some(n) => Ok(ParseState { bpm: Some(n), ..st }),
                None => Err(CliError::InvalidValue),
            }
        },
        ValueOpt::Signature => if st.level == Level::Top {
            if st.signature.is_some() {
                Err(CliError::DuplicateArgument)
            } else {
                Ok(ParseState { signature: Some(span), ..st })
            }
        } else {
            if st.sub_signature.is_some() {
                Err(CliError::DuplicateArgument)
            } else {
                Ok(ParseState { sub_signature: Some(span), ..st })
            }
        },
        ValueOpt::Subdivision => if st.subdivision.is_some() {
            Err(CliError::DuplicateArgument)
        } else {
            match subdivision_in(tok, span.start) {
                Some(d) => Ok(ParseState { subdivision: Some(d), ..st }),
                None => Err(CliError::InvalidValue),
            }
        },
        ValueOpt::Sound => if st.sound.is_some() {
            Err(CliError::DuplicateArgument)
        } else {
            match sound_in(tok, span.start) {
                Some(d) => Ok(ParseState { sound: Some(d), ..st }),
                None => Err(CliError::InvalidValue),
            }
        },
        ValueOpt::Amount => if st.amount.is_some() {
            Err(CliError::DuplicateArgument)
        } else {
            match ranged_number(tok, span.start, 2, 64) {
                Some(n) => Ok(ParseState { amount: Some(n as u8), ..st }),
                None => Err(CliError::InvalidValue),
            }
        },
    }
}

fn long_name_in(level: Level, s: &str, from: usize, to: usize) -> (r: OptName)
    requires
        from <= to <= s@.len(),
    ensures
        r == long_name(level, s@.subrange(from as int, to as int)),
{
    if text_eq(s, from, to, "help") {
        OptName::Help
    } else if level == Level::Top && text_eq(s, from, to, "version") {
        OptName::Version
    } else if level == Level::Top && text_eq(s, from, to, "mute") {
        OptName::Mute
    } else if level == Level::Top && text_eq(s, from, to, "bpm") {
        OptName::Value(ValueOpt::Bpm)
    } else if text_eq(s, from, to, "signature") {
        OptName::Value(ValueOpt::Signature)
    } else if level == Level::Top && text_eq(s, from, to, "subdivision") {
        OptName::Value(ValueOpt::Subdivision)
    } else if level == Level::Top && text_eq(s, from, to, "sound") {
        OptName::Value(ValueOpt::Sound)
    } else if level == Level::Tap && text_eq(s, from, to, "amount") {
        OptName::Value(ValueOpt::Amount)
    } else {
        OptName::Unknown
    }
}

fn short_name_of(level: Level, c: char) -> (r: OptName)
    ensures
        r == short_name(level, c),
{
    if c == 'h' {
        OptName::Help
    } else if level == Level::Top && c == 'V' {
        OptName::Version
    } else if level == Level::Top && c == 'b' {
        OptName::Value(ValueOpt::Bpm)
    } else if c == 's' {
        OptName::Value(ValueOpt::Signature)
    } else if level == Level::Tap && c == 'a' {
        OptName::Value(ValueOpt::Amount)
    } else {
        OptName::Unknown
    }
}

fn long_step_exec(args: &[&str], i: usize, st: ParseState) -> (r: Result<ParseState, CliError>)
    requires
        i < args@.len(),
        is_long(args@[i as int]@),
    ensures
        r == long_step(arg_texts(args@), i as int, st),
{
    let tok: &str = args[i];
    proof {
        lemma_arg_text(args@, i as int);
    }
    let n = tok.unicode_len();
    let eq = find_char_in(tok, '=', 2);
    let attached = eq < n;
    match long_name_in(st.level, tok, 2, eq) {
        OptName::Unknown => Err(CliError::UnknownArgument),
        OptName::Help => if attached { Err(CliError::UnexpectedValue) } else { Err(CliError::DisplayHelp(topic_of(st.level))) },
        OptName::Version => if attached { Err(CliError::UnexpectedValue) } else { Err(CliError::DisplayVersion) },
        OptName::Mute => if attached {
            Err(CliError::UnexpectedValue)
        } else if st.mute {
            Err(CliError::DuplicateArgument)
        } else {
            Ok(ParseState { mute: true, ..st })
        },
        OptName::Value(o) => if attached {
            apply_value_exec(args, st, o, Span { token: i, start: eq + 1 })
        } else {
            Ok(ParseState { pending: Some(o), ..st })
        },
    }
}

fn short_step_exec(args: &[&str], i: usize, st: ParseState) -> (r: Result<ParseState, CliError>)
    requires
        i < args@.len(),
        is_short(args@[i as int]@),
    ensures
        r == short_step(arg_texts(args@), i as int, st),
{
    let tok: &str = args[i];
    proof {
        lemma_arg_text(args@, i as int);
    }
    let n = tok.unicode_len();
    match short_name_of(st.level, tok.get_char(1)) {
        OptName::Help => Err(CliError::DisplayHelp(topic_of(st.level))),
        OptName::Version => Err(CliError::DisplayVersion),
        OptName::Value(o) => if n == 2 {
            Ok(ParseState { pending: Some(o), ..st })
        } else if tok.get_char(2) == '=' {
            apply_value_exec(args, st, o, Span { token: i, start: 3 })
        } else {
            apply_value_exec(args, st, o, Span { token: i, start: 2 })
        },
        _ => Err(CliError::UnknownArgument),
    }
}

fn positional_step_exec(args: &[&str], i: usize, st: ParseState) -> (r: Result<ParseState, CliError>)
    requires
        i < args@.len(),
    ensures
        r == positional_step(arg_texts(args@), i as int, st),
{
    let tok: &str = args[i];
    proof {
        lemma_arg_text(args@, i as int);
        assert(tok@.skip(0) =~= tok@);
    }
    match st.level {
        Level::Top => if st.bpm_positional.is_some() {
            Err(CliError::UnknownArgument)
        } else {
            match ranged_number(tok, 0, 20, 400) {
                Some(n) => Ok(ParseState { bpm_positional: Some(n), ..st }),
                None => Err(CliError::InvalidValue),
            }
        },
        Level::Tap => Err(CliError::UnknownArgument),
        Level::Ramp => if st.pattern.is_some() {
            Err(CliError::UnknownArgument)
        } else {
            Ok(ParseState { pattern: Some(Span { token: i, start: 0 }), ..st })
        },
    }
}

/// Whether `s` is exactly `--`, a long option, or a short option.
fn classify(s: &str) -> (r: (bool, bool, bool))
    ensures
        r.0 == is_escape(s@),
        r.1 == is_long(s@),
        r.2 == is_short(s@),
{
    let n = s.unicode_len();
    if n < 2 || s.get_char(0) != '-' {
        (false, false, false)
    } else if s.get_char(1) == '-' {
        (n == 2, n > 2, false)
    } else {
        (false, false, true)
    }
}

fn help_request_exec(args: &[&str], i: usize) -> (r: Result<ParseState, CliError>)
    requires
        i < args@.len(),
    ensures
        r == help_request(arg_texts(args@), i as int),
{
    proof {
        assert(arg_texts(args@).len() == args@.len());
    }
    let rest = args.len() - (i + 1);
    if rest == 0 {
        return Err(CliError::DisplayHelp(HelpTopic::Top));
    }
    if rest == 1 {
        let next: &str = args[i + 1];
        proof {
            lemma_arg_text(args@, i + 1);
            assert(next@.subrange(0, next@.len() as int) =~= next@);
        }
        let n = next.unicode_len();
        if text_eq(next, 0, n, "tap") {
            return Err(CliError::DisplayHelp(HelpTopic::Tap));
        } else if text_eq(next, 0, n, "ramp") {
            return Err(CliError::DisplayHelp(HelpTopic::Ramp));
        } else if text_eq(next, 0, n, "help") {
            return Err(CliError::DisplayHelp(HelpTopic::Help));
        }
    }
    Err(CliError::UnknownArgument)
}

fn step_exec(args: &[&str], i: usize, st: ParseState) -> (r: Result<ParseState, CliError>)
    requires
        i < args@.len(),
    ensures
        r == step(arg_texts(args@), i as int, st),
{
    let tok: &str = args[i];
    proof {
        lemma_arg_text(args@, i as int);
        assert(tok@.subrange(0, tok@.len() as int) =~= tok@);
    }
    let n = tok.unicode_len();
    let (escape, long, short) = classify(tok);
    match st.pending {
        Some(o) => if escape {
            Err(CliError::MissingValue)
        } else if long {
            let eq = find_char_in(tok, '=', 2);
            let attached = eq < n;
            match long_name_in(st.level, tok, 2, eq) {
                OptName::Unknown => Err(CliError::UnknownArgument),
                OptName::Value(_) => Err(CliError::MissingValue),
                _ => if attached { Err(CliError::UnexpectedValue) } else { Err(CliError::MissingValue) },
            }
        } else if short {
            if short_name_of(st.level, tok.get_char(1)) == OptName::Unknown {
                Err(CliError::UnknownArgument)
            } else {
                Err(CliError::MissingValue)
            }
        } else {
            apply_value_exec(args, ParseState { pending: None, ..st }, o, Span { token: i, start: 0 })
        },
        None => if !st.escaped && st.level == Level::Top && text_eq(tok, 0, n, "help") {
            help_request_exec(args, i)
        } else if !st.escaped && st.level == Level::Top && text_eq(tok, 0, n, "tap") {
            Ok(ParseState { level: Level::Tap, ..st })
        } else if !st.escaped && st.level == Level::Top && text_eq(tok, 0, n, "ramp") {
            Ok(ParseState { level: Level::Ramp, ..st })
        } else if !st.escaped && escape {
            Ok(ParseState { escaped: true, ..st })
        } else if !st.escaped && long {
            long_step_exec(args, i, st)
        } else if !st.escaped && short {
            short_step_exec(args, i, st)
        } else {
            positional_step_exec(args, i, st)
        },
    }
}


/// The text of a value as an owned string.
fn span_string(args: &[&str], span: Span) -> (r: String)
    requires
        span.token < args@.len(),
        span.start <= args@[span.token as int]@.len(),
    ensures
        r@ == span_text(arg_texts(args@), span),
{
    let tok: &str = args[span.token];
    proof {
        lemma_arg_text(args@, span.token as int);
    }
    let n = tok.unicode_len();
    let part = tok.substring_char(span.start, n);
    proof {
        assert(part@ =~= tok@.skip(span.start as int));
    }
    String::from_str(part)
}

/// What every span of a reading of `toks` satisfies.
pub open spec fn spans_valid(toks: Seq<Seq<char>>, st: ParseState) -> bool {
    let ok = |sp: Option<Span>| match sp {
        Some(x) => x.token < toks.len() && x.start <= toks[x.token as int].len(),
        None => true,
    };
    &&& ok(st.signature)
    &&& ok(st.sub_signature)
    &&& ok(st.pattern)
}

proof fn lemma_step_spans(toks: Seq<Seq<char>>, i: int, st: ParseState)
    requires
        0 <= i < toks.len(),
        i <= usize::MAX,
        spans_valid(toks, st),
    ensures
        step(toks, i, st) matches Ok(next) ==> spans_valid(toks, next),
{
    let tok = toks[i];
    if is_long(tok) {
        let eq = find_char(tok, '=', 2);
        lemma_find_char_bounds(tok, '=', 2);
    }
}

proof fn lemma_find_char_bounds(s: Seq<char>, c: char, from: int)
    requires
        0 <= from <= s.len(),
    ensures
        from <= find_char(s, c, from) <= s.len(),
    decreases s.len() - from,
{
    if from < s.len() && s[from] != c {
        lemma_find_char_bounds(s, c, from + 1);
    }
}

fn finish_exec(args: &[&str], st: ParseState) -> (r: Result<Cli, CliError>)
    requires
        spans_valid(arg_texts(args@), st),
    ensures
        match r {
            Ok(c) => finish(arg_texts(args@), st) == Ok::<CliModel, CliError>(c@),
            Err(e) => finish(arg_texts(args@), st) == Err::<CliModel, CliError>(e),
        },
{
    proof {
        assert(arg_texts(args@).len() == args@.len());
    }
    if st.pending.is_some() {
        return Err(CliError::MissingValue);
    }
    if st.level == Level::Ramp && st.pattern.is_none() {
        return Err(CliError::MissingArgument);
    }
    let signature = match st.sub_signature {
        Some(sp) => span_string(args, sp),
        None => match st.signature {
            Some(sp) => span_string(args, sp),
            None => String::from_str("4/4"),
        },
    };
    let command = match st.level {
        Level::Top => None,
        Level::Tap => Some(Commands::Tap { amount: match st.amount { Some(a) => a, None => 8 } }),
        Level::Ramp => {
            let sp = st.pattern.unwrap();
            Some(Commands::Ramp { pattern: span_string(args, sp) })
        },
    };
    let cli = Cli {
        bpm_positional: st.bpm_positional,
        bpm: match st.bpm { Some(b) => b, None => 120 },
        signature,
        subdivision: match st.subdivision { Some(d) => d, None => Subdivision::Quarter },
        mute: st.mute,
        sound: match st.sound { Some(s) => s, None => SoundType::Click },
        command,
    };
    Ok(cli)
}

impl Cli {
    /// Parses a command line whose first element is the program's name.
    pub fn try_parse_from(args: &[&str]) -> (r: Result<Cli, CliError>)
        ensures
            match r {
                Ok(c) => spec_parse(arg_texts(args@)) == Ok::<CliModel, CliError>(c@),
                Err(e) => spec_parse(arg_texts(args@)) == Err::<CliModel, CliError>(e),
            },
    {
        let ghost toks = arg_texts(args@);
        let mut st = ParseState {
            level: Level::Top,
            escaped: false,
            pending: None,
            bpm_positional: None,
            bpm: None,
            signature: None,
            sub_signature: None,
            subdivision: None,
            mute: false,
            sound: None,
            amount: None,
            pattern: None,
        };
        if args.len() == 0 {
            return finish_exec(args, st);
        }
        let mut i: usize = 1;
        while i < args.len()
            invariant
                toks == arg_texts(args@),
                toks.len() == args@.len(),
                1 <= i <= args@.len(),
                run(toks, i as int, st) == run(toks, 1, initial_state()),
                spans_valid(toks, st),
            decreases args@.len() - i,
        {
            proof {
                lemma_step_spans(toks, i as int, st);
            }
            match step_exec(args, i, st) {
                Ok(next) => {
                    st = next;
                },
                Err(e) => {
                    return Err(e);
                },
            }
            i = i + 1;
        }
        finish_exec(args, st)
    }
}


/// The values that a reading holds lie in the ranges that the options allow.
pub open spec fn values_in_range(st: ParseState) -> bool {
    &&& (st.bpm matches Some(b) ==> 20 <= b <= 400)
    &&& (st.bpm_positional matches Some(b) ==> 20 <= b <= 400)
    &&& (st.amount matches Some(a) ==> 2 <= a <= 64)
}

proof fn lemma_step_in_range(toks: Seq<Seq<char>>, i: int, st: ParseState)
    requires
        0 <= i < toks.len(),
        values_in_range(st),
    ensures
        step(toks, i, st) matches Ok(next) ==> values_in_range(next),
{
}

proof fn lemma_run_in_range(toks: Seq<Seq<char>>, i: int, st: ParseState)
    requires
        0 <= i,
        values_in_range(st),
    ensures
        run(toks, i, st) matches Ok(end) ==> values_in_range(end),
    decreases toks.len() - i,
{
    if i < toks.len() {
        lemma_step_in_range(toks, i, st);
        if let Ok(next) = step(toks, i, st) {
            lemma_run_in_range(toks, i + 1, next);
        }
    }
}

/// Every accepted command line holds a tempo in 20..=400, wherever it was
/// given, and a tap count in 2..=64.
pub proof fn parsed_values_in_range(toks: Seq<Seq<char>>)
    ensures
        spec_parse(toks) matches Ok(m) ==> {
            &&& 20 <= m.bpm <= 400
            &&& (m.bpm_positional matches Some(b) ==> 20 <= b <= 400)
            &&& (m.command matches Some(CommandsModel::Tap { amount }) ==> 2 <= amount <= 64)
        },
{
    if toks.len() > 0 {
        lemma_run_in_range(toks, 1, initial_state());
    }
}


/// The beats per bar and the beat unit of a time signature `N/D`, each a
/// number in `1..=255`.
pub open spec fn spec_time_signature(s: Seq<char>) -> Option<(u8, u8)> {
    let slash = find_char(s, '/', 0);
    if slash < s.len() {
        match (ranged_value(s.subrange(0, slash), 1, 255), ranged_value(s.skip(slash + 1), 1, 255)) {
            (Some(n), Some(d)) => Some((n as u8, d as u8)),
            _ => None,
        }
    } else {
        None
    }
}

/// Reads a time signature such as `7/8`.
pub fn time_signature(s: &str) -> (r: Option<(u8, u8)>)
    ensures
        r == spec_time_signature(s@),
{
    let n = s.unicode_len();
    let slash = find_char_in(s, '/', 0);
    if slash == n {
        return None;
    }
    let numerator_text = s.substring_char(0, slash);
    proof {
        assert(numerator_text@.skip(0) =~= s@.subrange(0, slash as int));
    }
    let numerator = ranged_number(numerator_text, 0, 1, 255);
    let denominator = ranged_number(s, slash + 1, 1, 255);
    match (numerator, denominator) {
        (Some(a), Some(b)) => Some((a as u8, b as u8)),
        _ => None,
    }
}


/// Every value of a reading lies in an argument after the program's name.
pub open spec fn spans_after_name(toks: Seq<Seq<char>>, st: ParseState) -> bool {
    let ok = |sp: Option<Span>| match sp {
        Some(x) => 1 <= x.token < toks.len(),
        None => true,
    };
    &&& ok(st.signature)
    &&& ok(st.sub_signature)
    &&& ok(st.pattern)
}

proof fn lemma_run_after_name(toks: Seq<Seq<char>>, i: int, st: ParseState)
    requires
        1 <= i,
        toks.len() <= usize::MAX,
        spans_after_name(toks, st),
    ensures
        run(toks, i, st) matches Ok(end) ==> spans_after_name(toks, end),
    decreases toks.len() - i,
{
    if i < toks.len() {
        if is_long(toks[i]) {
            lemma_find_char_bounds(toks[i], '=', 2);
        }
        if let Ok(next) = step(toks, i, st) {
            lemma_run_after_name(toks, i + 1, next);
        }
    }
}

proof fn lemma_run_same_args(toks: Seq<Seq<char>>, other: Seq<Seq<char>>, i: int, st: ParseState)
    requires
        1 <= i,
        toks.len() <= usize::MAX,
        toks.len() == other.len(),
        forall|k: int| 1 <= k < toks.len() ==> #[trigger] toks[k] == other[k],
    ensures
        run(toks, i, st) == run(other, i, st),
    decreases toks.len() - i,
{
    if i < toks.len() {
        assert(toks[i] == other[i]);
        assert(step(toks, i, st) == step(other, i, st));
        if let Ok(next) = step(toks, i, st) {
            lemma_run_same_args(toks, other, i + 1, next);
        }
    }
}

/// The first argument is the program's name: what it holds changes nothing.
pub proof fn program_name_is_ignored(toks: Seq<Seq<char>>, other: Seq<Seq<char>>)
    requires
        toks.len() == other.len(),
        toks.len() <= usize::MAX,
        forall|k: int| 1 <= k < toks.len() ==> #[trigger] toks[k] == other[k],
    ensures
        spec_parse(toks) == spec_parse(other),
{
    if toks.len() > 0 {
        lemma_run_same_args(toks, other, 1, initial_state());
        lemma_run_after_name(toks, 1, initial_state());
        if let Ok(end) = run(toks, 1, initial_state()) {
            if let Some(x) = end.signature {
                assert(toks[x.token as int] == other[x.token as int]);
            }
            if let Some(x) = end.sub_signature {
                assert(toks[x.token as int] == other[x.token as int]);
            }
            if let Some(x) = end.pattern {
                assert(toks[x.token as int] == other[x.token as int]);
            }
        }
    }
}


/// The value name that the command line uses for each subdivision.
pub open spec fn subdivision_value_name(d: Subdivision) -> Seq<char> {
    match d {
        Subdivision::Quarter => seq!['q', 'u', 'a', 'r', 't', 'e', 'r'],
        Subdivision::Eighth => seq!['e', 'i', 'g', 'h', 't', 'h'],
        Subdivision::Triplet => seq!['t', 'r', 'i', 'p', 'l', 'e', 't'],
        Subdivision::Sixteenth => seq!['s', 'i', 'x', 't', 'e', 'e', 'n', 't', 'h'],
    }
}

/// The value name that the command line uses for each sound.
pub open spec fn sound_value_name(t: SoundType) -> Seq<char> {
    match t {
        SoundType::Click => seq!['c', 'l', 'i', 'c', 'k'],
        SoundType::Wood => seq!['w', 'o', 'o', 'd'],
        SoundType::Cowbell => seq!['c', 'o', 'w', 'b', 'e', 'l', 'l'],
        SoundType::Sidestick => seq!['s', 'i', 'd', 'e', 's', 't', 'i', 'c', 'k'],
        SoundType::Beep => seq!['b', 'e', 'e', 'p'],
    }
}

proof fn lemma_value_names()
    ensures
        "quarter"@ == seq!['q', 'u', 'a', 'r', 't', 'e', 'r'],
        "eighth"@ == seq!['e', 'i', 'g', 'h', 't', 'h'],
        "triplet"@ == seq!['t', 'r', 'i', 'p', 'l', 'e', 't'],
        "sixteenth"@ == seq!['s', 'i', 'x', 't', 'e', 'e', 'n', 't', 'h'],
        "click"@ == seq!['c', 'l', 'i', 'c', 'k'],
        "wood"@ == seq!['w', 'o', 'o', 'd'],
        "cowbell"@ == seq!['c', 'o', 'w', 'b', 'e', 'l', 'l'],
        "sidestick"@ == seq!['s', 'i', 'd', 'e', 's', 't', 'i', 'c', 'k'],
        "beep"@ == seq!['b', 'e', 'e', 'p'],
{
    reveal_strlit("quarter");
    reveal_strlit("eighth");
    reveal_strlit("triplet");
    reveal_strlit("sixteenth");
    reveal_strlit("click");
    reveal_strlit("wood");
    reveal_strlit("cowbell");
    reveal_strlit("sidestick");
    reveal_strlit("beep");
    assert("quarter"@ =~= seq!['q', 'u', 'a', 'r', 't', 'e', 'r']);
    assert("eighth"@ =~= seq!['e', 'i', 'g', 'h', 't', 'h']);
    assert("triplet"@ =~= seq!['t', 'r', 'i', 'p', 'l', 'e', 't']);
    assert("sixteenth"@ =~= seq!['s', 'i', 'x', 't', 'e', 'e', 'n', 't', 'h']);
    assert("click"@ =~= seq!['c', 'l', 'i', 'c', 'k']);
    assert("wood"@ =~= seq!['w', 'o', 'o', 'd']);
    assert("cowbell"@ =~= seq!['c', 'o', 'w', 'b', 'e', 'l', 'l']);
    assert("sidestick"@ =~= seq!['s', 'i', 'd', 'e', 's', 't', 'i', 'c', 'k']);
    assert("beep"@ =~= seq!['b', 'e', 'e', 'p']);
}

/// `--subdivision` takes exactly the four value names, each for its own
/// subdivision: `quarter` is one tick per beat, `eighth` two, `triplet`
/// three and `sixteenth` four.
pub proof fn subdivision_names_round_trip(d: Subdivision, name: Seq<char>)
    ensures
        subdivision_named(subdivision_value_name(d)) == Some(d),
        subdivision_named(name) == Some(d) ==> name == subdivision_value_name(d),
        subdivision_named(name) matches Some(e) ==> e.spec_ticks_per_beat() == (
            if name == seq!['q', 'u', 'a', 'r', 't', 'e', 'r'] { 1u8 }
            else if name == seq!['e', 'i', 'g', 'h', 't', 'h'] { 2u8 }
            else if name == seq!['t', 'r', 'i', 'p', 'l', 'e', 't'] { 3u8 }
            else { 4u8 }),
{
    lemma_value_names();
    let q = seq!['q', 'u', 'a', 'r', 't', 'e', 'r'];
    let e = seq!['e', 'i', 'g', 'h', 't', 'h'];
    let t = seq!['t', 'r', 'i', 'p', 'l', 'e', 't'];
    let x = seq!['s', 'i', 'x', 't', 'e', 'e', 'n', 't', 'h'];
    assert(q != e && q != t && q != x && e != t && e != x && t != x) by {
        assert(q[0] != e[0] && q[0] != t[0] && q[0] != x[0] && e[0] != t[0] && e[0] != x[0] && t[0] != x[0]);
    }
}

/// `--sound` takes exactly the five value names, each for its own sound.
pub proof fn sound_names_round_trip(t: SoundType, name: Seq<char>)
    ensures
        sound_named(sound_value_name(t)) == Some(t),
        sound_named(name) == Some(t) ==> name == sound_value_name(t),
{
    lemma_value_names();
    let c = seq!['c', 'l', 'i', 'c', 'k'];
    let w = seq!['w', 'o', 'o', 'd'];
    let b = seq!['c', 'o', 'w', 'b', 'e', 'l', 'l'];
    let s = seq!['s', 'i', 'd', 'e', 's', 't', 'i', 'c', 'k'];
    let p = seq!['b', 'e', 'e', 'p'];
    assert(c != w && c != b && c != s && c != p && w != b && w != s && w != p && b != s && b != p && s != p) by {
        assert(c[1] != b[1]);
        assert(c[0] != w[0] && c[0] != s[0] && c[0] != p[0] && w[0] != b[0] && w[0] != s[0]);
        assert(w[0] != p[0] && b[0] != s[0] && b[0] != p[0] && s[0] != p[0]);
    }
}

proof fn lemma_decimal_is_digits(n: nat)
    ensures
        spec_decimal(n).len() >= 1,
        all_digits(spec_decimal(n)),
        digits_value(spec_decimal(n)) == n,
    decreases n,
{
    let s = spec_decimal(n);
    if n < 10 {
        assert(s.drop_last() =~= Seq::<char>::empty());
        assert(digit_char(n as int) as int - '0' as int == n);
        assert(digits_value(s) == digits_value(s.drop_last()) * 10 + (s.last() as int - '0' as int));
    } else {
        lemma_decimal_is_digits(n / 10);
        let k = (n % 10) as int;
        assert(s.drop_last() =~= spec_decimal(n / 10));
        assert(s.last() == digit_char(k));
        assert(digit_char(k) as int - '0' as int == k);
        assert(n == (n / 10) * 10 + n % 10) by (nonlinear_arith);
        assert(digits_value(s) == digits_value(s.drop_last()) * 10 + (s.last() as int - '0' as int));
        assert forall|j: int| 0 <= j < s.len() implies is_digit(#[trigger] s[j]) by {
            if j < s.len() - 1 {
                assert(s[j] == spec_decimal(n / 10)[j]);
            }
        }
    }
}

/// A number written in decimal reads back as that number, in any range
/// that holds it.
pub proof fn decimal_reads_back(n: nat, lo: int, hi: int)
    requires
        lo <= n <= hi,
    ensures
        ranged_value(spec_decimal(n), lo, hi) == Some(n as int),
{
    lemma_decimal_is_digits(n);
}

proof fn lemma_find_slash(a: Seq<char>, b: Seq<char>, from: int)
    requires
        0 <= from <= a.len(),
        all_digits(a),
    ensures
        find_char(a + seq!['/'] + b, '/', from) == a.len(),
    decreases a.len() - from,
{
    let s = a + seq!['/'] + b;
    if from < a.len() {
        assert(s[from] == a[from]);
        assert(is_digit(a[from]));
        lemma_find_slash(a, b, from + 1);
    } else {
        assert(s[from] == '/');
    }
}

/// Writing a time signature `N/D` with `N` and `D` in `1..=255` and reading it
/// back gives `(N, D)`: the beats per bar first, the beat unit second.
pub proof fn time_signature_round_trip(n: u8, d: u8)
    requires
        1 <= n,
        1 <= d,
    ensures
        spec_time_signature(spec_decimal(n as nat) + seq!['/'] + spec_decimal(d as nat)) == Some((n, d)),
{
    let a = spec_decimal(n as nat);
    let b = spec_decimal(d as nat);
    let s = a + seq!['/'] + b;
    lemma_decimal_is_digits(n as nat);
    lemma_decimal_is_digits(d as nat);
    lemma_find_slash(a, b, 0);
    assert(s.subrange(0, a.len() as int) =~= a);
    assert(s.skip(a.len() as int + 1) =~= b);
    decimal_reads_back(n as nat, 1, 255);
    decimal_reads_back(d as nat, 1, 255);
}


proof fn lemma_keywords()
    ensures
        "help"@ == seq!['h', 'e', 'l', 'p'],
        "tap"@ == seq!['t', 'a', 'p'],
        "ramp"@ == seq!['r', 'a', 'm', 'p'],
        "version"@ == seq!['v', 'e', 'r', 's', 'i', 'o', 'n'],
        "mute"@ == seq!['m', 'u', 't', 'e'],
        "bpm"@ == seq!['b', 'p', 'm'],
        "signature"@ == seq!['s', 'i', 'g', 'n', 'a', 't', 'u', 'r', 'e'],
        "subdivision"@ == seq!['s', 'u', 'b', 'd', 'i', 'v', 'i', 's', 'i', 'o', 'n'],
        "sound"@ == seq!['s', 'o', 'u', 'n', 'd'],
        "amount"@ == seq!['a', 'm', 'o', 'u', 'n', 't'],
        "4/4"@ == seq!['4', '/', '4'],
{
    reveal_strlit("help");
    reveal_strlit("tap");
    reveal_strlit("ramp");
    reveal_strlit("version");
    reveal_strlit("mute");
    reveal_strlit("bpm");
    reveal_strlit("signature");
    reveal_strlit("subdivision");
    reveal_strlit("sound");
    reveal_strlit("amount");
    reveal_strlit("4/4");
    assert("help"@ =~= seq!['h', 'e', 'l', 'p']);
    assert("tap"@ =~= seq!['t', 'a', 'p']);
    assert("ramp"@ =~= seq!['r', 'a', 'm', 'p']);
    assert("version"@ =~= seq!['v', 'e', 'r', 's', 'i', 'o', 'n']);
    assert("mute"@ =~= seq!['m', 'u', 't', 'e']);
    assert("bpm"@ =~= seq!['b', 'p', 'm']);
    assert("signature"@ =~= seq!['s', 'i', 'g', 'n', 'a', 't', 'u', 'r', 'e']);
    assert("subdivision"@ =~= seq!['s', 'u', 'b', 'd', 'i', 'v', 'i', 's', 'i', 'o', 'n']);
    assert("sound"@ =~= seq!['s', 'o', 'u', 'n', 'd']);
    assert("amount"@ =~= seq!['a', 'm', 'o', 'u', 'n', 't']);
    assert("4/4"@ =~= seq!['4', '/', '4']);
}

/// With only the program's name, every option takes its default: tempo 120,
/// signature `4/4`, quarter notes, sound on, the click sound, no subcommand.
pub proof fn defaults_without_options(name: Seq<char>)
    ensures
        spec_parse(seq![name]) matches Ok(m) && {
            &&& m.bpm_positional is None
            &&& m.bpm == 120
            &&& m.signature == seq!['4', '/', '4']
            &&& m.subdivision == Subdivision::Quarter
            &&& !m.mute
            &&& m.sound == SoundType::Click
            &&& m.command is None
        },
{
    lemma_keywords();
}

/// `tap` alone collects eight taps.
pub proof fn tap_defaults_to_eight(name: Seq<char>)
    ensures
        spec_parse(seq![name, seq!['t', 'a', 'p']]) matches Ok(m)
            && m.command == Some(CommandsModel::Tap { amount: 8 }),
{
    lemma_keywords();
    let toks = seq![name, seq!['t', 'a', 'p']];
    assert(toks[1] != "help"@);
    assert(toks[1] == "tap"@);
    assert(run(toks, 2, ParseState { level: Level::Tap, ..initial_state() }) == Ok::<ParseState, CliError>(ParseState { level: Level::Tap, ..initial_state() }));
}

proof fn lemma_decimal_not_option(n: nat)
    ensures
        spec_decimal(n) != "help"@,
        spec_decimal(n) != "tap"@,
        spec_decimal(n) != "ramp"@,
        !is_escape(spec_decimal(n)),
        !is_long(spec_decimal(n)),
        !is_short(spec_decimal(n)),
        spec_decimal(n).skip(0) == spec_decimal(n),
{
    lemma_keywords();
    lemma_decimal_is_digits(n);
    let d = spec_decimal(n);
    assert(is_digit(d[0]));
    assert(d.skip(0) =~= d);
}

/// Every tempo in `20..=400`, written in decimal, is accepted as the
/// positional tempo and as the value of `--bpm`.
pub proof fn every_tempo_is_accepted(name: Seq<char>, n: nat)
    requires
        20 <= n <= 400,
    ensures
        spec_parse(seq![name, spec_decimal(n)]) matches Ok(m) && m.bpm_positional == Some(n as u16) && m.bpm == 120,
        spec_parse(seq![name, seq!['-', '-', 'b', 'p', 'm'], spec_decimal(n)]) matches Ok(m)
            && m.bpm == n as u16 && m.bpm_positional is None,
{
    lemma_keywords();
    lemma_decimal_not_option(n);
    decimal_reads_back(n, 20, 400);
    let d = spec_decimal(n);
    let toks = seq![name, d];
    assert(toks[1] == d);
    let st1 = ParseState { bpm_positional: Some(n as u16), ..initial_state() };
    assert(step(toks, 1, initial_state()) == Ok::<ParseState, CliError>(st1));
    assert(run(toks, 2, st1) == Ok::<ParseState, CliError>(st1));

    let opt = seq!['-', '-', 'b', 'p', 'm'];
    let toks2 = seq![name, opt, d];
    assert(toks2[1] == opt);
    assert(toks2[2] == d);
    assert(opt != "help"@ && opt != "tap"@ && opt != "ramp"@);
    reveal_with_fuel(find_char, 4);
    assert(find_char(opt, '=', 2) == 5);
    assert(opt.subrange(2, 5) =~= "bpm"@);
    assert(long_name(Level::Top, opt.subrange(2, 5)) == OptName::Value(ValueOpt::Bpm));
    let st2 = ParseState { pending: Some(ValueOpt::Bpm), ..initial_state() };
    assert(step(toks2, 1, initial_state()) == Ok::<ParseState, CliError>(st2));
    let st3 = ParseState { bpm: Some(n as u16), ..initial_state() };
    assert(span_text(toks2, Span { token: 2, start: 0 }) == d);
    assert(step(toks2, 2, st2) == Ok::<ParseState, CliError>(st3));
    assert(run(toks2, 3, st3) == Ok::<ParseState, CliError>(st3));
    assert(run(toks2, 2, st2) == Ok::<ParseState, CliError>(st3));
}


/// Every tap count in `2..=64`, written in decimal, is accepted by `tap --amount`.
pub proof fn every_tap_amount_is_accepted(name: Seq<char>, a: nat)
    requires
        2 <= a <= 64,
    ensures
        spec_parse(seq![name, seq!['t', 'a', 'p'], seq!['-', '-', 'a', 'm', 'o', 'u', 'n', 't'], spec_decimal(a)]) matches Ok(m)
            && m.command == Some(CommandsModel::Tap { amount: a as u8 }),
{
    lemma_keywords();
    lemma_decimal_not_option(a);
    decimal_reads_back(a, 2, 64);
    let d = spec_decimal(a);
    let opt = seq!['-', '-', 'a', 'm', 'o', 'u', 'n', 't'];
    let toks = seq![name, seq!['t', 'a', 'p'], opt, d];
    assert(toks[1] == "tap"@ && toks[1] != "help"@);
    assert(toks[2] == opt);
    assert(toks[3] == d);
    let st1 = ParseState { level: Level::Tap, ..initial_state() };
    assert(step(toks, 1, initial_state()) == Ok::<ParseState, CliError>(st1));
    reveal_with_fuel(find_char, 7);
    assert(find_char(opt, '=', 2) == 8);
    assert(opt.subrange(2, 8) =~= "amount"@);
    assert(long_name(Level::Tap, opt.subrange(2, 8)) == OptName::Value(ValueOpt::Amount));
    let st2 = ParseState { pending: Some(ValueOpt::Amount), ..st1 };
    assert(step(toks, 2, st1) == Ok::<ParseState, CliError>(st2));
    let st3 = ParseState { amount: Some(a as u8), ..st1 };
    assert(span_text(toks, Span { token: 3, start: 0 }) == d);
    assert(step(toks, 3, st2) == Ok::<ParseState, CliError>(st3));
    assert(run(toks, 4, st3) == Ok::<ParseState, CliError>(st3));
    assert(run(toks, 3, st2) == Ok::<ParseState, CliError>(st3));
    assert(run(toks, 2, st1) == Ok::<ParseState, CliError>(st3));
}

/// `--subdivision` followed by a subdivision's value name selects that
/// subdivision.
pub proof fn subdivision_option_selects_named(name: Seq<char>, d: Subdivision)
    ensures
        spec_parse(seq![name, seq!['-', '-', 's', 'u', 'b', 'd', 'i', 'v', 'i', 's', 'i', 'o', 'n'], subdivision_value_name(d)])
            matches Ok(m) && m.subdivision == d,
{
    lemma_keywords();
    subdivision_names_round_trip(d, subdivision_value_name(d));
    let v = subdivision_value_name(d);
    let opt = seq!['-', '-', 's', 'u', 'b', 'd', 'i', 'v', 'i', 's', 'i', 'o', 'n'];
    let toks = seq![name, opt, v];
    assert(toks[1] == opt);
    assert(toks[2] == v);
    assert(opt != "help"@ && opt != "tap"@ && opt != "ramp"@);
    reveal_with_fuel(find_char, 12);
    assert(find_char(opt, '=', 2) == 13);
    assert(opt.subrange(2, 13) =~= "subdivision"@);
    assert(opt.subrange(2, 13) != "help"@ && opt.subrange(2, 13) != "version"@ && opt.subrange(2, 13) != "mute"@);
    assert(opt.subrange(2, 13) != "bpm"@ && opt.subrange(2, 13) != "signature"@);
    assert(long_name(Level::Top, opt.subrange(2, 13)) == OptName::Value(ValueOpt::Subdivision));
    let st2 = ParseState { pending: Some(ValueOpt::Subdivision), ..initial_state() };
    assert(step(toks, 1, initial_state()) == Ok::<ParseState, CliError>(st2));
    assert(v[0] != '-');
    assert(v.skip(0) =~= v);
    assert(span_text(toks, Span { token: 2, start: 0 }) == v);
    let st3 = ParseState { subdivision: Some(d), ..initial_state() };
    assert(step(toks, 2, st2) == Ok::<ParseState, CliError>(st3));
    assert(run(toks, 3, st3) == Ok::<ParseState, CliError>(st3));
    assert(run(toks, 2, st2) == Ok::<ParseState, CliError>(st3));
}


/// Whether `v` can stand as the value of an option in the next argument.
pub open spec fn plain_value(v: Seq<char>) -> bool {
    !is_escape(v) && !is_long(v) && !is_short(v)
}

/// `--signature` is global: given before `tap` it holds, and given again
/// after `tap` the later one counts.
pub proof fn signature_after_subcommand_wins(name: Seq<char>, before: Seq<char>, after: Seq<char>)
    requires
        plain_value(before),
        plain_value(after),
    ensures
        spec_parse(seq![name, seq!['-', 's'], before, seq!['t', 'a', 'p']]) matches Ok(m) && m.signature == before,
        spec_parse(seq![name, seq!['-', 's'], before, seq!['t', 'a', 'p'], seq!['-', 's'], after]) matches Ok(m)
            && m.signature == after,
{
    lemma_keywords();
    let s = seq!['-', 's'];
    let tap = seq!['t', 'a', 'p'];
    assert(s != "help"@ && s != "tap"@ && s != "ramp"@);
    assert(before.skip(0) =~= before);
    assert(after.skip(0) =~= after);
    let toks = seq![name, s, before, tap, s, after];
    assert(toks[1] == s && toks[2] == before && toks[3] == tap && toks[4] == s && toks[5] == after);
    let st1 = ParseState { pending: Some(ValueOpt::Signature), ..initial_state() };
    assert(step(toks, 1, initial_state()) == Ok::<ParseState, CliError>(st1));
    let st2 = ParseState { signature: Some(Span { token: 2, start: 0 }), ..initial_state() };
    assert(step(toks, 2, st1) == Ok::<ParseState, CliError>(st2));
    let st3 = ParseState { level: Level::Tap, ..st2 };
    assert(tap == "tap"@ && tap != "help"@);
    assert(step(toks, 3, st2) == Ok::<ParseState, CliError>(st3));
    let st4 = ParseState { pending: Some(ValueOpt::Signature), ..st3 };
    assert(step(toks, 4, st3) == Ok::<ParseState, CliError>(st4));
    let st5 = ParseState { sub_signature: Some(Span { token: 5, start: 0 }), ..st3 };
    assert(step(toks, 5, st4) == Ok::<ParseState, CliError>(st5));
    assert(run(toks, 6, st5) == Ok::<ParseState, CliError>(st5));
    assert(run(toks, 5, st4) == Ok::<ParseState, CliError>(st5));
    assert(run(toks, 4, st3) == Ok::<ParseState, CliError>(st5));
    assert(run(toks, 3, st2) == Ok::<ParseState, CliError>(st5));
    assert(run(toks, 2, st1) == Ok::<ParseState, CliError>(st5));
    assert(span_text(toks, Span { token: 5, start: 0 }) == after);

    let short = seq![name, s, before, tap];
    assert(short[1] == s && short[2] == before && short[3] == tap);
    assert(step(short, 1, initial_state()) == Ok::<ParseState, CliError>(st1));
    assert(step(short, 2, st1) == Ok::<ParseState, CliError>(st2));
    assert(step(short, 3, st2) == Ok::<ParseState, CliError>(st3));
    assert(run(short, 4, st3) == Ok::<ParseState, CliError>(st3));
    assert(run(short, 3, st2) == Ok::<ParseState, CliError>(st3));
    assert(run(short, 2, st1) == Ok::<ParseState, CliError>(st3));
    assert(span_text(short, Span { token: 2, start: 0 }) == before);
}

} // verus!
