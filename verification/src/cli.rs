//! The command line: which command the arguments ask for.
use vstd::prelude::*;
use crate::kb_rgb_effects::ambient::{parse_channel, parse_u8};
use crate::text::{decimal, is_digit, push_decimal, same_text, texts, unsigned_digits};

verus! {

/// A colour given on the command line: the name of a preset at an argument
/// position, or three channel values.
#[derive(PartialEq, Eq, Structural, Debug, Clone, Copy)]
pub enum ColorArg {
    Named(usize),
    Rgb(u8, u8, u8),
}

/// What the program is asked to do. Positions are indices into the
/// arguments, the program's name at index 0.
#[derive(PartialEq, Eq, Structural, Debug, Clone, Copy)]
pub enum Command {
    /// No command: show the usage.
    Usage,
    /// Set the keyboard to this colour, stopping any running effect.
    SetRgb(u8, u8, u8),
    /// Show the colour that the keyboard holds.
    Current,
    /// Stop the running effect.
    Stop,
    /// The effects; `worker` is set in the background process that runs one.
    Rainbow { worker: bool },
    Breathe { color: ColorArg, worker: bool },
    Alternate { first: ColorArg, second: ColorArg, worker: bool },
    Fade { first: ColorArg, second: ColorArg, worker: bool },
    /// The ambient effect, with a vibrance boost from 0 (the raw screen
    /// colour) to 5 (the strongest).
    Ambient { level: u8, worker: bool },
    /// Manage the ambient palette with the arguments from position `from` on.
    AmbientPalette { from: usize },
    /// Set the keyboard to the preset colour named at this position, if it is one.
    Named(usize),
}

/// Where the command word stands: after the program's name, and after an
/// optional `rgb`.
pub open spec fn words_start(a: Seq<Seq<char>>) -> int {
    if a.len() >= 2 && a[1] == "rgb"@ {
        2
    } else {
        1
    }
}

/// Some argument is `--worker`.
pub open spec fn has_worker(a: Seq<Seq<char>>) -> bool {
    exists|i: int| 0 <= i < a.len() && a[i] == "--worker"@
}

/// Three channel values at positions `p`, `p + 1` and `p + 2`.
pub open spec fn rgb_at(a: Seq<Seq<char>>, p: int) -> Option<(u8, u8, u8)> {
    if 0 <= p && p + 3 <= a.len() && parse_channel(a[p]) is Some && parse_channel(a[p + 1]) is Some
        && parse_channel(a[p + 2]) is Some {
        Some(
            (
                parse_channel(a[p])->Some_0,
                parse_channel(a[p + 1])->Some_0,
                parse_channel(a[p + 2])->Some_0,
            ),
        )
    } else {
        None
    }
}

/// The colour given at position `p`, and the position after it: three channel
/// values when they are there, else a preset's name.
pub open spec fn color_arg_at(a: Seq<Seq<char>>, p: int) -> (ColorArg, int) {
    match rgb_at(a, p) {
        Some((r, g, b)) => (ColorArg::Rgb(r, g, b), p + 3),
        None => (ColorArg::Named(p as usize), p + 1),
    }
}

/// The vibrance level given at position `p`: a number up to 5, larger
/// numbers counting as 5; 0 when no number stands there.
pub open spec fn ambient_level(a: Seq<Seq<char>>, p: int) -> u8 {
    if 0 <= p < a.len() && parse_channel(a[p]) is Some {
        let v = parse_channel(a[p])->Some_0;
        if v > 5 {
            5
        } else {
            v
        }
    } else {
        0
    }
}

/// The arguments that the chosen effect reads are there.
pub open spec fn command_ready(a: Seq<Seq<char>>) -> bool {
    let s = words_start(a);
    &&& (s < a.len() && a[s] == "breathe"@) ==> s + 1 < a.len()
    &&& (s < a.len() && (a[s] == "alternate"@ || a[s] == "fade"@)) ==> s + 1 < a.len()
        && color_arg_at(a, s + 1).1 < a.len()
}

/// The command that the arguments ask for.
pub open spec fn command_spec(a: Seq<Seq<char>>) -> Command {
    let s = words_start(a);
    let worker = has_worker(a);
    if a.len() <= s {
        Command::Usage
    } else if a.len() == s + 3 && rgb_at(a, s) is Some {
        let (r, g, b) = rgb_at(a, s)->Some_0;
        Command::SetRgb(r, g, b)
    } else if a[s] == "current"@ {
        Command::Current
    } else if a[s] == "stop"@ {
        Command::Stop
    } else if a[s] == "rainbow"@ {
        Command::Rainbow { worker }
    } else if a[s] == "breathe"@ {
        Command::Breathe { color: color_arg_at(a, s + 1).0, worker }
    } else if a[s] == "alternate"@ {
        Command::Alternate {
            first: color_arg_at(a, s + 1).0,
            second: color_arg_at(a, color_arg_at(a, s + 1).1).0,
            worker,
        }
    } else if a[s] == "fade"@ {
        Command::Fade {
            first: color_arg_at(a, s + 1).0,
            second: color_arg_at(a, color_arg_at(a, s + 1).1).0,
            worker,
        }
    } else if a[s] == "ambient"@ {
        Command::Ambient { level: ambient_level(a, s + 1), worker }
    } else if a[s] == "ambient-palette"@ {
        Command::AmbientPalette { from: (s + 1) as usize }
    } else {
        Command::Named(s as usize)
    }
}


/// A word that starts with a letter is no channel value.
proof fn lemma_word_not_channel(w: Seq<char>)
    requires
        w.len() > 0,
        97 <= (w[0] as u32) <= 122,
    ensures
        parse_channel(w) is None,
{
    assert(!is_digit(w[0]));
    assert(w[0] != '+');
    assert(unsigned_digits(w) == w);
}

/// The keywords are distinct words, none of them a channel value.
proof fn lemma_keywords()
    ensures
        parse_channel("rgb"@) is None,
        parse_channel("breathe"@) is None,
        parse_channel("alternate"@) is None,
        parse_channel("fade"@) is None,
        parse_channel("ambient"@) is None,
        "breathe"@ != "rgb"@,
        "breathe"@ != "current"@,
        "breathe"@ != "stop"@,
        "breathe"@ != "rainbow"@,
        "alternate"@ != "rgb"@,
        "alternate"@ != "current"@,
        "alternate"@ != "stop"@,
        "alternate"@ != "rainbow"@,
        "alternate"@ != "breathe"@,
        "fade"@ != "rgb"@,
        "fade"@ != "current"@,
        "fade"@ != "stop"@,
        "fade"@ != "rainbow"@,
        "fade"@ != "breathe"@,
        "fade"@ != "alternate"@,
        "ambient"@ != "rgb"@,
        "ambient"@ != "current"@,
        "ambient"@ != "stop"@,
        "ambient"@ != "rainbow"@,
        "ambient"@ != "breathe"@,
        "ambient"@ != "alternate"@,
        "ambient"@ != "fade"@,
{
    reveal_strlit("rgb");
    reveal_strlit("breathe");
    reveal_strlit("alternate");
    reveal_strlit("fade");
    reveal_strlit("ambient");
    reveal_strlit("current");
    reveal_strlit("stop");
    reveal_strlit("rainbow");
    lemma_word_not_channel("rgb"@);
    lemma_word_not_channel("breathe"@);
    lemma_word_not_channel("alternate"@);
    lemma_word_not_channel("fade"@);
    lemma_word_not_channel("ambient"@);
    assert("breathe"@[0] != "rgb"@[0]);
    assert("breathe"@[0] != "current"@[0]);
    assert("breathe"@[0] != "stop"@[0]);
    assert("breathe"@[0] != "rainbow"@[0]);
    assert("alternate"@[0] != "rgb"@[0]);
    assert("alternate"@[0] != "current"@[0]);
    assert("alternate"@[0] != "stop"@[0]);
    assert("alternate"@[0] != "rainbow"@[0]);
    assert("alternate"@[0] != "breathe"@[0]);
    assert("fade"@[0] != "rgb"@[0]);
    assert("fade"@[0] != "current"@[0]);
    assert("fade"@[0] != "stop"@[0]);
    assert("fade"@[0] != "rainbow"@[0]);
    assert("fade"@[0] != "breathe"@[0]);
    assert("fade"@[0] != "alternate"@[0]);
    assert("ambient"@[0] != "rgb"@[0]);
    assert("ambient"@[0] != "current"@[0]);
    assert("ambient"@[0] != "stop"@[0]);
    assert("ambient"@[0] != "rainbow"@[0]);
    assert("ambient"@[0] != "breathe"@[0]);
    assert("ambient"@.len() != "alternate"@.len());
    assert("ambient"@[0] != "fade"@[0]);
}


/// The other command words are distinct words, none of them a channel value.
proof fn lemma_more_keywords()
    ensures
        parse_channel("current"@) is None,
        parse_channel("stop"@) is None,
        parse_channel("rainbow"@) is None,
        parse_channel("ambient-palette"@) is None,
        "current"@ != "rgb"@,
        "stop"@ != "rgb"@,
        "stop"@ != "current"@,
        "rainbow"@ != "rgb"@,
        "rainbow"@ != "current"@,
        "rainbow"@ != "stop"@,
        "ambient-palette"@ != "rgb"@,
        "ambient-palette"@ != "current"@,
        "ambient-palette"@ != "stop"@,
        "ambient-palette"@ != "rainbow"@,
        "ambient-palette"@ != "breathe"@,
        "ambient-palette"@ != "alternate"@,
        "ambient-palette"@ != "fade"@,
        "ambient-palette"@ != "ambient"@,
{
    reveal_strlit("rgb");
    reveal_strlit("breathe");
    reveal_strlit("alternate");
    reveal_strlit("fade");
    reveal_strlit("ambient");
    reveal_strlit("ambient-palette");
    reveal_strlit("current");
    reveal_strlit("stop");
    reveal_strlit("rainbow");
    lemma_word_not_channel("current"@);
    lemma_word_not_channel("stop"@);
    lemma_word_not_channel("rainbow"@);
    lemma_word_not_channel("ambient-palette"@);
    assert("current"@[0] != "rgb"@[0]);
    assert("stop"@[0] != "rgb"@[0]);
    assert("stop"@[0] != "current"@[0]);
    assert("rainbow"@.len() != "rgb"@.len());
    assert("rainbow"@[0] != "current"@[0]);
    assert("rainbow"@[0] != "stop"@[0]);
    assert("ambient-palette"@[0] != "rgb"@[0]);
    assert("ambient-palette"@[0] != "current"@[0]);
    assert("ambient-palette"@[0] != "stop"@[0]);
    assert("ambient-palette"@[0] != "rainbow"@[0]);
    assert("ambient-palette"@[0] != "breathe"@[0]);
    assert("ambient-palette"@.len() != "alternate"@.len());
    assert("ambient-palette"@[0] != "fade"@[0]);
    assert("ambient-palette"@.len() != "ambient"@.len());
}

/// Where the command line's values are read from: the colours of an effect
/// follow its word, whether that word stands first or after `rgb`; three
/// numbers make one colour; raw values make the colour to set; a number after
/// `ambient` is its vibrance level, at most 5.
pub proof fn lemma_command_positions(a: Seq<Seq<char>>)
    ensures
        a.len() <= 1 ==> command_spec(a) == Command::Usage,
        a.len() == 4 && parse_channel(a[1]) is Some && parse_channel(a[2]) is Some
            && parse_channel(a[3]) is Some ==> command_spec(a) == Command::SetRgb(
            parse_channel(a[1])->Some_0,
            parse_channel(a[2])->Some_0,
            parse_channel(a[3])->Some_0,
        ),
        a.len() == 5 && a[1] == "rgb"@ && parse_channel(a[2]) is Some && parse_channel(a[3]) is Some
            && parse_channel(a[4]) is Some ==> command_spec(a) == Command::SetRgb(
            parse_channel(a[2])->Some_0,
            parse_channel(a[3])->Some_0,
            parse_channel(a[4])->Some_0,
        ),
        a.len() >= 3 && a[1] == "breathe"@ && parse_channel(a[2]) is None ==> command_spec(a)
            == (Command::Breathe { color: ColorArg::Named(2), worker: has_worker(a) }),
        a.len() >= 4 && a[1] == "rgb"@ && a[2] == "breathe"@ && parse_channel(a[3]) is None
            ==> command_spec(a) == (Command::Breathe {
            color: ColorArg::Named(3),
            worker: has_worker(a),
        }),
        a.len() >= 5 && a[1] == "breathe"@ && parse_channel(a[2]) is Some && parse_channel(a[3]) is Some
            && parse_channel(a[4]) is Some ==> command_spec(a) == (Command::Breathe {
            color: ColorArg::Rgb(
                parse_channel(a[2])->Some_0,
                parse_channel(a[3])->Some_0,
                parse_channel(a[4])->Some_0,
            ),
            worker: has_worker(a),
        }),
        a.len() >= 4 && a[1] == "alternate"@ && parse_channel(a[2]) is None && parse_channel(a[3]) is None
            ==> command_spec(a) == (Command::Alternate {
            first: ColorArg::Named(2),
            second: ColorArg::Named(3),
            worker: has_worker(a),
        }),
        a.len() >= 5 && a[1] == "rgb"@ && a[2] == "alternate"@ && parse_channel(a[3]) is None
            && parse_channel(a[4]) is None ==> command_spec(a) == (Command::Alternate {
            first: ColorArg::Named(3),
            second: ColorArg::Named(4),
            worker: has_worker(a),
        }),
        a.len() >= 4 && a[1] == "fade"@ && parse_channel(a[2]) is None && parse_channel(a[3]) is None
            ==> command_spec(a) == (Command::Fade {
            first: ColorArg::Named(2),
            second: ColorArg::Named(3),
            worker: has_worker(a),
        }),
        a.len() >= 5 && a[1] == "rgb"@ && a[2] == "fade"@ && parse_channel(a[3]) is None
            && parse_channel(a[4]) is None ==> command_spec(a) == (Command::Fade {
            first: ColorArg::Named(3),
            second: ColorArg::Named(4),
            worker: has_worker(a),
        }),
        a.len() >= 8 && a[1] == "fade"@ && (forall|k: int| 2 <= k < 8 ==> parse_channel(#[trigger] a[k]) is Some)
            ==> command_spec(a) == (Command::Fade {
            first: ColorArg::Rgb(
                parse_channel(a[2])->Some_0,
                parse_channel(a[3])->Some_0,
                parse_channel(a[4])->Some_0,
            ),
            second: ColorArg::Rgb(
                parse_channel(a[5])->Some_0,
                parse_channel(a[6])->Some_0,
                parse_channel(a[7])->Some_0,
            ),
            worker: has_worker(a),
        }),
        a.len() >= 3 && a[1] == "ambient"@ && parse_channel(a[2]) is Some ==> command_spec(a)
            == (Command::Ambient {
            level: if parse_channel(a[2])->Some_0 > 5 {
                5u8
            } else {
                parse_channel(a[2])->Some_0
            },
            worker: has_worker(a),
        }),
        a.len() >= 2 && a[1] == "current"@ ==> command_spec(a) == Command::Current,
        a.len() >= 3 && a[1] == "rgb"@ && a[2] == "current"@ ==> command_spec(a) == Command::Current,
        a.len() >= 2 && a[1] == "stop"@ ==> command_spec(a) == Command::Stop,
        a.len() >= 3 && a[1] == "rgb"@ && a[2] == "stop"@ ==> command_spec(a) == Command::Stop,
        a.len() >= 2 && a[1] == "rainbow"@ ==> command_spec(a) == (Command::Rainbow {
            worker: has_worker(a),
        }),
        a.len() >= 3 && a[1] == "rgb"@ && a[2] == "rainbow"@ ==> command_spec(a) == (
        Command::Rainbow { worker: has_worker(a) }),
        a.len() >= 2 && a[1] == "ambient-palette"@ ==> command_spec(a) == (
        Command::AmbientPalette { from: 2 }),
        a.len() >= 3 && a[1] == "rgb"@ && a[2] == "ambient-palette"@ ==> command_spec(a) == (
        Command::AmbientPalette { from: 3 }),
        a.len() == 2 && a[1] == "ambient"@ ==> command_spec(a) == (Command::Ambient {
            level: 0,
            worker: has_worker(a),
        }),
{
    lemma_keywords();
    lemma_more_keywords();
    if a.len() >= 8 && a[1] == "fade"@ && (forall|k: int| 2 <= k < 8 ==> parse_channel(#[trigger] a[k]) is Some) {
        assert(parse_channel(a[2]) is Some && parse_channel(a[3]) is Some && parse_channel(a[4]) is Some);
        assert(parse_channel(a[5]) is Some && parse_channel(a[6]) is Some && parse_channel(a[7]) is Some);
    }
}

/// Parses a whole argument as a channel value.
fn channel_at(args: &Vec<String>, i: usize) -> (r: Option<u8>)
    requires
        i < args@.len(),
    ensures
        r == parse_channel(args@[i as int]@),
{
    parse_u8(args[i].as_str())
}

/// Three channel values at positions `p`, `p + 1` and `p + 2`.
fn rgb_at_exec(args: &Vec<String>, p: usize) -> (r: Option<(u8, u8, u8)>)
    ensures
        r == rgb_at(texts(args@), p as int),
{
    let ghost a = texts(args@);
    if p > args.len() || args.len() - p < 3 {
        return None;
    }
    assert(a[p as int] == args@[p as int]@);
    assert(a[p + 1] == args@[p + 1]@);
    assert(a[p + 2] == args@[p + 2]@);
    let r = match channel_at(args, p) {
        Some(x) => x,
        None => {
            return None;
        },
    };
    let g = match channel_at(args, p + 1) {
        Some(x) => x,
        None => {
            return None;
        },
    };
    let b = match channel_at(args, p + 2) {
        Some(x) => x,
        None => {
            return None;
        },
    };
    Some((r, g, b))
}

/// The colour given at position `p`, and the position after it.
fn color_arg_exec(args: &Vec<String>, p: usize) -> (r: (ColorArg, usize))
    requires
        p < args@.len(),
    ensures
        r.0 == color_arg_at(texts(args@), p as int).0,
        r.1 == color_arg_at(texts(args@), p as int).1,
{
    let n = args.len();
    assert(texts(args@).len() == n);
    match rgb_at_exec(args, p) {
        Some((r, g, b)) => (ColorArg::Rgb(r, g, b), p + 3),
        None => (ColorArg::Named(p), p + 1),
    }
}

/// Whether argument `i` is `word`.
fn arg_is(args: &Vec<String>, i: usize, word: &str) -> (b: bool)
    requires
        i < args@.len(),
    ensures
        b == (texts(args@)[i as int] == word@),
{
    same_text(args[i].as_str(), word)
}

/// Whether some argument is `--worker`.
fn worker_flag(args: &Vec<String>) -> (b: bool)
    ensures
        b == has_worker(texts(args@)),
{
    let ghost a = texts(args@);
    let mut i: usize = 0;
    while i < args.len()
        invariant
            a == texts(args@),
            i <= args@.len(),
            forall|k: int| 0 <= k < i ==> a[k] != "--worker"@,
        decreases args@.len() - i,
    {
        if arg_is(args, i, "--worker") {
            return true;
        }
        i = i + 1;
    }
    false
}


/// Whether the arguments that the chosen effect reads are there; without them
/// the command cannot be read.
pub fn command_is_ready(args: &Vec<String>) -> (b: bool)
    ensures
        b == command_ready(texts(args@)),
{
    let ghost a = texts(args@);
    let s: usize = if args.len() >= 2 && arg_is(args, 1, "rgb") {
        2
    } else {
        1
    };
    assert(s == words_start(a));
    if s >= args.len() {
        return true;
    }
    if arg_is(args, s, "breathe") {
        proof {
            reveal_strlit("breathe");
            reveal_strlit("alternate");
            reveal_strlit("fade");
            assert("breathe"@[0] != "alternate"@[0]);
            assert("breathe"@[0] != "fade"@[0]);
        }
        return s + 1 < args.len();
    }
    if arg_is(args, s, "alternate") || arg_is(args, s, "fade") {
        if s + 1 >= args.len() {
            return false;
        }
        let (_, next) = color_arg_exec(args, s + 1);
        return next < args.len();
    }
    true
}

/// Reads the command line.
pub fn parse_command(args: &Vec<String>) -> (c: Command)
    requires
        command_ready(texts(args@)),
    ensures
        c == command_spec(texts(args@)),
{
    let ghost a = texts(args@);
    let s: usize = if args.len() >= 2 && arg_is(args, 1, "rgb") {
        2
    } else {
        1
    };
    assert(s == words_start(a));
    let worker = worker_flag(args);
    if args.len() <= s {
        return Command::Usage;
    }
    if args.len() == s + 3 {
        match rgb_at_exec(args, s) {
            Some((r, g, b)) => {
                return Command::SetRgb(r, g, b);
            },
            None => {},
        }
    }
    if arg_is(args, s, "current") {
        Command::Current
    } else if arg_is(args, s, "stop") {
        Command::Stop
    } else if arg_is(args, s, "rainbow") {
        Command::Rainbow { worker }
    } else if arg_is(args, s, "breathe") {
        let (color, _) = color_arg_exec(args, s + 1);
        Command::Breathe { color, worker }
    } else if arg_is(args, s, "alternate") {
        let (first, next) = color_arg_exec(args, s + 1);
        let (second, _) = color_arg_exec(args, next);
        Command::Alternate { first, second, worker }
    } else if arg_is(args, s, "fade") {
        let (first, next) = color_arg_exec(args, s + 1);
        let (second, _) = color_arg_exec(args, next);
        Command::Fade { first, second, worker }
    } else if arg_is(args, s, "ambient") {
        let level = if s + 1 < args.len() {
            assert(texts(args@)[s + 1] == args@[s + 1]@);
            match channel_at(args, s + 1) {
                Some(v) => if v > 5 {
                    5
                } else {
                    v
                },
                None => 0,
            }
        } else {
            0
        };
        Command::Ambient { level, worker }
    } else if arg_is(args, s, "ambient-palette") {
        Command::AmbientPalette { from: s + 1 }
    } else {
        Command::Named(s)
    }
}


/// The words of one colour on a worker's command line.
pub open spec fn color_words(a: Seq<Seq<char>>, c: ColorArg) -> Seq<Seq<char>> {
    match c {
        ColorArg::Named(i) => if i < a.len() {
            seq![a[i as int]]
        } else {
            Seq::<Seq<char>>::empty()
        },
        ColorArg::Rgb(r, g, b) => seq![decimal(r as nat), decimal(g as nat), decimal(b as nat)],
    }
}

/// The words that the background worker for an effect is started with (the
/// worker adds `--worker` itself); none for a command that starts no worker.
pub open spec fn worker_words_spec(a: Seq<Seq<char>>, c: Command) -> Seq<Seq<char>> {
    match c {
        Command::Rainbow { .. } => seq!["rainbow"@],
        Command::Breathe { color, .. } => seq!["breathe"@] + color_words(a, color),
        Command::Alternate { first, second, .. } => seq!["alternate"@] + color_words(a, first)
            + color_words(a, second),
        Command::Fade { first, second, .. } => seq!["fade"@] + color_words(a, first)
            + color_words(a, second),
        Command::Ambient { level, .. } => seq!["ambient"@, decimal(level as nat)],
        _ => Seq::<Seq<char>>::empty(),
    }
}

fn number_word(n: u8) -> (s: String)
    ensures
        s@ == decimal(n as nat),
{
    let mut s = String::new();
    push_decimal(&mut s, n as u64);
    assert(s@ =~= decimal(n as nat));
    s
}

fn push_color_words(out: &mut Vec<String>, args: &Vec<String>, c: ColorArg)
    ensures
        texts(final(out)@) == texts(old(out)@) + color_words(texts(args@), c),
{
    match c {
        ColorArg::Named(i) => if i < args.len() {
            out.push(args[i].clone());
            assert(texts(args@)[i as int] == args@[i as int]@);
        },
        ColorArg::Rgb(r, g, b) => {
            out.push(number_word(r));
            out.push(number_word(g));
            out.push(number_word(b));
        },
    }
    assert(texts(out@) =~= texts(old(out)@) + color_words(texts(args@), c));
}

/// The words that the background worker for the command is started with.
pub fn worker_words(args: &Vec<String>, c: Command) -> (w: Vec<String>)
    ensures
        texts(w@) == worker_words_spec(texts(args@), c),
{
    let mut w: Vec<String> = Vec::new();
    match c {
        Command::Rainbow { .. } => {
            w.push("rainbow".to_owned());
        },
        Command::Breathe { color, .. } => {
            w.push("breathe".to_owned());
            push_color_words(&mut w, args, color);
        },
        Command::Alternate { first, second, .. } => {
            w.push("alternate".to_owned());
            push_color_words(&mut w, args, first);
            push_color_words(&mut w, args, second);
        },
        Command::Fade { first, second, .. } => {
            w.push("fade".to_owned());
            push_color_words(&mut w, args, first);
            push_color_words(&mut w, args, second);
        },
        Command::Ambient { level, .. } => {
            w.push("ambient".to_owned());
            w.push(number_word(level));
        },
        _ => {},
    }
    assert(texts(w@) =~= worker_words_spec(texts(args@), c));
    w
}

} // verus!
