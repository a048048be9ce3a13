//! Preset colours, and the colours that the command line names.
use vstd::prelude::*;
use crate::cli::ColorArg;
use crate::text::{same_text, texts};

verus! {

/// The preset colour that a name stands for.
pub open spec fn preset_spec(name: Seq<char>) -> Option<(u8, u8, u8)> {
    if name == "red"@ {
        Some((255u8, 0u8, 0u8))
    } else if name == "green"@ {
        Some((0u8, 255u8, 0u8))
    } else if name == "blue"@ {
        Some((0u8, 0u8, 255u8))
    } else if name == "yellow"@ {
        Some((255u8, 255u8, 0u8))
    } else if name == "cyan"@ {
        Some((0u8, 255u8, 255u8))
    } else if name == "purple"@ {
        Some((100u8, 12u8, 223u8))
    } else if name == "neon-purple"@ {
        Some((180u8, 0u8, 255u8))
    } else if name == "white"@ {
        Some((255u8, 255u8, 255u8))
    } else if name == "off"@ {
        Some((0u8, 0u8, 0u8))
    } else {
        None
    }
}

/// Looks up a preset colour by name.
pub fn preset(name: &str) -> (c: Option<(u8, u8, u8)>)
    ensures
        c == preset_spec(name@),
{
    if same_text(name, "red") {
        Some((255, 0, 0))
    } else if same_text(name, "green") {
        Some((0, 255, 0))
    } else if same_text(name, "blue") {
        Some((0, 0, 255))
    } else if same_text(name, "yellow") {
        Some((255, 255, 0))
    } else if same_text(name, "cyan") {
        Some((0, 255, 255))
    } else if same_text(name, "purple") {
        Some((100, 12, 223))
    } else if same_text(name, "neon-purple") {
        Some((180, 0, 255))
    } else if same_text(name, "white") {
        Some((255, 255, 255))
    } else if same_text(name, "off") {
        Some((0, 0, 0))
    } else {
        None
    }
}

/// The colour that a command-line colour stands for: a preset's colour for a
/// name (nothing for an unknown name or a position past the arguments), the
/// values themselves otherwise.
pub open spec fn resolve_spec(a: Seq<Seq<char>>, c: ColorArg) -> Option<(u8, u8, u8)> {
    match c {
        ColorArg::Named(i) => if i < a.len() {
            preset_spec(a[i as int])
        } else {
            None
        },
        ColorArg::Rgb(r, g, b) => Some((r, g, b)),
    }
}

/// Resolves a command-line colour.
pub fn resolve(args: &Vec<String>, c: ColorArg) -> (r: Option<(u8, u8, u8)>)
    ensures
        r == resolve_spec(texts(args@), c),
{
    match c {
        ColorArg::Named(i) => if i < args.len() {
            assert(texts(args@)[i as int] == args@[i as int]@);
            preset(args[i].as_str())
        } else {
            None
        },
        ColorArg::Rgb(r, g, b) => Some((r, g, b)),
    }
}


/// Each preset name stands for its colour, given here as channel values; no
/// other name is a preset.
pub proof fn lemma_preset_colours(name: Seq<char>)
    ensures
        preset_spec("red"@) == Some((255u8, 0u8, 0u8)),
        preset_spec("green"@) == Some((0u8, 255u8, 0u8)),
        preset_spec("blue"@) == Some((0u8, 0u8, 255u8)),
        preset_spec("yellow"@) == Some((255u8, 255u8, 0u8)),
        preset_spec("cyan"@) == Some((0u8, 255u8, 255u8)),
        preset_spec("purple"@) == Some((100u8, 12u8, 223u8)),
        preset_spec("neon-purple"@) == Some((180u8, 0u8, 255u8)),
        preset_spec("white"@) == Some((255u8, 255u8, 255u8)),
        preset_spec("off"@) == Some((0u8, 0u8, 0u8)),
        name != "red"@ && name != "green"@ && name != "blue"@ && name != "yellow"@ && name
            != "cyan"@ && name != "purple"@ && name != "neon-purple"@ && name != "white"@ && name
            != "off"@ ==> preset_spec(name) is None,
{
    reveal_strlit("red");
    reveal_strlit("green");
    reveal_strlit("blue");
    reveal_strlit("yellow");
    reveal_strlit("cyan");
    reveal_strlit("purple");
    reveal_strlit("neon-purple");
    reveal_strlit("white");
    reveal_strlit("off");
    assert("green"@ != "red"@) by { assert("green"@[0] != "red"@[0]); }
    assert("blue"@ != "red"@) by { assert("blue"@[0] != "red"@[0]); }
    assert("blue"@ != "green"@) by { assert("blue"@[0] != "green"@[0]); }
    assert("yellow"@ != "red"@) by { assert("yellow"@[0] != "red"@[0]); }
    assert("yellow"@ != "green"@) by { assert("yellow"@[0] != "green"@[0]); }
    assert("yellow"@ != "blue"@) by { assert("yellow"@[0] != "blue"@[0]); }
    assert("cyan"@ != "red"@) by { assert("cyan"@[0] != "red"@[0]); }
    assert("cyan"@ != "green"@) by { assert("cyan"@[0] != "green"@[0]); }
    assert("cyan"@ != "blue"@) by { assert("cyan"@[0] != "blue"@[0]); }
    assert("cyan"@ != "yellow"@) by { assert("cyan"@[0] != "yellow"@[0]); }
    assert("purple"@ != "red"@) by { assert("purple"@[0] != "red"@[0]); }
    assert("purple"@ != "green"@) by { assert("purple"@[0] != "green"@[0]); }
    assert("purple"@ != "blue"@) by { assert("purple"@[0] != "blue"@[0]); }
    assert("purple"@ != "yellow"@) by { assert("purple"@[0] != "yellow"@[0]); }
    assert("purple"@ != "cyan"@) by { assert("purple"@[0] != "cyan"@[0]); }
    assert("neon-purple"@ != "red"@) by { assert("neon-purple"@[0] != "red"@[0]); }
    assert("neon-purple"@ != "green"@) by { assert("neon-purple"@[0] != "green"@[0]); }
    assert("neon-purple"@ != "blue"@) by { assert("neon-purple"@[0] != "blue"@[0]); }
    assert("neon-purple"@ != "yellow"@) by { assert("neon-purple"@[0] != "yellow"@[0]); }
    assert("neon-purple"@ != "cyan"@) by { assert("neon-purple"@[0] != "cyan"@[0]); }
    assert("neon-purple"@ != "purple"@) by { assert("neon-purple"@[0] != "purple"@[0]); }
    assert("white"@ != "red"@) by { assert("white"@[0] != "red"@[0]); }
    assert("white"@ != "green"@) by { assert("white"@[0] != "green"@[0]); }
    assert("white"@ != "blue"@) by { assert("white"@[0] != "blue"@[0]); }
    assert("white"@ != "yellow"@) by { assert("white"@[0] != "yellow"@[0]); }
    assert("white"@ != "cyan"@) by { assert("white"@[0] != "cyan"@[0]); }
    assert("white"@ != "purple"@) by { assert("white"@[0] != "purple"@[0]); }
    assert("white"@ != "neon-purple"@) by { assert("white"@[0] != "neon-purple"@[0]); }
    assert("off"@ != "red"@) by { assert("off"@[0] != "red"@[0]); }
    assert("off"@ != "green"@) by { assert("off"@[0] != "green"@[0]); }
    assert("off"@ != "blue"@) by { assert("off"@[0] != "blue"@[0]); }
    assert("off"@ != "yellow"@) by { assert("off"@[0] != "yellow"@[0]); }
    assert("off"@ != "cyan"@) by { assert("off"@[0] != "cyan"@[0]); }
    assert("off"@ != "purple"@) by { assert("off"@[0] != "purple"@[0]); }
    assert("off"@ != "neon-purple"@) by { assert("off"@[0] != "neon-purple"@[0]); }
    assert("off"@ != "white"@) by { assert("off"@[0] != "white"@[0]); }
}

/// Three channel values stand for themselves; a name stands for its preset.
pub proof fn lemma_resolve(a: Seq<Seq<char>>, i: usize, r: u8, g: u8, b: u8)
    ensures
        resolve_spec(a, ColorArg::Rgb(r, g, b)) == Some((r, g, b)),
        i < a.len() ==> resolve_spec(a, ColorArg::Named(i)) == preset_spec(a[i as int]),
        i >= a.len() ==> resolve_spec(a, ColorArg::Named(i)) is None,
{
}

} // verus!
