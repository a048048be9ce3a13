//! The texts that the `ambient-palette` subcommands show.
use vstd::prelude::*;
use crate::kb_rgb_effects::ambient::{EntryView, PaletteEntry};
use crate::kb_rgb_effects::palette_cli::{Channel, PaletteCommand, PaletteError};
use crate::text::{decimal, push_char, push_decimal, push_str, texts};

verus! {

/// An entry as the messages show it: `(R,G,B) "Label"`.
pub open spec fn entry_text(e: EntryView) -> Seq<char> {
    seq!['('] + decimal(e.0 as nat) + seq![','] + decimal(e.1 as nat) + seq![','] + decimal(
        e.2 as nat,
    ) + seq![')', ' ', '"'] + e.3 + seq!['"']
}

fn push_entry_text(out: &mut String, e: &PaletteEntry)
    ensures
        final(out)@ == old(out)@ + entry_text(e@),
{
    push_char(out, '(');
    push_decimal(out, e.r as u64);
    push_char(out, ',');
    push_decimal(out, e.g as u64);
    push_char(out, ',');
    push_decimal(out, e.b as u64);
    push_char(out, ')');
    push_char(out, ' ');
    push_char(out, '"');
    push_str(out, e.label.as_str());
    push_char(out, '"');
    assert(out@ =~= old(out)@ + entry_text(e@));
}

/// `Added (R,G,B) "Label" → palette now has N colors`.
pub open spec fn added_spec(e: EntryView, count: nat) -> Seq<char> {
    "Added "@ + entry_text(e) + " → palette now has "@ + decimal(count) + " colors"@
}

/// What `add` reports once the palette of `count` entries is saved.
pub fn added_message(e: &PaletteEntry, count: usize) -> (s: String)
    ensures
        s@ == added_spec(e@, count as nat),
{
    let mut s = String::new();
    push_str(&mut s, "Added ");
    push_entry_text(&mut s, e);
    push_str(&mut s, " → palette now has ");
    push_decimal(&mut s, count as u64);
    push_str(&mut s, " colors");
    assert(s@ =~= added_spec(e@, count as nat));
    s
}

/// `Removed #I: (R,G,B) "Label" → palette now has N colors`.
pub open spec fn removed_spec(index: nat, e: EntryView, count: nat) -> Seq<char> {
    "Removed #"@ + decimal(index) + ": "@ + entry_text(e) + " → palette now has "@ + decimal(
        count,
    ) + " colors"@
}

/// What `remove` reports once the palette of `count` entries is saved.
pub fn removed_message(index: usize, e: &PaletteEntry, count: usize) -> (s: String)
    ensures
        s@ == removed_spec(index as nat, e@, count as nat),
{
    let mut s = String::new();
    push_str(&mut s, "Removed #");
    push_decimal(&mut s, index as u64);
    push_str(&mut s, ": ");
    push_entry_text(&mut s, e);
    push_str(&mut s, " → palette now has ");
    push_decimal(&mut s, count as u64);
    push_str(&mut s, " colors");
    assert(s@ =~= removed_spec(index as nat, e@, count as nat));
    s
}

/// `Editing #I: (R,G,B) "Old" → (R,G,B) "New"`.
pub open spec fn editing_spec(index: nat, old_entry: EntryView, new_entry: EntryView) -> Seq<
    char,
> {
    "Editing #"@ + decimal(index) + ": "@ + entry_text(old_entry) + " → "@ + entry_text(
        new_entry,
    )
}

/// What `edit` reports about the change it made.
pub fn editing_message(index: usize, old_entry: &PaletteEntry, new_entry: &PaletteEntry) -> (s:
    String)
    ensures
        s@ == editing_spec(index as nat, old_entry@, new_entry@),
{
    let mut s = String::new();
    push_str(&mut s, "Editing #");
    push_decimal(&mut s, index as u64);
    push_str(&mut s, ": ");
    push_entry_text(&mut s, old_entry);
    push_str(&mut s, " → ");
    push_entry_text(&mut s, new_entry);
    assert(s@ =~= editing_spec(index as nat, old_entry@, new_entry@));
    s
}

/// The letter of a channel.
pub open spec fn channel_letter(c: Channel) -> Seq<char> {
    match c {
        Channel::Red => "R"@,
        Channel::Green => "G"@,
        Channel::Blue => "B"@,
    }
}

/// The lines a subcommand shows when it fails; `args` are its own
/// arguments.
pub open spec fn error_lines_spec(cmd: PaletteCommand, err: PaletteError, a: Seq<Seq<char>>) -> Seq<
    Seq<char>,
> {
    match err {
        PaletteError::Usage => match cmd {
            PaletteCommand::Add => seq!["Usage: victuner rgb ambient-palette add <R> <G> <B> [label]"@],
            PaletteCommand::Remove => seq![
                "Usage: victuner rgb ambient-palette remove <index>"@,
                "Use 'ambient-palette list' to see indices"@,
            ],
            PaletteCommand::Edit => seq![
                "Usage: victuner rgb ambient-palette edit <index> <R> <G> <B> [label]"@,
            ],
            _ => Seq::<Seq<char>>::empty(),
        },
        PaletteError::InvalidValue { channel, arg } => if arg < a.len() {
            seq!["Invalid "@ + channel_letter(channel) + " value: "@ + a[arg as int]]
        } else {
            Seq::<Seq<char>>::empty()
        },
        PaletteError::InvalidIndex => if a.len() > 0 {
            seq!["Invalid index: "@ + a[0] + " (must be 1-based)"@]
        } else {
            Seq::<Seq<char>>::empty()
        },
        PaletteError::OutOfRange { index, len } => seq![
            "Index "@ + decimal(index as nat) + " out of range (palette has "@ + decimal(
                len as nat,
            ) + " colors)"@,
        ],
    }
}

fn owned(t: &str) -> (s: String)
    ensures
        s@ == t@,
{
    t.to_owned()
}

/// The lines a subcommand shows when it fails.
pub fn error_lines(cmd: PaletteCommand, err: PaletteError, args: &[String]) -> (v: Vec<String>)
    ensures
        texts(v@) == error_lines_spec(cmd, err, texts(args@)),
{
    let mut v: Vec<String> = Vec::new();
    match err {
        PaletteError::Usage => match cmd {
            PaletteCommand::Add => {
                v.push(owned("Usage: victuner rgb ambient-palette add <R> <G> <B> [label]"));
            },
            PaletteCommand::Remove => {
                v.push(owned("Usage: victuner rgb ambient-palette remove <index>"));
                v.push(owned("Use 'ambient-palette list' to see indices"));
            },
            PaletteCommand::Edit => {
                v.push(owned("Usage: victuner rgb ambient-palette edit <index> <R> <G> <B> [label]"));
            },
            _ => {},
        },
        PaletteError::InvalidValue { channel, arg } => if arg < args.len() {
            let mut s = String::new();
            push_str(&mut s, "Invalid ");
            match channel {
                Channel::Red => push_str(&mut s, "R"),
                Channel::Green => push_str(&mut s, "G"),
                Channel::Blue => push_str(&mut s, "B"),
            }
            push_str(&mut s, " value: ");
            push_str(&mut s, args[arg].as_str());
            assert(texts(args@)[arg as int] == args@[arg as int]@);
            assert(s@ =~= "Invalid "@ + channel_letter(channel) + " value: "@ + texts(
                args@,
            )[arg as int]);
            v.push(s);
        },
        PaletteError::InvalidIndex => if args.len() > 0 {
            let mut s = String::new();
            push_str(&mut s, "Invalid index: ");
            push_str(&mut s, args[0].as_str());
            push_str(&mut s, " (must be 1-based)");
            assert(texts(args@)[0] == args@[0]@);
            assert(s@ =~= "Invalid index: "@ + texts(args@)[0] + " (must be 1-based)"@);
            v.push(s);
        },
        PaletteError::OutOfRange { index, len } => {
            let mut s = String::new();
            push_str(&mut s, "Index ");
            push_decimal(&mut s, index as u64);
            push_str(&mut s, " out of range (palette has ");
            push_decimal(&mut s, len as u64);
            push_str(&mut s, " colors)");
            assert(s@ =~= "Index "@ + decimal(index as nat) + " out of range (palette has "@
                + decimal(len as nat) + " colors)"@);
            v.push(s);
        },
    }
    assert(texts(v@) =~= error_lines_spec(cmd, err, texts(args@)));
    v
}

/// The usage of the `ambient-palette` command.
pub open spec fn usage_spec() -> Seq<Seq<char>> {
    seq![
        "Usage: victuner rgb ambient-palette <command>"@,
        ""@,
        "Commands:"@,
        "  list                           Show all palette colors"@,
        "  add <R> <G> <B> [label]        Add a new color"@,
        "  remove <index>                 Remove color at index (1-based)"@,
        "  edit <index> <R> <G> <B> [label]  Edit color at index (1-based)"@,
        "  reset                          Reset to default palette"@,
    ]
}

/// The lines of the `ambient-palette` usage.
pub fn usage_lines() -> (v: Vec<String>)
    ensures
        texts(v@) == usage_spec(),
{
    let mut v: Vec<String> = Vec::new();
    v.push(owned("Usage: victuner rgb ambient-palette <command>"));
    v.push(owned(""));
    v.push(owned("Commands:"));
    v.push(owned("  list                           Show all palette colors"));
    v.push(owned("  add <R> <G> <B> [label]        Add a new color"));
    v.push(owned("  remove <index>                 Remove color at index (1-based)"));
    v.push(owned("  edit <index> <R> <G> <B> [label]  Edit color at index (1-based)"));
    v.push(owned("  reset                          Reset to default palette"));
    assert(texts(v@) =~= usage_spec());
    v
}

/// What an unknown subcommand is told.
pub open spec fn unknown_spec(sub: Seq<char>) -> Seq<char> {
    "Unknown palette command: "@ + sub
}

/// The message for an unknown subcommand.
pub fn unknown_message(sub: &str) -> (s: String)
    ensures
        s@ == unknown_spec(sub@),
{
    let mut s = String::new();
    push_str(&mut s, "Unknown palette command: ");
    push_str(&mut s, sub);
    s
}

/// The first line of `list`: `Ambient palette (N colors):`.
pub open spec fn list_header_spec(count: nat) -> Seq<char> {
    "Ambient palette ("@ + decimal(count) + " colors):"@
}

/// The first line of `list`.
pub fn list_header(count: usize) -> (s: String)
    ensures
        s@ == list_header_spec(count as nat),
{
    let mut s = String::new();
    push_str(&mut s, "Ambient palette (");
    push_decimal(&mut s, count as u64);
    push_str(&mut s, " colors):");
    assert(s@ =~= list_header_spec(count as nat));
    s
}

/// The second line of `list`: `  Config: <path>`.
pub open spec fn config_line_spec(path: Seq<char>) -> Seq<char> {
    "  Config: "@ + path
}

/// The second line of `list`.
pub fn config_line(path: &str) -> (s: String)
    ensures
        s@ == config_line_spec(path@),
{
    let mut s = String::new();
    push_str(&mut s, "  Config: ");
    push_str(&mut s, path);
    s
}

/// What `reset` reports: `Palette reset to defaults (N colors).`.
pub open spec fn reset_spec(count: nat) -> Seq<char> {
    "Palette reset to defaults ("@ + decimal(count) + " colors)."@
}

/// What `reset` reports.
pub fn reset_message(count: usize) -> (s: String)
    ensures
        s@ == reset_spec(count as nat),
{
    let mut s = String::new();
    push_str(&mut s, "Palette reset to defaults (");
    push_decimal(&mut s, count as u64);
    push_str(&mut s, " colors).");
    assert(s@ =~= reset_spec(count as nat));
    s
}

} // verus!
