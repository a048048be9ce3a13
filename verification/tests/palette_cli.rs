use victuner::kb_rgb_effects::ambient::{
    default_palette, palette_file_contents, palette_from_file, PaletteEntry,
};
use victuner::kb_rgb_effects::palette_messages::{
    added_message, config_line, editing_message, error_lines, list_header, removed_message,
    reset_message, unknown_message, usage_lines,
};
use victuner::kb_rgb_effects::palette_cli::{
    apply_edit, palette_command, palette_list_line, parse_add, parse_edit, parse_remove,
    remove_entry, Channel, PaletteCommand, PaletteError,
};

fn args(words: &[&str]) -> Vec<String> {
    words.iter().map(|w| w.to_string()).collect()
}

#[test]
fn subcommands() {
    assert_eq!(palette_command(&args(&[])), PaletteCommand::List);
    assert_eq!(palette_command(&args(&["list"])), PaletteCommand::List);
    assert_eq!(palette_command(&args(&["add", "1"])), PaletteCommand::Add);
    assert_eq!(palette_command(&args(&["remove"])), PaletteCommand::Remove);
    assert_eq!(palette_command(&args(&["edit"])), PaletteCommand::Edit);
    assert_eq!(palette_command(&args(&["reset"])), PaletteCommand::Reset);
    assert_eq!(palette_command(&args(&["frobnicate"])), PaletteCommand::Unknown);
}

#[test]
fn add_with_and_without_label() {
    let e = parse_add(&args(&["1", "2", "3", "Deep", "sea"])).unwrap();
    assert_eq!((e.r, e.g, e.b, e.label.as_str()), (1, 2, 3, "Deep sea"));
    let e = parse_add(&args(&["4", "5", "6"])).unwrap();
    assert_eq!(e.label, "(4,5,6)");
}

#[test]
fn add_errors() {
    assert_eq!(parse_add(&args(&["1", "2"])).unwrap_err(), PaletteError::Usage);
    assert_eq!(
        parse_add(&args(&["x", "2", "3"])).unwrap_err(),
        PaletteError::InvalidValue { channel: Channel::Red, arg: 0 }
    );
    assert_eq!(
        parse_add(&args(&["1", "256", "3"])).unwrap_err(),
        PaletteError::InvalidValue { channel: Channel::Green, arg: 1 }
    );
    assert_eq!(
        parse_add(&args(&["1", "2", " 3"])).unwrap_err(),
        PaletteError::InvalidValue { channel: Channel::Blue, arg: 2 }
    );
}

#[test]
fn remove_arguments() {
    assert_eq!(parse_remove(&args(&[])), Err(PaletteError::Usage));
    assert_eq!(parse_remove(&args(&["0"])), Err(PaletteError::InvalidIndex));
    assert_eq!(parse_remove(&args(&["two"])), Err(PaletteError::InvalidIndex));
    assert_eq!(parse_remove(&args(&["3"])), Ok(3));
}

#[test]
fn remove_from_palette() {
    let mut p = default_palette();
    let removed = remove_entry(&mut p, 2).unwrap();
    assert_eq!(removed.label, "Orange");
    assert_eq!(p.len(), 11);
    assert_eq!(p[1].label, "Yellow");
    let err = remove_entry(&mut p, 12).unwrap_err();
    assert_eq!(err, PaletteError::OutOfRange { index: 12, len: 11 });
    assert_eq!(p.len(), 11);
}

#[test]
fn edit_arguments_and_errors() {
    assert_eq!(parse_edit(&args(&["1", "2", "3"])).unwrap_err(), PaletteError::Usage);
    assert_eq!(parse_edit(&args(&["0", "2", "3", "4"])).unwrap_err(), PaletteError::InvalidIndex);
    assert_eq!(
        parse_edit(&args(&["1", "x", "3", "4"])).unwrap_err(),
        PaletteError::InvalidValue { channel: Channel::Red, arg: 1 }
    );
    assert_eq!(
        parse_edit(&args(&["1", "2", "x", "4"])).unwrap_err(),
        PaletteError::InvalidValue { channel: Channel::Green, arg: 2 }
    );
    assert_eq!(
        parse_edit(&args(&["1", "2", "3", "x"])).unwrap_err(),
        PaletteError::InvalidValue { channel: Channel::Blue, arg: 3 }
    );
    let q = parse_edit(&args(&["2", "9", "8", "7", "New", "name"])).unwrap();
    assert_eq!((q.index, q.r, q.g, q.b), (2, 9, 8, 7));
    assert_eq!(q.label.as_deref(), Some("New name"));
    assert!(parse_edit(&args(&["2", "9", "8", "7"])).unwrap().label.is_none());
}

#[test]
fn edit_palette() {
    let mut p = default_palette();
    let q = parse_edit(&args(&["1", "9", "8", "7"])).unwrap();
    let old = apply_edit(&mut p, q).unwrap();
    assert_eq!((old.r, old.g, old.b), (255, 0, 0));
    assert_eq!((p[0].r, p[0].g, p[0].b, p[0].label.as_str()), (9, 8, 7, "Red"));
    let q = parse_edit(&args(&["12", "1", "1", "1", "Dim"])).unwrap();
    apply_edit(&mut p, q).unwrap();
    assert_eq!(p[11].label, "Dim");
    assert_eq!(p.len(), 12);
    let q = parse_edit(&args(&["13", "1", "1", "1"])).unwrap();
    assert_eq!(apply_edit(&mut p, q).unwrap_err(), PaletteError::OutOfRange { index: 13, len: 12 });
}

#[test]
fn list_line_alignment() {
    let e = PaletteEntry { r: 255, g: 0, b: 7, label: "Red".to_string() };
    assert_eq!(palette_list_line(1, &e), "   1. (255,  0,  7)  Red");
    assert_eq!(palette_list_line(123, &e), "  123. (255,  0,  7)  Red");
}

#[test]
fn add_then_remove_last_restores_file() {
    let p = default_palette();
    let before = palette_file_contents(&p);
    let mut loaded = palette_from_file(&before).unwrap();
    loaded.push(parse_add(&args(&["1", "2", "3", "  spaced\r", "label "])).unwrap());
    let after_add = palette_file_contents(&loaded);
    let mut reloaded = palette_from_file(&after_add).unwrap();
    assert_eq!(reloaded.len(), 13);
    let idx = parse_remove(&args(&[&13.to_string()])).unwrap();
    remove_entry(&mut reloaded, idx).unwrap();
    assert_eq!(palette_file_contents(&reloaded), before);
}

#[test]
fn messages() {
    let e = PaletteEntry { r: 1, g: 2, b: 3, label: "Deep".to_string() };
    let f = PaletteEntry { r: 4, g: 5, b: 6, label: "Sea".to_string() };
    assert_eq!(added_message(&e, 13), "Added (1,2,3) \"Deep\" → palette now has 13 colors");
    assert_eq!(removed_message(2, &e, 11), "Removed #2: (1,2,3) \"Deep\" → palette now has 11 colors");
    assert_eq!(editing_message(1, &e, &f), "Editing #1: (1,2,3) \"Deep\" → (4,5,6) \"Sea\"");
    assert_eq!(list_header(12), "Ambient palette (12 colors):");
    assert_eq!(config_line("/home/u/x.conf"), "  Config: /home/u/x.conf");
    assert_eq!(reset_message(12), "Palette reset to defaults (12 colors).");
    assert_eq!(unknown_message("frob"), "Unknown palette command: frob");
    assert_eq!(usage_lines().len(), 8);
    assert_eq!(usage_lines()[0], "Usage: victuner rgb ambient-palette <command>");
}

#[test]
fn error_messages() {
    let a = args(&["1", "x", "3"]);
    assert_eq!(
        error_lines(PaletteCommand::Add, parse_add(&a).unwrap_err(), &a),
        vec!["Invalid G value: x"]
    );
    assert_eq!(
        error_lines(PaletteCommand::Add, PaletteError::Usage, &args(&[])),
        vec!["Usage: victuner rgb ambient-palette add <R> <G> <B> [label]"]
    );
    assert_eq!(
        error_lines(PaletteCommand::Remove, PaletteError::Usage, &args(&[])),
        vec!["Usage: victuner rgb ambient-palette remove <index>", "Use 'ambient-palette list' to see indices"]
    );
    assert_eq!(
        error_lines(PaletteCommand::Edit, PaletteError::Usage, &args(&[])),
        vec!["Usage: victuner rgb ambient-palette edit <index> <R> <G> <B> [label]"]
    );
    assert_eq!(
        error_lines(PaletteCommand::Remove, PaletteError::InvalidIndex, &args(&["zero"])),
        vec!["Invalid index: zero (must be 1-based)"]
    );
    assert_eq!(
        error_lines(PaletteCommand::Remove, PaletteError::OutOfRange { index: 20, len: 12 }, &args(&["20"])),
        vec!["Index 20 out of range (palette has 12 colors)"]
    );
}
