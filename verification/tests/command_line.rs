use victuner::cli::{command_is_ready, parse_command, worker_words, ColorArg, Command};
use victuner::color::{preset, resolve};
use victuner::ec::current_rgb_message;
use victuner::kb_rgb_effects::ambient_env::{choose_home, is_wayland_socket, passwd_home, runtime_dir};
use victuner::process::pid_from_file;

fn args(words: &[&str]) -> Vec<String> {
    words.iter().map(|w| w.to_string()).collect()
}

fn command(words: &[&str]) -> Command {
    let a = args(words);
    assert!(command_is_ready(&a));
    parse_command(&a)
}

#[test]
fn no_command_shows_usage() {
    assert_eq!(command(&["victuner"]), Command::Usage);
    assert_eq!(command(&["victuner", "rgb"]), Command::Usage);
}

#[test]
fn raw_values() {
    assert_eq!(command(&["victuner", "255", "128", "0"]), Command::SetRgb(255, 128, 0));
    assert_eq!(command(&["victuner", "rgb", "1", "2", "3"]), Command::SetRgb(1, 2, 3));
    assert_eq!(command(&["victuner", "255", "128", "256"]), Command::Named(1));
}

#[test]
fn simple_commands() {
    assert_eq!(command(&["victuner", "current"]), Command::Current);
    assert_eq!(command(&["victuner", "stop"]), Command::Stop);
    assert_eq!(command(&["victuner", "rgb", "stop"]), Command::Stop);
    assert_eq!(command(&["victuner", "red"]), Command::Named(1));
    assert_eq!(command(&["victuner", "rgb", "neon-purple"]), Command::Named(2));
}

#[test]
fn effects_and_worker_flag() {
    assert_eq!(command(&["victuner", "rainbow"]), Command::Rainbow { worker: false });
    assert_eq!(command(&["victuner", "rainbow", "--worker"]), Command::Rainbow { worker: true });
    assert_eq!(
        command(&["victuner", "breathe", "red"]),
        Command::Breathe { color: ColorArg::Named(2), worker: false }
    );
    assert_eq!(
        command(&["victuner", "alternate", "red", "blue", "--worker"]),
        Command::Alternate { first: ColorArg::Named(2), second: ColorArg::Named(3), worker: true }
    );
    assert_eq!(
        command(&["victuner", "rgb", "fade", "255", "128", "0", "0", "255", "0"]),
        Command::Fade {
            first: ColorArg::Rgb(255, 128, 0),
            second: ColorArg::Rgb(0, 255, 0),
            worker: false
        }
    );
    assert_eq!(
        command(&["victuner", "fade", "red", "0", "255", "0"]),
        Command::Fade { first: ColorArg::Named(2), second: ColorArg::Rgb(0, 255, 0), worker: false }
    );
    assert_eq!(command(&["victuner", "rgb", "ambient"]), Command::Ambient { level: 0, worker: false });
    assert_eq!(command(&["victuner", "rgb", "ambient-palette", "list"]), Command::AmbientPalette { from: 3 });
}

#[test]
fn effects_without_their_colours_are_not_ready() {
    assert!(!command_is_ready(&args(&["victuner", "breathe"])));
    assert!(!command_is_ready(&args(&["victuner", "alternate", "red"])));
    assert!(!command_is_ready(&args(&["victuner", "fade", "1", "2", "3"])));
    assert!(command_is_ready(&args(&["victuner", "fade", "1", "2"])));
}

#[test]
fn current_message() {
    assert_eq!(current_rgb_message(255, 0, 7), "Current RGB: 255 0 7");
}

#[test]
fn pid_file_text() {
    assert_eq!(pid_from_file("  1234\n"), Some("1234".to_string()));
    assert_eq!(pid_from_file(" \n\t"), None);
    assert_eq!(pid_from_file(""), None);
}

#[test]
fn passwd_entry_home() {
    assert_eq!(
        passwd_home("user:x:1000:1000:User Name:/home/user:/bin/bash\n"),
        Some("/home/user".to_string())
    );
    assert_eq!(passwd_home("a:b:c"), None);
    assert_eq!(passwd_home(""), None);
}

#[test]
fn home_choice() {
    assert_eq!(choose_home(Some("/home/u".into()), Some("/root2".into())), "/home/u");
    assert_eq!(choose_home(None, Some("/home/v".into())), "/home/v");
    assert_eq!(choose_home(None, None), "/root");
}

#[test]
fn runtime_directory() {
    assert_eq!(runtime_dir(Some("1001".into()), Some("1002".into())), "/run/user/1001");
    assert_eq!(runtime_dir(None, Some("1002".into())), "/run/user/1002");
    assert_eq!(runtime_dir(None, None), "/run/user/1000");
}

#[test]
fn wayland_socket_names() {
    assert!(is_wayland_socket("wayland-1"));
    assert!(is_wayland_socket("wayland-"));
    assert!(!is_wayland_socket("wayland-1.lock"));
    assert!(!is_wayland_socket("pipewire-0"));
    assert!(!is_wayland_socket("wayland"));
}

#[test]
fn ambient_vibrance_level() {
    assert_eq!(command(&["victuner", "rgb", "ambient", "3"]), Command::Ambient { level: 3, worker: false });
    assert_eq!(command(&["victuner", "ambient", "9"]), Command::Ambient { level: 5, worker: false });
    assert_eq!(command(&["victuner", "ambient", "--worker"]), Command::Ambient { level: 0, worker: true });
    assert_eq!(command(&["victuner", "ambient", "x"]), Command::Ambient { level: 0, worker: false });
}

#[test]
fn preset_names() {
    assert_eq!(preset("red"), Some((255, 0, 0)));
    assert_eq!(preset("neon-purple"), Some((180, 0, 255)));
    assert_eq!(preset("off"), Some((0, 0, 0)));
    assert_eq!(preset("Red"), None);
    assert_eq!(preset("255"), None);
}

#[test]
fn resolving_colours() {
    let a = args(&["victuner", "fade", "blue", "1", "2", "3"]);
    assert_eq!(resolve(&a, ColorArg::Named(2)), Some((0, 0, 255)));
    assert_eq!(resolve(&a, ColorArg::Named(1)), None);
    assert_eq!(resolve(&a, ColorArg::Named(9)), None);
    assert_eq!(resolve(&a, ColorArg::Rgb(1, 2, 3)), Some((1, 2, 3)));
}

#[test]
fn worker_command_lines() {
    let a = args(&["victuner", "rgb", "fade", "red", "0", "255", "7"]);
    let c = parse_command(&a);
    assert_eq!(worker_words(&a, c), vec!["fade", "red", "0", "255", "7"]);
    let a = args(&["victuner", "breathe", "cyan"]);
    assert_eq!(worker_words(&a, parse_command(&a)), vec!["breathe", "cyan"]);
    let a = args(&["victuner", "alternate", "red", "blue"]);
    assert_eq!(worker_words(&a, parse_command(&a)), vec!["alternate", "red", "blue"]);
    let a = args(&["victuner", "rainbow"]);
    assert_eq!(worker_words(&a, parse_command(&a)), vec!["rainbow"]);
    let a = args(&["victuner", "ambient", "2"]);
    assert_eq!(worker_words(&a, parse_command(&a)), vec!["ambient", "2"]);
    let a = args(&["victuner", "stop"]);
    assert!(worker_words(&a, parse_command(&a)).is_empty());
}
