use hsmanager::command::{parser_command, step, Action, Command, Mode};
use hsmanager::config::{Config, ServerConfig};

fn profile(name: &str, version: &str, path: &str, args: &str) -> ServerConfig {
    ServerConfig {
        name: name.to_string(),
        version: version.to_string(),
        path: path.to_string(),
        args: args.to_string(),
    }
}

#[test]
fn each_recognized_command_parses_to_its_own_command() {
    assert_eq!(parser_command("help"), Command::Help);
    assert_eq!(parser_command("version"), Command::Version);
    assert_eq!(parser_command("author"), Command::Author);
    assert_eq!(parser_command("exit"), Command::Exit);
    assert_eq!(parser_command("clear"), Command::Clear);
    assert_eq!(parser_command("server-edit"), Command::ServerEdit);
}

#[test]
fn anything_else_is_unknown() {
    assert_eq!(parser_command(""), Command::Unknown);
    assert_eq!(parser_command("Help"), Command::Unknown);
    assert_eq!(parser_command(" help"), Command::Unknown);
    assert_eq!(parser_command("help "), Command::Unknown);
    assert_eq!(parser_command("server edit"), Command::Unknown);
    assert_eq!(parser_command("quit"), Command::Unknown);
}

#[test]
fn main_mode_routes_each_command_to_one_effect() {
    let c = Config::new();
    assert!(matches!(step(Mode::Main, &c, "help"), (Mode::Main, Action::ShowHelp)));
    assert!(matches!(step(Mode::Main, &c, "version"), (Mode::Main, Action::ShowVersion)));
    assert!(matches!(step(Mode::Main, &c, "author"), (Mode::Main, Action::ShowAuthor)));
    assert!(matches!(step(Mode::Main, &c, "exit"), (Mode::Main, Action::Exit)));
    assert!(matches!(step(Mode::Main, &c, "clear"), (Mode::Main, Action::Clear)));
    assert!(matches!(step(Mode::Main, &c, "server-edit"), (Mode::Inspect, Action::EnterInspect)));
}

#[test]
fn unrecognized_line_reports_error_and_stays_in_main() {
    let mut c = Config::new();
    c.add_server(profile("a", "1", "/a", "x"));
    let before = c.get_servers().clone();
    assert!(matches!(step(Mode::Main, &c, "restart"), (Mode::Main, Action::ShowError)));
    assert_eq!(c.get_servers(), &before);
}

#[test]
fn inspect_mode_looks_lines_up_as_names() {
    let mut c = Config::new();
    c.add_server(profile("survival", "1.20.1", "/srv/a", "-Xmx2G"));
    match step(Mode::Inspect, &c, "survival") {
        (Mode::Inspect, Action::ShowProfile(p)) => {
            assert_eq!(p, profile("survival", "1.20.1", "/srv/a", "-Xmx2G"));
        },
        other => panic!("unexpected step result: {other:?}"),
    }
    assert!(matches!(step(Mode::Inspect, &c, "missing"), (Mode::Inspect, Action::ShowNotFound)));
}

#[test]
fn inspect_mode_is_never_left_by_input() {
    let c = Config::new();
    for line in ["exit", "help", "server-edit", "clear", ""] {
        let (mode, action) = step(Mode::Inspect, &c, line);
        assert_eq!(mode, Mode::Inspect);
        assert!(matches!(action, Action::ShowNotFound));
    }
}

#[test]
fn inspect_mode_uses_the_first_match() {
    let mut c = Config::new();
    c.add_server(profile("twin", "1", "/first", "f"));
    c.add_server(profile("twin", "2", "/second", "s"));
    match step(Mode::Inspect, &c, "twin") {
        (Mode::Inspect, Action::ShowProfile(p)) => assert_eq!(p.version, "1"),
        other => panic!("unexpected step result: {other:?}"),
    }
}

#[test]
fn end_to_end_scenario() {
    let mut c = Config::new();
    c.add_server(profile("survival", "1.20.1", "/srv/a", "-Xmx2G"));
    let stored = c.to_json();
    let mut fresh = Config::from_json(stored.as_str()).expect("stored document must parse");
    assert_eq!(
        fresh.get_server("survival".to_string()),
        profile("survival", "1.20.1", "/srv/a", "-Xmx2G")
    );
    fresh.add_server(profile("creative", "1.20.1", "/srv/b", "-Xmx1G"));
    fresh.del_server("survival".to_string());
    let left = fresh.get_servers();
    assert_eq!(left.len(), 1);
    assert_eq!(left[0], profile("creative", "1.20.1", "/srv/b", "-Xmx1G"));
}
