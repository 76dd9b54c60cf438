use hsmanager::config::{Config, ServerConfig};

fn profile(name: &str, version: &str, path: &str, args: &str) -> ServerConfig {
    ServerConfig {
        name: name.to_string(),
        version: version.to_string(),
        path: path.to_string(),
        args: args.to_string(),
    }
}

fn round_trip(c: &Config) -> Config {
    Config::from_json(c.to_json().as_str()).expect("rendered document must parse")
}

#[test]
fn empty_registry_renders_as_empty_array() {
    let c = Config::new();
    assert_eq!(c.to_json(), "[]");
}

#[test]
fn one_profile_renders_exactly() {
    let mut c = Config::new();
    c.add_server(profile("survival", "1.20.1", "/srv/a", "-Xmx2G"));
    assert_eq!(
        c.to_json(),
        "[{\"name\":\"survival\",\"version\":\"1.20.1\",\"path\":\"/srv/a\",\"args\":\"-Xmx2G\"}]"
    );
}

#[test]
fn quotes_and_backslashes_are_escaped_exactly() {
    let mut c = Config::new();
    c.add_server(profile("qu\"ote", "back\\slash", "line\nbreak", "tab\there"));
    assert_eq!(
        c.to_json(),
        "[{\"name\":\"qu\\\"ote\",\"version\":\"back\\\\slash\",\"path\":\"line\\nbreak\",\"args\":\"tab\\there\"}]"
    );
}

#[test]
fn round_trip_of_empty_registry() {
    let back = round_trip(&Config::new());
    assert_eq!(back.get_servers().len(), 0);
}

#[test]
fn round_trip_keeps_every_field_and_the_order() {
    let mut c = Config::new();
    c.add_server(profile("alpha", "1.0", "/srv/alpha", "-Xmx1G"));
    c.add_server(profile("beta", "2.0", "/srv/beta", ""));
    c.add_server(profile("", "", "", ""));
    let back = round_trip(&c);
    assert_eq!(back.get_servers(), c.get_servers());
}

#[test]
fn round_trip_keeps_non_ascii_and_control_characters() {
    let mut c = Config::new();
    c.add_server(profile("生存服", "1.20", "/srv/世界", "参数 -Xmx2G"));
    c.add_server(profile("mixed\r\n\t", "\u{8}\u{c}", "quote\"back\\", "slash/"));
    let back = round_trip(&c);
    assert_eq!(back.get_servers(), c.get_servers());
}

#[test]
fn round_trip_keeps_duplicate_names() {
    let mut c = Config::new();
    c.add_server(profile("twin", "1", "/first", "f"));
    c.add_server(profile("twin", "2", "/second", "s"));
    let back = round_trip(&c);
    assert_eq!(back.get_servers(), c.get_servers());
}

#[test]
fn handwritten_document_parses() {
    let text = "[{\"name\":\"a\",\"version\":\"1\",\"path\":\"/a\",\"args\":\"x\"},{\"name\":\"b\",\"version\":\"2\",\"path\":\"/b\",\"args\":\"\"}]";
    let c = Config::from_json(text).expect("well-formed document");
    let servers = c.get_servers();
    assert_eq!(servers.len(), 2);
    assert_eq!(servers[0], profile("a", "1", "/a", "x"));
    assert_eq!(servers[1], profile("b", "2", "/b", ""));
}

#[test]
fn recognized_escapes_parse_back() {
    let text = "[{\"name\":\"a\\\"b\\\\c\\/d\",\"version\":\"\\n\\r\\t\",\"path\":\"\\b\\f\",\"args\":\"\"}]";
    let c = Config::from_json(text).expect("well-formed document");
    assert_eq!(c.get_servers()[0], profile("a\"b\\c/d", "\n\r\t", "\u{8}\u{c}", ""));
}

#[test]
fn malformed_documents_are_rejected() {
    for text in [
        "",
        "[",
        "]",
        "{}",
        "[{}]",
        "[]x",
        "x[]",
        "[,]",
        "[{\"name\":\"a\"}]",
        "[{\"name\":\"a\",\"version\":\"1\",\"path\":\"/a\",\"args\":\"x\"}",
        "[{\"name\":\"a\",\"version\":\"1\",\"path\":\"/a\",\"args\":\"x\"},]",
        "[{\"version\":\"1\",\"name\":\"a\",\"path\":\"/a\",\"args\":\"x\"}]",
        "[{\"name\":\"unterminated",
        "[{\"name\":\"bad\\escape\",\"version\":\"1\",\"path\":\"/a\",\"args\":\"x\"}]",
        "[ {\"name\":\"a\",\"version\":\"1\",\"path\":\"/a\",\"args\":\"x\"}]",
        "[{\"name\":1,\"version\":\"1\",\"path\":\"/a\",\"args\":\"x\"}]",
    ] {
        assert!(Config::from_json(text).is_err(), "accepted: {text}");
    }
}
