use hsmanager::config::{Config, ServerConfig};

fn profile(name: &str, version: &str, path: &str, args: &str) -> ServerConfig {
    ServerConfig {
        name: name.to_string(),
        version: version.to_string(),
        path: path.to_string(),
        args: args.to_string(),
    }
}

#[test]
fn new_registry_is_empty() {
    let c = Config::new();
    assert_eq!(c.get_servers().len(), 0);
}

#[test]
fn add_then_get_returns_equal_copy() {
    let mut c = Config::new();
    c.add_server(profile("survival", "1.20.1", "/srv/a", "-Xmx2G"));
    let got = c.get_server("survival".to_string());
    assert_eq!(got, profile("survival", "1.20.1", "/srv/a", "-Xmx2G"));
}

#[test]
fn get_of_absent_name_returns_all_empty_profile() {
    let mut c = Config::new();
    c.add_server(profile("a", "1", "p", "x"));
    let got = c.get_server("missing".to_string());
    assert_eq!(got, profile("", "", "", ""));
}

#[test]
fn get_with_duplicate_names_returns_first() {
    let mut c = Config::new();
    c.add_server(profile("twin", "1", "/first", "f"));
    c.add_server(profile("twin", "2", "/second", "s"));
    let got = c.get_server("twin".to_string());
    assert_eq!(got.version, "1");
    assert_eq!(got.path, "/first");
}

#[test]
fn remove_removes_first_match_only() {
    let mut c = Config::new();
    c.add_server(profile("other", "0", "/o", "o"));
    c.add_server(profile("twin", "1", "/first", "f"));
    c.add_server(profile("twin", "2", "/second", "s"));
    c.del_server("twin".to_string());
    let left = c.get_servers();
    assert_eq!(left.len(), 2);
    assert_eq!(left[0].name, "other");
    assert_eq!(left[1].name, "twin");
    assert_eq!(left[1].version, "2");
}

#[test]
fn remove_of_absent_name_is_a_no_op() {
    let mut c = Config::new();
    c.add_server(profile("a", "1", "/a", "x"));
    c.add_server(profile("b", "2", "/b", "y"));
    c.del_server("missing".to_string());
    let left = c.get_servers();
    assert_eq!(left.len(), 2);
    assert_eq!(left[0], profile("a", "1", "/a", "x"));
    assert_eq!(left[1], profile("b", "2", "/b", "y"));
}

#[test]
fn edit_replaces_first_match_in_place() {
    let mut c = Config::new();
    c.add_server(profile("a", "1", "/a", "x"));
    c.add_server(profile("b", "2", "/b", "y"));
    c.add_server(profile("c", "3", "/c", "z"));
    c.edit_server(profile("b", "9", "/new", "n"));
    let left = c.get_servers();
    assert_eq!(left.len(), 3);
    assert_eq!(left[0], profile("a", "1", "/a", "x"));
    assert_eq!(left[1], profile("b", "9", "/new", "n"));
    assert_eq!(left[2], profile("c", "3", "/c", "z"));
}

#[test]
fn edit_of_absent_name_is_a_no_op() {
    let mut c = Config::new();
    c.add_server(profile("a", "1", "/a", "x"));
    c.edit_server(profile("missing", "9", "/new", "n"));
    let left = c.get_servers();
    assert_eq!(left.len(), 1);
    assert_eq!(left[0], profile("a", "1", "/a", "x"));
}

#[test]
fn iteration_follows_insertion_order() {
    let mut c = Config::new();
    c.add_server(profile("first", "1", "/1", ""));
    c.add_server(profile("second", "2", "/2", ""));
    c.add_server(profile("third", "3", "/3", ""));
    let names: Vec<&str> = c.get_servers().iter().map(|s| s.name.as_str()).collect();
    assert_eq!(names, vec!["first", "second", "third"]);
}

#[test]
fn order_is_stable_under_later_remove_and_edit() {
    let mut c = Config::new();
    c.add_server(profile("first", "1", "/1", ""));
    c.add_server(profile("second", "2", "/2", ""));
    c.add_server(profile("third", "3", "/3", ""));
    c.edit_server(profile("third", "30", "/3", ""));
    c.del_server("second".to_string());
    let names: Vec<&str> = c.get_servers().iter().map(|s| s.name.as_str()).collect();
    assert_eq!(names, vec!["first", "third"]);
}

#[test]
fn find_server_reports_found_and_not_found() {
    let mut c = Config::new();
    c.add_server(profile("a", "1", "/a", "x"));
    assert!(c.find_server("a").is_some());
    assert_eq!(c.find_server("a").unwrap().version, "1");
    assert!(c.find_server("missing").is_none());
}

#[test]
fn mutation_through_mutable_view_is_visible() {
    let mut c = Config::new();
    c.add_server(profile("a", "1", "/a", "x"));
    c.get_servers_mut()[0].version = "2".to_string();
    assert_eq!(c.get_server("a".to_string()).version, "2");
}
