use ssh_manager::{
    add_connection, config_path, delete_connection, edit_connection, find_connection,
    list_output, load_connections, open_plan, parse_u16, save_connections, snippet_plan,
    u16_to_string, EditOutcome, LaunchPlan, Profile,
};

fn profile(name: &str, host: &str, port: u16, username: &str, welcome: Option<&str>) -> Profile {
    Profile {
        name: name.to_string(),
        host: host.to_string(),
        port,
        username: username.to_string(),
        welcome_message: welcome.map(|w| w.to_string()),
    }
}

#[test]
fn test_config_path() {
    let path = config_path().unwrap();
    let expected = dirs::home_dir().unwrap().join(".ssh_manager/config.json");
    assert_eq!(path.as_str(), expected.to_str().unwrap());
}

#[test]
fn test_load_connections() {
    let connections = load_connections(None).unwrap();
    assert_eq!(connections.len(), 0);
}

#[test]
fn test_save_connections() {
    let connections = vec![profile("test", "example.com", 22, "user", None)];
    let saved = save_connections(&connections);
    let loaded = load_connections(Some(saved.as_str())).unwrap();
    assert_eq!(connections, loaded);
}

#[test]
fn test_store_round_trip_with_escapes() {
    let connections = vec![
        profile("other", "10.0.0.7", 2222, "admin", Some("hello there")),
        profile("odd \"name\" \\ here", "h", 1, "u", Some("a \\ b \" c")),
    ];
    let saved = save_connections(&connections);
    let loaded = load_connections(Some(saved.as_str())).unwrap();
    assert_eq!(connections, loaded);
}

#[test]
fn test_save_empty_store() {
    let connections: Vec<Profile> = Vec::new();
    assert_eq!(save_connections(&connections), "[]");
}

#[test]
fn test_save_exact_document() {
    let connections = vec![profile("test", "example.com", 22, "user", None)];
    let saved = save_connections(&connections);
    let expected = "[\n  {\n    \"name\": \"test\",\n    \"host\": \"example.com\",\n    \"port\": 22,\n    \"username\": \"user\",\n    \"welcome_message\": null\n  }\n]";
    assert_eq!(saved, expected);
}

#[test]
fn test_save_is_well_formed_json() {
    let connections = vec![
        profile("a", "h1", 22, "u1", Some("hi")),
        profile("b", "h2", 80, "u2", None),
    ];
    let saved = save_connections(&connections);
    let value: serde_json::Value = serde_json::from_str(&saved).unwrap();
    let arr = value.as_array().unwrap();
    assert_eq!(arr.len(), 2);
    assert_eq!(arr[0].get("name").unwrap().as_str().unwrap(), "a");
    assert_eq!(arr[0].get("port").unwrap().as_u64().unwrap(), 22);
    assert_eq!(arr[0].get("welcome_message").unwrap().as_str().unwrap(), "hi");
    assert_eq!(arr[1].get("host").unwrap().as_str().unwrap(), "h2");
    assert!(arr[1].get("welcome_message").unwrap().is_null());
}

#[test]
fn test_load_malformed_store_fails() {
    assert!(load_connections(Some("garbage")).is_err());
    assert!(load_connections(Some("[")).is_err());
    assert!(load_connections(Some("{}")).is_err());
}

#[test]
fn test_load_trailing_junk_fails() {
    let saved = save_connections(&vec![profile("a", "h", 22, "u", None)]);
    let doctored = format!("{} ", saved);
    assert!(load_connections(Some(doctored.as_str())).is_err());
}

#[test]
fn test_add_is_append_only() {
    let mut connections = vec![
        profile("a", "h1", 22, "u1", None),
        profile("b", "h2", 80, "u2", None),
    ];
    let before = connections.clone();
    let added = profile("c", "h3", 443, "u3", Some("hi"));
    add_connection(&mut connections, added.clone());
    assert_eq!(connections.len(), 3);
    assert_eq!(connections[2], added);
    assert_eq!(&connections[..2], &before[..]);
}

#[test]
fn test_delete_removes_all_matches() {
    let mut connections = vec![
        profile("a", "h1", 22, "u1", None),
        profile("b", "h2", 80, "u2", None),
        profile("a", "h3", 443, "u3", None),
    ];
    delete_connection(&mut connections, "a");
    assert_eq!(connections.len(), 1);
    assert_eq!(connections[0].name, "b");
}

#[test]
fn test_delete_no_match_keeps_collection() {
    let mut connections = vec![
        profile("a", "h1", 22, "u1", None),
        profile("b", "h2", 80, "u2", None),
    ];
    let before = connections.clone();
    delete_connection(&mut connections, "zz");
    assert_eq!(connections, before);
}

#[test]
fn test_delete_scenario_store() {
    let mut connections = vec![
        profile("a", "h1", 22, "u1", None),
        profile("b", "h2", 80, "u2", None),
    ];
    delete_connection(&mut connections, "a");
    let saved = save_connections(&connections);
    let loaded = load_connections(Some(saved.as_str())).unwrap();
    assert_eq!(loaded.len(), 1);
    assert_eq!(loaded[0].name, "b");
}

#[test]
fn test_find_first_match() {
    let connections = vec![
        profile("a", "h1", 22, "u1", None),
        profile("b", "h2", 80, "u2", None),
        profile("b", "h3", 443, "u3", None),
    ];
    assert_eq!(find_connection(&connections, "b"), Some(1));
    assert_eq!(find_connection(&connections, "zz"), None);
}

#[test]
fn test_edit_updates_exactly_one_field() {
    let mut connections = vec![
        profile("db1", "10.0.0.1", 22, "root", Some("hi")),
        profile("db1", "10.0.0.2", 23, "admin", None),
    ];
    let outcome = edit_connection(&mut connections, "db1.host", "192.168.0.9");
    assert!(matches!(outcome, EditOutcome::Updated { .. }));
    assert!(outcome.persists());
    assert!(!outcome.is_fatal());
    assert_eq!(connections[0], profile("db1", "192.168.0.9", 22, "root", Some("hi")));
    assert_eq!(connections[1], profile("db1", "10.0.0.2", 23, "admin", None));
}

#[test]
fn test_edit_welcome_message_field() {
    let mut connections = vec![profile("db1", "h", 22, "root", None)];
    let outcome = edit_connection(&mut connections, "db1.welcome_message", "hello");
    assert!(matches!(outcome, EditOutcome::Updated { .. }));
    assert_eq!(connections[0], profile("db1", "h", 22, "root", Some("hello")));
}

#[test]
fn test_edit_invalid_property_still_persists() {
    let mut connections = vec![profile("db1", "h", 22, "root", None)];
    let before = connections.clone();
    let outcome = edit_connection(&mut connections, "db1.color", "green");
    assert!(matches!(outcome, EditOutcome::InvalidProperty { .. }));
    assert!(outcome.persists());
    assert!(!outcome.is_fatal());
    assert_eq!(connections, before);
}

#[test]
fn test_edit_dotted_property_is_invalid() {
    let mut connections = vec![profile("db1", "h", 22, "root", None)];
    let outcome = edit_connection(&mut connections, "db1.port.extra", "1");
    assert!(matches!(outcome, EditOutcome::InvalidProperty { .. }));
}

#[test]
fn test_edit_not_found_does_not_persist() {
    let mut connections = vec![profile("db1", "h", 22, "root", None)];
    let before = connections.clone();
    let outcome = edit_connection(&mut connections, "ghost.host", "h2");
    assert!(matches!(outcome, EditOutcome::NotFound { .. }));
    assert!(!outcome.persists());
    assert!(!outcome.is_fatal());
    assert_eq!(connections, before);
}

#[test]
fn test_edit_port_scenario() {
    let mut connections = vec![profile("db1", "h", 22, "root", None)];
    let outcome = edit_connection(&mut connections, "db1.port", "2222");
    assert!(matches!(outcome, EditOutcome::Updated { .. }));
    let saved = save_connections(&connections);
    let loaded = load_connections(Some(saved.as_str())).unwrap();
    assert_eq!(loaded[0].port, 2222);
}

#[test]
fn test_edit_bad_port_is_fatal() {
    let mut connections = vec![profile("db1", "h", 22, "root", None)];
    let before = connections.clone();
    let outcome = edit_connection(&mut connections, "db1.port", "not-a-number");
    assert!(matches!(outcome, EditOutcome::BadPort { .. }));
    assert!(outcome.is_fatal());
    assert!(!outcome.persists());
    assert_eq!(connections, before);
}

#[test]
fn test_edit_without_separator_is_fatal() {
    let mut connections = vec![profile("db1", "h", 22, "root", None)];
    let outcome = edit_connection(&mut connections, "db1", "h2");
    assert!(matches!(outcome, EditOutcome::NoSeparator));
    assert!(outcome.is_fatal());
}

#[test]
fn test_list_scenario_single_line() {
    let mut connections: Vec<Profile> = Vec::new();
    add_connection(&mut connections, profile("db1", "10.0.0.1", 22, "root", None));
    let lines = list_output(&connections);
    assert_eq!(lines.len(), 1);
    let expected = format!(
        "Name: {}, Host: {}, Port: {}, Username: {}",
        ansi_term::Colour::Green.bold().paint("db1"),
        ansi_term::Colour::Green.paint("10.0.0.1"),
        ansi_term::Colour::Green.paint("22"),
        ansi_term::Colour::Green.paint("root"),
    );
    assert_eq!(lines[0], expected);
    assert_eq!(
        lines[0],
        "Name: \u{1b}[1;32mdb1\u{1b}[0m, Host: \u{1b}[32m10.0.0.1\u{1b}[0m, Port: \u{1b}[32m22\u{1b}[0m, Username: \u{1b}[32mroot\u{1b}[0m"
    );
}

#[test]
fn test_list_empty_message() {
    let connections: Vec<Profile> = Vec::new();
    let lines = list_output(&connections);
    assert_eq!(lines, vec!["No SSH connections found.".to_string()]);
}

#[test]
fn test_open_plan_found() {
    let connections = vec![profile("db1", "10.0.0.1", 2222, "root", Some("welcome"))];
    match open_plan(&connections, "db1") {
        LaunchPlan::Launch { index, display, program, args } => {
            assert_eq!(index, 0);
            assert_eq!(program, "ssh");
            assert_eq!(display, vec!["Opening SSH connection: ssh -t root@10.0.0.1 -p 2222".to_string()]);
            assert_eq!(
                args,
                vec![
                    "-t".to_string(),
                    "root@10.0.0.1".to_string(),
                    "-p".to_string(),
                    "2222".to_string(),
                    "echo \"welcome\" ;".to_string(),
                    "exec $SHELL || bash || zsh || sh || /bin/sh".to_string(),
                ]
            );
        }
        LaunchPlan::NotFound { .. } => panic!("profile should be found"),
    }
}

#[test]
fn test_open_plan_no_welcome_echoes_empty() {
    let connections = vec![profile("db1", "h", 22, "root", None)];
    match open_plan(&connections, "db1") {
        LaunchPlan::Launch { args, .. } => {
            assert_eq!(args[4], "echo \"\" ;");
        }
        LaunchPlan::NotFound { .. } => panic!("profile should be found"),
    }
}

#[test]
fn test_open_plan_not_found_spawns_nothing() {
    let connections = vec![profile("db1", "h", 22, "root", None)];
    match open_plan(&connections, "ghost") {
        LaunchPlan::Launch { .. } => panic!("nothing should be spawned"),
        LaunchPlan::NotFound { message } => {
            assert_eq!(message, "Connection 'ghost' not found.");
        }
    }
}

#[test]
fn test_snippet_plan_found() {
    let connections = vec![profile("db1", "10.0.0.1", 22, "root", None)];
    match snippet_plan(&connections, "db1") {
        LaunchPlan::Launch { display, program, args, .. } => {
            assert_eq!(display.len(), 0);
            assert_eq!(program, "ssh");
            assert_eq!(
                args,
                vec![
                    "root@10.0.0.1".to_string(),
                    "cat > ~/received_script.sh && chmod +x ~/received_script.sh && ./received_script.sh && rm ~/received_script.sh".to_string(),
                ]
            );
        }
        LaunchPlan::NotFound { .. } => panic!("profile should be found"),
    }
}

#[test]
fn test_snippet_plan_not_found() {
    let connections = vec![profile("db1", "h", 22, "root", None)];
    match snippet_plan(&connections, "ghost") {
        LaunchPlan::Launch { .. } => panic!("nothing should be spawned"),
        LaunchPlan::NotFound { message } => {
            assert_eq!(message, "Connection with name 'ghost' not found.");
        }
    }
}

#[test]
fn test_parse_u16_values() {
    assert_eq!(parse_u16("2222"), Some(2222));
    assert_eq!(parse_u16("+22"), Some(22));
    assert_eq!(parse_u16("0"), Some(0));
    assert_eq!(parse_u16("65535"), Some(65535));
    assert_eq!(parse_u16("65536"), None);
    assert_eq!(parse_u16(""), None);
    assert_eq!(parse_u16("+"), None);
    assert_eq!(parse_u16("2a"), None);
    assert_eq!(parse_u16("-1"), None);
}

#[test]
fn test_u16_rendering() {
    assert_eq!(u16_to_string(0), "0");
    assert_eq!(u16_to_string(22), "22");
    assert_eq!(u16_to_string(65535), "65535");
}
