use datex_cli::config::{
    choose_home_config, config_dir_path, config_source, datex_base_dir_of, get_config_source,
    get_datex_base_dir,
    is_dx_file_name, new_config_file_path, push_path, runtime_header, runtime_header_lines,
    select_dx_files, ConfigSource, HomeConfig,
};

#[test]
fn path_pushing() {
    assert_eq!(push_path("/home/u", ".datex"), "/home/u/.datex");
    assert_eq!(push_path("/home/u/", ".datex"), "/home/u/.datex");
    assert_eq!(push_path("", ".datex"), ".datex");
    assert_eq!(push_path("/home/u", "/etc"), "/etc");
    assert_eq!(config_dir_path("/home/u"), "/home/u/.datex");
    assert_eq!(new_config_file_path("/home/u", "@alice"), "/home/u/.datex/@alice.dx");
}

#[test]
fn dx_file_names() {
    assert!(is_dx_file_name("a.dx"));
    assert!(is_dx_file_name("@alice.dx"));
    assert!(is_dx_file_name(".a.dx"));
    assert!(!is_dx_file_name(".dx"));
    assert!(!is_dx_file_name("dx"));
    assert!(!is_dx_file_name("a.dxx"));
    assert!(!is_dx_file_name("a.txt"));
}

#[test]
fn selecting_dx_files() {
    let names = vec!["b.dx".to_string(), "notes.txt".to_string(), ".dx".to_string(), "a.dx".to_string()];
    assert_eq!(
        select_dx_files("/h/.datex", &names),
        vec!["/h/.datex/b.dx".to_string(), "/h/.datex/a.dx".to_string()]
    );
    assert!(select_dx_files("/h/.datex", &vec![]).is_empty());
}

#[test]
fn choosing_configuration() {
    assert!(matches!(
        config_source(Some("/c.dx".to_string()), Some("/h".to_string())),
        ConfigSource::CustomFile(p) if p == "/c.dx"
    ));
    assert!(matches!(config_source(None, Some("/h".to_string())), ConfigSource::HomeDirectory(h) if h == "/h"));
    assert!(matches!(config_source(None, Some(String::new())), ConfigSource::Temporary));
    assert!(matches!(config_source(None, None), ConfigSource::Temporary));
    assert!(matches!(choose_home_config(&vec![]), HomeConfig::CreateNew));
    assert!(matches!(
        choose_home_config(&vec!["x.dx".to_string(), "y.dx".to_string()]),
        HomeConfig::UseExisting(p) if p == "x.dx"
    ));
    assert!(matches!(get_config_source(Some("/c.dx".to_string())), ConfigSource::CustomFile(p) if p == "/c.dx"));
    match get_config_source(None) {
        ConfigSource::HomeDirectory(h) => assert!(!h.is_empty()),
        ConfigSource::Temporary => {}
        ConfigSource::CustomFile(_) => panic!("no file was given"),
    }
}

#[test]
fn base_directory() {
    assert_eq!(datex_base_dir_of(Some("/home/u".to_string())), Some("/home/u/.datex".to_string()));
    assert_eq!(datex_base_dir_of(None), None);
    if let Some(p) = get_datex_base_dir() {
        assert!(p.ends_with(".datex"));
    }
}

#[test]
fn header_box() {
    let lines = runtime_header_lines("0.1.0", "@a", "@a");
    // " Endpoint: @a " has 14 bytes: the box is 20 wide
    assert_eq!(lines[0], format!("\u{250C}{}\u{2510}", "\u{2500}".repeat(20)));
    assert_eq!(lines[1], format!("\u{2502}{:<20}\u{2502}", " DATEX v0.1.0"));
    assert_eq!(lines[2], format!("\u{2502}{:<20}\u{2502}", " Endpoint: @a "));
    assert_eq!(lines[3], format!("\u{2514}{}\u{2518}", "\u{2500}".repeat(20)));
    for l in &lines {
        assert_eq!(l.chars().count(), 22);
    }
}

#[test]
fn header_box_wide_and_colored() {
    let ep = "@a-very-long-endpoint-name";
    let lines = runtime_header_lines("1", ep, "\x1b[32m@a-very-long-endpoint-name\x1b[0m");
    let width = " Endpoint: @a-very-long-endpoint-name ".len();
    assert_eq!(lines[0].chars().count(), width + 2);
    assert_eq!(lines[2], "\u{2502} Endpoint: \x1b[32m@a-very-long-endpoint-name\x1b[0m \u{2502}");
    let shown = runtime_header("1", ep);
    assert_eq!(shown.len(), 4);
    assert_eq!(shown[0], lines[0]);
    assert!(shown[2].contains(ep));
    let inner = shown[2].trim_start_matches("\u{2502} Endpoint: ").trim_end_matches(" \u{2502}");
    assert!(
        inner == ep
            || (inner.starts_with("\x1b[") && inner.ends_with(&format!("m{ep}\x1b[0m")))
    );
}
