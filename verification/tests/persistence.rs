use shortcut::fs::{read_lines, write_lines};
use shortcut::config::{
    add_shortcut, create_config, get_config, get_config_from_file, read_config, remove_shortcut,
    Config, ConfigAddResult, ConfigRemoveResult, ConfigVersion, ShortcutKV,
};

fn kv(key: &str, value: &str) -> ShortcutKV {
    ShortcutKV { key: key.to_string(), value: value.to_string() }
}

fn lines(text: &[&str]) -> Vec<String> {
    text.iter().map(|line| line.to_string()).collect()
}

const FILE: &str = "/home/u/.config/shortcuts/shortcuts.config";

#[test]
fn no_file_is_no_store() {
    assert_eq!(read_config(FILE, None), Ok(None));
}

#[test]
fn a_file_is_read_as_a_store() {
    let read = read_config(FILE, Some(lines(&["0.1.0", "s", "/bin", "p", "k", "v"]))).unwrap().unwrap();
    assert_eq!(
        read,
        Config {
            version: ConfigVersion::V0,
            path_location: "/bin".to_string(),
            command: "s".to_string(),
            shortcuts: vec![kv("k", "v")],
            power_shell_profiles: lines(&["p"]),
        }
    );
}

#[test]
fn a_store_without_profiles_and_shortcuts_is_read_from_its_text() {
    let read = read_config(FILE, Some(read_lines("0.1.0\ns\n/p\n")));
    assert_eq!(
        read,
        Ok(Some(Config {
            version: ConfigVersion::V0,
            command: "s".to_string(),
            path_location: "/p".to_string(),
            power_shell_profiles: vec![],
            shortcuts: vec![],
        }))
    );
}

#[test]
fn what_create_config_writes_is_read_back() {
    for profile in [None, Some("C:\\profile.ps1".to_string())] {
        let (config, written) = create_config(FILE, None, "s", "/p", profile).unwrap();
        let text = write_lines(&written);
        assert_eq!(read_config(FILE, Some(read_lines(&text))), Ok(Some(config)));
    }
}

#[test]
fn a_shortcut_with_an_empty_value_is_read_back() {
    let content = read_lines("0.1.0\ns\n/p\n");
    let (config, _, written) = add_shortcut(FILE, Some(content), "k", "").unwrap();
    let text = write_lines(&written.unwrap());
    assert_eq!(text, "0.1.0\ns\n/p\n\nk\n");
    assert_eq!(get_config(FILE, Some(read_lines(&text))), Ok(config));
}

#[test]
fn a_newline_behind_the_last_value_is_one_line_too_many() {
    assert_eq!(
        get_config("f", Some(read_lines("0.1.0\ns\n/p\np\nk\nv\n"))),
        Err("Corrupted config file: \"f\".\nConfig file has an invalid number of lines".to_string())
    );
    assert!(get_config("f", Some(read_lines("0.1.0\ns\n/p\np\nk\nv"))).is_ok());
}

#[test]
fn a_corrupted_file_is_an_error_that_names_it() {
    assert_eq!(
        read_config(FILE, Some(lines(&["0.1.0", "s"]))),
        Err(format!("Corrupted config file: \"{}\".\nConfig must contain at least 4 lines", FILE))
    );
    assert_eq!(
        read_config("c.cfg", Some(lines(&["0.1.0", "s", "", "", "k"]))),
        Err("Corrupted config file: \"c.cfg\".\nConfig file has an invalid number of lines".to_string())
    );
    assert_eq!(
        get_config("c.cfg", Some(lines(&["7", "s", "", ""]))),
        Err("Corrupted config file: \"c.cfg\".\nInvalid config version \"7\".".to_string())
    );
    assert_eq!(
        read_config(FILE, Some(vec![])),
        Err(format!("Corrupted config file: \"{}\".\nConfig must contain at least 4 lines", FILE))
    );
}

#[test]
fn a_missing_store_asks_for_the_setup() {
    let message = "Config file not found. Run one-time setup (see --help)".to_string();
    assert_eq!(get_config(FILE, None), Err(message.clone()));
    assert_eq!(get_config_from_file(FILE, None), Err(message.clone()));
    assert_eq!(add_shortcut(FILE, None, "k", "v"), Err(message.clone()));
    assert_eq!(remove_shortcut(FILE, None, "k"), Err(message));
}

#[test]
fn get_config_gives_the_store() {
    let config = get_config(FILE, Some(lines(&["0.1.0", "go", "/bin", ""]))).unwrap();
    assert_eq!(config.command, "go");
    assert!(config.shortcuts.is_empty());
}

#[test]
fn add_shortcut_gives_the_lines_to_write() {
    let content = lines(&["0.1.0", "s", "/bin", "", "b", "/b"]);
    let (config, result, written) = add_shortcut(FILE, Some(content), "a", "/a").unwrap();
    assert_eq!(result, ConfigAddResult::Created(kv("a", "/a")));
    assert_eq!(config.shortcuts, vec![kv("a", "/a"), kv("b", "/b")]);
    assert_eq!(written, Some(lines(&["0.1.0", "s", "/bin", "", "a", "/a", "b", "/b"])));
}

#[test]
fn add_shortcut_writes_nothing_without_a_change() {
    let content = lines(&["0.1.0", "s", "/bin", "", "b", "/b"]);
    let (config, result, written) = add_shortcut(FILE, Some(content), "b", "/b").unwrap();
    assert_eq!(result, ConfigAddResult::NoChange);
    assert_eq!(config.shortcuts, vec![kv("b", "/b")]);
    assert_eq!(written, None);
}

#[test]
fn add_shortcut_writes_an_update() {
    let content = lines(&["0.1.0", "s", "/bin", "", "b", "/b"]);
    let (_, result, written) = add_shortcut(FILE, Some(content), "b", "/c").unwrap();
    assert_eq!(result, ConfigAddResult::Updated(kv("b", "/b"), kv("b", "/c")));
    assert_eq!(written, Some(lines(&["0.1.0", "s", "/bin", "", "b", "/c"])));
}

#[test]
fn add_shortcut_fails_on_a_corrupted_file() {
    assert_eq!(
        add_shortcut("f", Some(lines(&["x"])), "k", "v"),
        Err("Corrupted config file: \"f\".\nConfig must contain at least 4 lines".to_string())
    );
}

#[test]
fn remove_shortcut_gives_the_lines_to_write() {
    let content = lines(&["0.1.0", "s", "/bin", "p;q", "a", "/a", "b", "/b"]);
    let (config, result, written) = remove_shortcut(FILE, Some(content), "a").unwrap();
    assert_eq!(result, ConfigRemoveResult::Removed(kv("a", "/a")));
    assert_eq!(config.shortcuts, vec![kv("b", "/b")]);
    assert_eq!(written, Some(lines(&["0.1.0", "s", "/bin", "p;q", "b", "/b"])));
}

#[test]
fn remove_shortcut_writes_nothing_without_a_change() {
    let content = lines(&["0.1.0", "s", "/bin", "p;q", "a", "/a"]);
    let (config, result, written) = remove_shortcut(FILE, Some(content), "zz").unwrap();
    assert_eq!(result, ConfigRemoveResult::NotFound);
    assert_eq!(config.shortcuts, vec![kv("a", "/a")]);
    assert_eq!(written, None);
}

#[test]
fn create_config_makes_a_new_store() {
    let (config, written) = create_config(FILE, None, "s", "/usr/local/bin", None).unwrap();
    assert_eq!(
        config,
        Config {
            version: ConfigVersion::V0,
            path_location: "/usr/local/bin".to_string(),
            command: "s".to_string(),
            shortcuts: vec![],
            power_shell_profiles: vec![],
        }
    );
    assert_eq!(written, lines(&["0.1.0", "s", "/usr/local/bin", ""]));
    let (config, written) =
        create_config(FILE, None, "go", "/bin", Some("C:\\profile.ps1".to_string())).unwrap();
    assert_eq!(config.power_shell_profiles, lines(&["C:\\profile.ps1"]));
    assert_eq!(written, lines(&["0.1.0", "go", "/bin", "C:\\profile.ps1"]));
}

#[test]
fn create_config_keeps_the_shortcuts_of_a_store() {
    let content = lines(&["0.1.0", "old", "/old/bin", "p1", "a", "/a"]);
    let (config, written) =
        create_config(FILE, Some(content), "new", "/new/bin", Some("p2".to_string())).unwrap();
    assert_eq!(config.command, "new");
    assert_eq!(config.path_location, "/old/bin");
    assert_eq!(config.shortcuts, vec![kv("a", "/a")]);
    assert_eq!(config.power_shell_profiles, lines(&["p1", "p2"]));
    assert_eq!(written, lines(&["0.1.0", "new", "/old/bin", "p1;p2", "a", "/a"]));
}

#[test]
fn create_config_adds_a_known_profile_once() {
    let content = lines(&["0.1.0", "s", "/bin", "p1;p2"]);
    let (config, written) =
        create_config(FILE, Some(content.clone()), "s", "/bin", Some("p2".to_string())).unwrap();
    assert_eq!(config.power_shell_profiles, lines(&["p1", "p2"]));
    assert_eq!(written, content);
    let (config, _) = create_config(FILE, Some(content), "s", "/bin", None).unwrap();
    assert_eq!(config.power_shell_profiles, lines(&["p1", "p2"]));
}

#[test]
fn create_config_fails_on_a_corrupted_file() {
    assert_eq!(
        create_config("f", Some(lines(&["0.1.0", "s", "/bin", "", "k"])), "s", "/bin", None),
        Err("Corrupted config file: \"f\".\nConfig file has an invalid number of lines".to_string())
    );
}
