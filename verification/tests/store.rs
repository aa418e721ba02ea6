use shortcut::config::order::{insert_by_key, sort_by_key};
use shortcut::config::{
    find_key, Config, ConfigAddResult, ConfigRemoveResult, ConfigVersion, ShortcutKV,
};

fn kv(key: &str, value: &str) -> ShortcutKV {
    ShortcutKV { key: key.to_string(), value: value.to_string() }
}

fn store(shortcuts: Vec<ShortcutKV>, profiles: Vec<&str>) -> Config {
    Config {
        version: ConfigVersion::V0,
        path_location: "/usr/local/bin".to_string(),
        command: "s".to_string(),
        shortcuts,
        power_shell_profiles: profiles.into_iter().map(|p| p.to_string()).collect(),
    }
}

fn lines(text: &[&str]) -> Vec<String> {
    text.iter().map(|line| line.to_string()).collect()
}

#[test]
fn latest_version_is_v0() {
    assert_eq!(Config::latest(), ConfigVersion::V0);
    assert_eq!(ConfigVersion::V0.to_string(), "0.1.0");
    assert_eq!(ConfigVersion::from_str("0.1.0"), Ok(ConfigVersion::V0));
}

#[test]
fn unknown_version_token_is_refused() {
    assert_eq!(
        ConfigVersion::from_str("0.2.0"),
        Err("Invalid config version \"0.2.0\".".to_string())
    );
    assert_eq!(ConfigVersion::from_str(""), Err("Invalid config version \"\".".to_string()));
    assert_eq!(
        ConfigVersion::from_str(" 0.1.0"),
        Err("Invalid config version \" 0.1.0\".".to_string())
    );
}

#[test]
fn serialize_writes_one_field_per_line() {
    let config = store(vec![kv("dl", "/home/u/Downloads"), kv("src", "/home/u/src")], vec!["a", "b"]);
    assert_eq!(
        config.serialize(),
        lines(&["0.1.0", "s", "/usr/local/bin", "a;b", "dl", "/home/u/Downloads", "src", "/home/u/src"])
    );
    let empty = store(vec![], vec![]);
    assert_eq!(empty.serialize(), lines(&["0.1.0", "s", "/usr/local/bin", ""]));
}

#[test]
fn deserialize_reads_what_serialize_wrote() {
    let config = store(
        vec![kv("dl", "/home/u/Downloads"), kv("src", "/home/u/src"), kv("tmp", "/tmp")],
        vec!["/home/u/profile.ps1", "/home/u/other profile.ps1"],
    );
    assert_eq!(Config::deserialize(config.serialize()), Ok(config));
    let bare = store(vec![], vec![]);
    assert_eq!(Config::deserialize(bare.serialize()), Ok(bare));
    let one_profile = store(vec![kv("a", "b")], vec!["p"]);
    assert_eq!(Config::deserialize(one_profile.serialize()), Ok(one_profile));
}

#[test]
fn deserialize_splits_the_profile_line() {
    let read = Config::deserialize(lines(&["0.1.0", "s", "", "a;;b;"])).unwrap();
    assert_eq!(read.power_shell_profiles, lines(&["a", "", "b", ""]));
    assert_eq!(read.path_location, "");
    assert_eq!(read.command, "s");
    let read = Config::deserialize(lines(&["0.1.0", "s", "", ";"])).unwrap();
    assert_eq!(read.power_shell_profiles, lines(&["", ""]));
    let read = Config::deserialize(lines(&["0.1.0", "s", "", "one"])).unwrap();
    assert_eq!(read.power_shell_profiles, lines(&["one"]));
    let read = Config::deserialize(lines(&["0.1.0", "s", "", "\u{e9};\u{4e2d}\u{6587}"])).unwrap();
    assert_eq!(read.power_shell_profiles, lines(&["\u{e9}", "\u{4e2d}\u{6587}"]));
    let read = Config::deserialize(lines(&["0.1.0", "s", "", ""])).unwrap();
    assert!(read.power_shell_profiles.is_empty());
}

#[test]
fn deserialize_keeps_the_order_of_the_lines() {
    let read = Config::deserialize(lines(&["0.1.0", "cmd", "dir", "", "z", "1", "a", "2", "z", "3"]))
        .unwrap();
    assert_eq!(read.shortcuts, vec![kv("z", "1"), kv("a", "2"), kv("z", "3")]);
    assert_eq!(read.version, ConfigVersion::V0);
}

#[test]
fn deserialize_fails_on_empty_input() {
    assert_eq!(
        Config::deserialize(vec![]),
        Err("Config must contain at least 4 lines".to_string())
    );
}

#[test]
fn deserialize_fails_on_a_short_header() {
    assert_eq!(
        Config::deserialize(lines(&["0.1.0", "s", "/bin"])),
        Err("Config must contain at least 4 lines".to_string())
    );
    assert_eq!(
        Config::deserialize(lines(&["9", "s", "/bin"])),
        Err("Config must contain at least 4 lines".to_string())
    );
}

#[test]
fn deserialize_fails_on_a_key_without_value() {
    assert_eq!(
        Config::deserialize(lines(&["0.1.0", "s", "/bin", "", "key"])),
        Err("Config file has an invalid number of lines".to_string())
    );
    assert_eq!(
        Config::deserialize(lines(&["0.1.0", "s", "/bin", "", "k", "v", "k2"])),
        Err("Config file has an invalid number of lines".to_string())
    );
    assert_eq!(
        Config::deserialize(lines(&["bad", "s", "/bin", "", "key"])),
        Err("Config file has an invalid number of lines".to_string())
    );
}

#[test]
fn deserialize_fails_on_an_unknown_version() {
    assert_eq!(
        Config::deserialize(lines(&["1.0.0", "s", "/bin", ""])),
        Err("Invalid config version \"1.0.0\".".to_string())
    );
    assert_eq!(
        Config::deserialize(lines(&["", "s", "/bin", "", "k", "v"])),
        Err("Invalid config version \"\".".to_string())
    );
}

#[test]
fn add_creates_a_shortcut_and_sorts() {
    let mut config = store(vec![], vec![]);
    assert_eq!(
        config.add("m".to_string(), "/m".to_string()),
        Ok(ConfigAddResult::Created(kv("m", "/m")))
    );
    assert_eq!(
        config.add("a".to_string(), "/a".to_string()),
        Ok(ConfigAddResult::Created(kv("a", "/a")))
    );
    assert_eq!(
        config.add("z".to_string(), "/z".to_string()),
        Ok(ConfigAddResult::Created(kv("z", "/z")))
    );
    assert_eq!(
        config.add("n".to_string(), "/n".to_string()),
        Ok(ConfigAddResult::Created(kv("n", "/n")))
    );
    assert_eq!(config.shortcuts, vec![kv("a", "/a"), kv("m", "/m"), kv("n", "/n"), kv("z", "/z")]);
}

#[test]
fn add_twice_changes_nothing_the_second_time() {
    let mut config = store(vec![kv("a", "/a")], vec!["p"]);
    assert_eq!(
        config.add("dl".to_string(), "/home/u/Downloads".to_string()),
        Ok(ConfigAddResult::Created(kv("dl", "/home/u/Downloads")))
    );
    let after_first = config.serialize();
    assert_eq!(
        config.add("dl".to_string(), "/home/u/Downloads".to_string()),
        Ok(ConfigAddResult::NoChange)
    );
    assert_eq!(config.serialize(), after_first);
    assert_eq!(config.shortcuts, vec![kv("a", "/a"), kv("dl", "/home/u/Downloads")]);
}

#[test]
fn add_with_a_new_value_updates_in_place() {
    let mut config = store(vec![kv("a", "/a"), kv("dl", "/old"), kv("z", "/z")], vec![]);
    assert_eq!(
        config.add("dl".to_string(), "/new".to_string()),
        Ok(ConfigAddResult::Updated(kv("dl", "/old"), kv("dl", "/new")))
    );
    assert_eq!(config.shortcuts, vec![kv("a", "/a"), kv("dl", "/new"), kv("z", "/z")]);
    assert_eq!(config.shortcuts.iter().filter(|shortcut| shortcut.key == "dl").count(), 1);
    assert_eq!(
        config.add("dl".to_string(), "/new".to_string()),
        Ok(ConfigAddResult::NoChange)
    );
}

#[test]
fn add_updates_the_first_of_a_repeated_key_and_keeps_the_order() {
    let mut config = store(vec![kv("z", "1"), kv("a", "2"), kv("z", "3")], vec![]);
    assert_eq!(
        config.add("z".to_string(), "9".to_string()),
        Ok(ConfigAddResult::Updated(kv("z", "1"), kv("z", "9")))
    );
    assert_eq!(config.shortcuts, vec![kv("z", "9"), kv("a", "2"), kv("z", "3")]);
}

#[test]
fn add_sorts_a_store_that_was_not_sorted() {
    let mut config = store(vec![kv("z", "1"), kv("b", "2"), kv("z", "3"), kv("a", "4")], vec![]);
    assert_eq!(
        config.add("m".to_string(), "5".to_string()),
        Ok(ConfigAddResult::Created(kv("m", "5")))
    );
    assert_eq!(
        config.shortcuts,
        vec![kv("a", "4"), kv("b", "2"), kv("m", "5"), kv("z", "1"), kv("z", "3")]
    );
}

#[test]
fn keys_are_ordered_as_strings_are() {
    let keys = ["b", "B", "a", "", "ab", "\u{e9}", "z", "Z", "\u{4e2d}", "a\u{e9}", "10", "9", "~"];
    let mut shortcuts: Vec<ShortcutKV> = keys.iter().map(|key| kv(key, "v")).collect();
    sort_by_key(&mut shortcuts);
    let mut expected: Vec<String> = keys.iter().map(|key| key.to_string()).collect();
    expected.sort();
    let sorted: Vec<String> = shortcuts.iter().map(|shortcut| shortcut.key.clone()).collect();
    assert_eq!(sorted, expected);
}

#[test]
fn sorting_keeps_the_order_of_equal_keys() {
    let mut shortcuts =
        vec![kv("b", "1"), kv("a", "2"), kv("b", "3"), kv("a", "4"), kv("b", "5"), kv("a", "6")];
    let mut expected = shortcuts.clone();
    expected.sort_by(|x, y| x.key.cmp(&y.key));
    sort_by_key(&mut shortcuts);
    assert_eq!(shortcuts, expected);
    assert_eq!(
        shortcuts,
        vec![kv("a", "2"), kv("a", "4"), kv("a", "6"), kv("b", "1"), kv("b", "3"), kv("b", "5")]
    );
}

#[test]
fn insert_by_key_goes_behind_equal_keys() {
    let mut shortcuts = vec![kv("a", "1"), kv("b", "2"), kv("b", "3"), kv("c", "4")];
    insert_by_key(&mut shortcuts, kv("b", "new"));
    assert_eq!(
        shortcuts,
        vec![kv("a", "1"), kv("b", "2"), kv("b", "3"), kv("b", "new"), kv("c", "4")]
    );
    insert_by_key(&mut shortcuts, kv("", "first"));
    assert_eq!(shortcuts[0], kv("", "first"));
    insert_by_key(&mut shortcuts, kv("d", "last"));
    assert_eq!(shortcuts[6], kv("d", "last"));
    let mut none: Vec<ShortcutKV> = vec![];
    insert_by_key(&mut none, kv("x", "y"));
    assert_eq!(none, vec![kv("x", "y")]);
}

#[test]
fn find_key_gives_the_first_index_or_the_length() {
    let shortcuts = vec![kv("a", "1"), kv("b", "2"), kv("a", "3")];
    assert_eq!(find_key(&shortcuts, "a"), 0);
    assert_eq!(find_key(&shortcuts, "b"), 1);
    assert_eq!(find_key(&shortcuts, "c"), 3);
    assert_eq!(find_key(&shortcuts, "A"), 3);
    assert_eq!(find_key(&vec![], "a"), 0);
}

#[test]
fn remove_of_an_absent_key_changes_nothing() {
    let mut config = store(vec![kv("a", "/a"), kv("b", "/b")], vec!["p"]);
    let before = config.serialize();
    assert_eq!(config.remove("c".to_string()), Ok(ConfigRemoveResult::NotFound));
    assert_eq!(config.serialize(), before);
    let mut empty = store(vec![], vec![]);
    assert_eq!(empty.remove("a".to_string()), Ok(ConfigRemoveResult::NotFound));
    assert!(empty.shortcuts.is_empty());
}

#[test]
fn remove_takes_out_the_shortcut_and_returns_it() {
    let mut config = store(vec![kv("a", "/a"), kv("b", "/b"), kv("c", "/c")], vec![]);
    assert_eq!(config.remove("b".to_string()), Ok(ConfigRemoveResult::Removed(kv("b", "/b"))));
    assert_eq!(config.shortcuts, vec![kv("a", "/a"), kv("c", "/c")]);
    assert_eq!(config.remove("b".to_string()), Ok(ConfigRemoveResult::NotFound));
    assert_eq!(config.remove("a".to_string()), Ok(ConfigRemoveResult::Removed(kv("a", "/a"))));
    assert_eq!(config.remove("c".to_string()), Ok(ConfigRemoveResult::Removed(kv("c", "/c"))));
    assert!(config.shortcuts.is_empty());
}

#[test]
fn remove_takes_the_first_of_a_repeated_key() {
    let mut config = store(vec![kv("z", "1"), kv("a", "2"), kv("z", "3")], vec![]);
    assert_eq!(config.remove("z".to_string()), Ok(ConfigRemoveResult::Removed(kv("z", "1"))));
    assert_eq!(config.shortcuts, vec![kv("a", "2"), kv("z", "3")]);
}

#[test]
fn keys_are_case_sensitive() {
    let mut config = store(vec![kv("Dl", "/upper")], vec![]);
    assert_eq!(
        config.add("dl".to_string(), "/lower".to_string()),
        Ok(ConfigAddResult::Created(kv("dl", "/lower")))
    );
    assert_eq!(config.shortcuts, vec![kv("Dl", "/upper"), kv("dl", "/lower")]);
    assert_eq!(config.remove("DL".to_string()), Ok(ConfigRemoveResult::NotFound));
}

#[test]
fn a_profile_is_added_once() {
    let mut config = store(vec![], vec![]);
    config.add_power_shell_profile("one".to_string());
    config.add_power_shell_profile("two".to_string());
    config.add_power_shell_profile("one".to_string());
    assert_eq!(config.power_shell_profiles, lines(&["one", "two"]));
    config.add_power_shell_profile("One".to_string());
    assert_eq!(config.power_shell_profiles, lines(&["one", "two", "One"]));
}

#[test]
fn the_results_can_be_cloned() {
    let created = ConfigAddResult::Created(kv("a", "b"));
    assert_eq!(created.clone(), created);
    let updated = ConfigAddResult::Updated(kv("a", "b"), kv("a", "c"));
    assert_eq!(updated.clone(), updated);
    assert_eq!(ConfigAddResult::NoChange.clone(), ConfigAddResult::NoChange);
    let removed = ConfigRemoveResult::Removed(kv("a", "b"));
    assert_eq!(removed.clone(), removed);
    assert_eq!(ConfigRemoveResult::NotFound.clone(), ConfigRemoveResult::NotFound);
    assert_eq!(kv("k", "v").clone(), kv("k", "v"));
}
