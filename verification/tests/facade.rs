use shortcut::config::create_config;
use shortcut::fs::{read_lines, write_lines};
use shortcut::{add, get, list, remove};

fn lines(text: &[&str]) -> Vec<String> {
    text.iter().map(|line| line.to_string()).collect()
}

const FILE: &str = "shortcuts.config";

fn numbered(count: usize) -> Vec<String> {
    let mut content = lines(&["0.1.0", "s", "/bin", ""]);
    for i in 0..count {
        content.push(format!("k{:05}", i));
        content.push(format!("/v{}", i));
    }
    content
}

#[test]
fn add_then_list_then_remove_then_get() {
    let content = lines(&["0.1.0", "s", "/usr/local/bin", ""]);
    let (written, shown) =
        add(FILE, Some(content), "dl".to_string(), "/home/u/Downloads").unwrap();
    assert_eq!(shown, lines(&["Successfully added shortcut: dl -> /home/u/Downloads"]));
    let content = written.unwrap();
    let listed = list(FILE, Some(content.clone())).unwrap();
    assert_eq!(listed, lines(&["Command: \"s\"", "Shortcuts (1):", "  dl -> /home/u/Downloads"]));
    assert!(listed.iter().any(|line| line.contains("dl -> /home/u/Downloads")));
    assert_eq!(
        get(FILE, Some(content.clone()), "dl".to_string(), false),
        Ok("/home/u/Downloads".to_string())
    );
    let (written, shown) = remove(FILE, Some(content), "dl".to_string()).unwrap();
    assert_eq!(shown, lines(&["Successfully removed shortcut dl -> /home/u/Downloads"]));
    let content = written.unwrap();
    assert_eq!(get(FILE, Some(content.clone()), "dl".to_string(), false), Ok("dl".to_string()));
    assert_eq!(list(FILE, Some(content)).unwrap(), lines(&["Command: \"s\"", "Shortcuts (0):"]));
}

#[test]
fn setup_add_list_remove_get_through_the_file() {
    // The file does not exist: the set-up makes the store and writes it.
    let (_, written) = create_config(FILE, None, "s", "/usr/local/bin", None).unwrap();
    let mut file = write_lines(&written);
    assert_eq!(file, "0.1.0\ns\n/usr/local/bin\n");

    let (written, shown) =
        add(FILE, Some(read_lines(&file)), "dl".to_string(), "/home/u/Downloads").unwrap();
    assert_eq!(shown, lines(&["Successfully added shortcut: dl -> /home/u/Downloads"]));
    file = write_lines(&written.unwrap());
    assert_eq!(file, "0.1.0\ns\n/usr/local/bin\n\ndl\n/home/u/Downloads");

    let listed = list(FILE, Some(read_lines(&file))).unwrap();
    assert_eq!(listed, lines(&["Command: \"s\"", "Shortcuts (1):", "  dl -> /home/u/Downloads"]));
    assert_eq!(
        get(FILE, Some(read_lines(&file)), "dl".to_string(), false),
        Ok("/home/u/Downloads".to_string())
    );

    let (written, shown) = remove(FILE, Some(read_lines(&file)), "dl".to_string()).unwrap();
    assert_eq!(shown, lines(&["Successfully removed shortcut dl -> /home/u/Downloads"]));
    file = write_lines(&written.unwrap());
    assert_eq!(file, "0.1.0\ns\n/usr/local/bin\n");

    assert_eq!(get(FILE, Some(read_lines(&file)), "dl".to_string(), false), Ok("dl".to_string()));
    assert_eq!(
        list(FILE, Some(read_lines(&file))).unwrap(),
        lines(&["Command: \"s\"", "Shortcuts (0):"])
    );

    // A second set-up finds the store and keeps it.
    let (config, written) =
        create_config(FILE, Some(read_lines(&file)), "go", "/other", None).unwrap();
    assert_eq!(config.command, "go");
    assert_eq!(config.path_location, "/usr/local/bin");
    assert_eq!(write_lines(&written), "0.1.0\ngo\n/usr/local/bin\n");
}

#[test]
fn list_counts_in_decimal() {
    for count in [0usize, 1, 9, 10, 11, 99, 100, 101, 1234] {
        let listed = list(FILE, Some(numbered(count))).unwrap();
        assert_eq!(listed.len(), count + 2);
        assert_eq!(listed[1], format!("Shortcuts ({}):", count));
    }
}

#[test]
fn list_shows_the_shortcuts_in_the_order_of_the_store() {
    let content = lines(&["0.1.0", "go to", "/bin", "p", "b", "/b", "a", "/a a"]);
    assert_eq!(
        list(FILE, Some(content)).unwrap(),
        lines(&["Command: \"go to\"", "Shortcuts (2):", "  b -> /b", "  a -> /a a"])
    );
}

#[test]
fn the_operations_need_a_store() {
    let message = "Config file not found. Run one-time setup (see --help)".to_string();
    assert_eq!(list(FILE, None), Err(message.clone()));
    assert_eq!(get(FILE, None, "k".to_string(), true), Err(message.clone()));
    assert_eq!(add(FILE, None, "k".to_string(), "/v"), Err(message.clone()));
    assert_eq!(remove(FILE, None, "k".to_string()), Err(message));
}

#[test]
fn the_operations_fail_on_a_corrupted_store() {
    let message =
        "Corrupted config file: \"shortcuts.config\".\nConfig must contain at least 4 lines".to_string();
    assert_eq!(list(FILE, Some(vec![])), Err(message.clone()));
    assert_eq!(get(FILE, Some(vec![]), "k".to_string(), false), Err(message.clone()));
    assert_eq!(add(FILE, Some(vec![]), "k".to_string(), "/v"), Err(message.clone()));
    assert_eq!(remove(FILE, Some(vec![]), "k".to_string()), Err(message));
}

#[test]
fn add_reports_what_it_did() {
    let content = lines(&["0.1.0", "s", "/bin", "", "a", "/a"]);
    let (written, shown) = add(FILE, Some(content.clone()), "a".to_string(), "/a").unwrap();
    assert_eq!(written, None);
    assert_eq!(shown, lines(&["Nothing done, shortcut already exists: a -> /a"]));
    let (written, shown) = add(FILE, Some(content.clone()), "a".to_string(), "/b").unwrap();
    assert_eq!(written, Some(lines(&["0.1.0", "s", "/bin", "", "a", "/b"])));
    assert_eq!(
        shown,
        lines(&[
            "Successfully updated shortcut.",
            "Existing shortcut was: a -> /a",
            "New shortcut is: a -> /b"
        ])
    );
    let (written, shown) = add(FILE, Some(content), "0".to_string(), "/zero").unwrap();
    assert_eq!(written, Some(lines(&["0.1.0", "s", "/bin", "", "0", "/zero", "a", "/a"])));
    assert_eq!(shown, lines(&["Successfully added shortcut: 0 -> /zero"]));
}

#[test]
fn remove_reports_what_it_did() {
    let content = lines(&["0.1.0", "s", "/bin", "", "a", "/a"]);
    let (written, shown) = remove(FILE, Some(content.clone()), "b".to_string()).unwrap();
    assert_eq!(written, None);
    assert_eq!(shown, lines(&["Did not find any shortcut for key \"b\""]));
    let (written, shown) = remove(FILE, Some(content), "a".to_string()).unwrap();
    assert_eq!(written, Some(lines(&["0.1.0", "s", "/bin", ""])));
    assert_eq!(shown, lines(&["Successfully removed shortcut a -> /a"]));
}

#[test]
fn get_prefers_a_directory_to_a_shortcut() {
    let content = lines(&["0.1.0", "s", "/bin", "", "src", "/home/u/src", "src", "/other"]);
    assert_eq!(get(FILE, Some(content.clone()), "src".to_string(), true), Ok("src".to_string()));
    assert_eq!(
        get(FILE, Some(content.clone()), "src".to_string(), false),
        Ok("/home/u/src".to_string())
    );
    assert_eq!(get(FILE, Some(content), "nope".to_string(), false), Ok("nope".to_string()));
}
