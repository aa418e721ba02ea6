//! Shortcuts to directories, and the shell profiles that make them usable.
//!
//! The operations here work on what the caller has read, and say what is to
//! be written and shown: the config file's lines go in, the lines to write
//! back and the lines for the user come out.

pub mod config;
pub mod fs;
pub mod sequence;
pub mod shell;
pub mod text;

use crate::config::laws::{lemma_added_is_first, lemma_remove_present_key};
use crate::config::persistence::loaded_store;
use crate::config::{
    add_shortcut, find_key, get_config, index_of_key, remove_shortcut, AddOutcome,
    ConfigAddResult, ConfigRemoveResult, ConfigView, RemoveOutcome, ShortcutView,
};
use crate::text::{decimal, number};
use vstd::prelude::*;
use vstd::string::StringExecFns;

verus! {

/// A shortcut as the user reads it.
pub open spec fn arrow(shortcut: ShortcutView) -> Seq<char> {
    shortcut.key + " -> "@ + shortcut.value
}

/// What `list` shows of a store: its command, the number of its shortcuts,
/// and one line for each of them.
pub open spec fn listing(store: ConfigView) -> Seq<Seq<char>> {
    seq![
        "Command: \""@ + store.command + "\""@,
        "Shortcuts ("@ + decimal(store.shortcuts.len()) + "):"@,
    ] + Seq::new(store.shortcuts.len(), |i: int| "  "@ + arrow(store.shortcuts[i]))
}

/// What `get` answers: the key itself where it is a directory, else the value
/// of the shortcut of that key, else the key itself.
pub open spec fn resolved(store: ConfigView, key: Seq<char>, key_is_dir: bool) -> Seq<char> {
    let at = index_of_key(store.shortcuts, key);
    if key_is_dir || at >= store.shortcuts.len() {
        key
    } else {
        store.shortcuts[at].value
    }
}

/// What `add` tells the user.
pub open spec fn add_report(outcome: AddOutcome, key: Seq<char>, target: Seq<char>) -> Seq<
    Seq<char>,
> {
    match outcome {
        AddOutcome::NoChange => seq![
            "Nothing done, shortcut already exists: "@ + key + " -> "@ + target,
        ],
        AddOutcome::Created(added) => seq!["Successfully added shortcut: "@ + arrow(added)],
        AddOutcome::Updated(existing, added) => seq![
            "Successfully updated shortcut."@,
            "Existing shortcut was: "@ + arrow(existing),
            "New shortcut is: "@ + arrow(added),
        ],
    }
}

/// What `remove` tells the user.
pub open spec fn remove_report(outcome: RemoveOutcome, key: Seq<char>) -> Seq<Seq<char>> {
    match outcome {
        RemoveOutcome::NotFound => seq![
            "Did not find any shortcut for key \""@ + key + "\""@,
        ],
        RemoveOutcome::Removed(removed) => seq![
            "Successfully removed shortcut "@ + arrow(removed),
        ],
    }
}

/// A shortcut that was added is what its key stands for from then on, and the
/// listing shows it.
pub proof fn lemma_added_is_shown(store: ConfigView, key: Seq<char>, value: Seq<char>)
    ensures
        resolved(store.add(key, value).0, key, false) == value,
        listing(store.add(key, value).0).contains("  "@ + arrow(ShortcutView { key, value })),
{
    let after = store.add(key, value).0;
    let at = index_of_key(after.shortcuts, key);
    lemma_added_is_first(store, key, value);
    assert(listing(after)[2 + at] == "  "@ + arrow(after.shortcuts[at]));
}

/// A key whose shortcut was removed stands for itself again.
pub proof fn lemma_removed_is_echoed(store: ConfigView, key: Seq<char>)
    requires
        store.wf(),
    ensures
        resolved(store.remove(key).0, key, false) == key,
{
    if index_of_key(store.shortcuts, key) < store.shortcuts.len() {
        lemma_remove_present_key(store, key);
    }
}

/// Lists the shortcuts of the store in the config file `config_file`, whose
/// lines are `content`: the lines to show.
pub fn list(config_file: &str, content: Option<Vec<String>>) -> (r: Result<Vec<String>, String>)
    ensures
        match loaded_store(config_file@, content.deep_view()) {
            Err(message) => r matches Err(e) && e@ == message,
            Ok(store) => r matches Ok(lines) && lines.deep_view() == listing(store),
        },
{
    let config = match get_config(config_file, content) {
        Ok(config) => config,
        Err(err) => {
            return Err(err);
        },
    };
    let mut lines: Vec<String> = Vec::new();
    lines.push(String::from_str("Command: \"").concat(config.command.as_str()).concat("\""));
    lines.push(
        String::from_str("Shortcuts (").concat(number(config.shortcuts.len()).as_str()).concat(
            "):",
        ),
    );
    let ghost shown = listing(config@);
    assert(lines.deep_view() =~= shown.subrange(0, 2));
    let mut i: usize = 0;
    while i < config.shortcuts.len()
        invariant
            i <= config.shortcuts.len(),
            shown == listing(config@),
            lines.deep_view() == shown.subrange(0, 2 + i),
        decreases config.shortcuts.len() - i,
    {
        let ghost before = lines.deep_view();
        let shortcut = &config.shortcuts[i];
        assert(config@.shortcuts[i as int] == shortcut@);
        let text = String::from_str("  ").concat(shortcut.key.as_str()).concat(" -> ").concat(
            shortcut.value.as_str(),
        );
        assert(text@ =~= shown[2 + i]);
        lines.push(text);
        assert(lines.deep_view() =~= before.push(shown[2 + i]));
        assert(shown.subrange(0, 2 + i + 1) =~= shown.subrange(0, 2 + i).push(shown[2 + i]));
        i += 1;
    }
    assert(shown.subrange(0, 2 + config.shortcuts.len()) =~= shown);
    Ok(lines)
}

/// Adds the shortcut `key` to the directory `target`, an absolute path.
///
/// Gives the lines to write to the config file, none where nothing changed,
/// and the lines to show.
pub fn add(config_file: &str, content: Option<Vec<String>>, key: String, target: &str) -> (r:
    Result<(Option<Vec<String>>, Vec<String>), String>)
    ensures
        match loaded_store(config_file@, content.deep_view()) {
            Err(message) => r matches Err(e) && e@ == message,
            Ok(store) => r matches Ok((lines, shown)) && {
                let (after, outcome) = store.add(key@, target@);
                &&& lines.deep_view() == if outcome is NoChange {
                    None
                } else {
                    Some(after.serialize())
                }
                &&& shown.deep_view() == add_report(outcome, key@, target@)
            },
        },
{
    let (_, add_result, lines) = match add_shortcut(config_file, content, key.as_str(), target) {
        Ok(done) => done,
        Err(err) => {
            return Err(err);
        },
    };
    let mut shown: Vec<String> = Vec::new();
    let ghost outcome = add_result@;
    match add_result {
        ConfigAddResult::NoChange => {
            let text = String::from_str("Nothing done, shortcut already exists: ").concat(
                key.as_str(),
            ).concat(" -> ").concat(target);
            shown.push(text);
            assert(shown.deep_view() =~= add_report(outcome, key@, target@));
        },
        ConfigAddResult::Created(sc) => {
            let text = String::from_str("Successfully added shortcut: ").concat(
                sc.key.as_str(),
            ).concat(" -> ").concat(sc.value.as_str());
            assert(text@ =~= "Successfully added shortcut: "@ + arrow(sc@));
            shown.push(text);
            assert(shown.deep_view() =~= add_report(outcome, key@, target@));
        },
        ConfigAddResult::Updated(existing, added) => {
            let was = String::from_str("Existing shortcut was: ").concat(
                existing.key.as_str(),
            ).concat(" -> ").concat(existing.value.as_str());
            let is = String::from_str("New shortcut is: ").concat(added.key.as_str()).concat(
                " -> ",
            ).concat(added.value.as_str());
            assert(was@ =~= "Existing shortcut was: "@ + arrow(existing@));
            assert(is@ =~= "New shortcut is: "@ + arrow(added@));
            shown.push("Successfully updated shortcut.".to_owned());
            shown.push(was);
            shown.push(is);
            assert(shown.deep_view() =~= add_report(outcome, key@, target@));
        },
    }
    Ok((lines, shown))
}

/// Removes the shortcut of the key `key`.
///
/// Gives the lines to write to the config file, none where nothing changed,
/// and the lines to show.
pub fn remove(config_file: &str, content: Option<Vec<String>>, key: String) -> (r: Result<
    (Option<Vec<String>>, Vec<String>),
    String,
>)
    ensures
        match loaded_store(config_file@, content.deep_view()) {
            Err(message) => r matches Err(e) && e@ == message,
            Ok(store) => r matches Ok((lines, shown)) && {
                let (after, outcome) = store.remove(key@);
                &&& lines.deep_view() == if outcome is NotFound {
                    None
                } else {
                    Some(after.serialize())
                }
                &&& shown.deep_view() == remove_report(outcome, key@)
            },
        },
{
    let (_, remove_result, lines) = match remove_shortcut(config_file, content, key.as_str()) {
        Ok(done) => done,
        Err(err) => {
            return Err(err);
        },
    };
    let mut shown: Vec<String> = Vec::new();
    let ghost outcome = remove_result@;
    match remove_result {
        ConfigRemoveResult::NotFound => {
            let text = String::from_str("Did not find any shortcut for key \"").concat(
                key.as_str(),
            ).concat("\"");
            shown.push(text);
            assert(shown.deep_view() =~= remove_report(outcome, key@));
        },
        ConfigRemoveResult::Removed(removed) => {
            let text = String::from_str("Successfully removed shortcut ").concat(
                removed.key.as_str(),
            ).concat(" -> ").concat(removed.value.as_str());
            assert(text@ =~= "Successfully removed shortcut "@ + arrow(removed@));
            shown.push(text);
            assert(shown.deep_view() =~= remove_report(outcome, key@));
        },
    }
    Ok((lines, shown))
}

/// Answers what `key` stands for: the line to show. `key_is_dir` says whether
/// `key` is itself the path of a directory, which then goes before any
/// shortcut.
pub fn get(config_file: &str, content: Option<Vec<String>>, key: String, key_is_dir: bool) -> (r:
    Result<String, String>)
    ensures
        match loaded_store(config_file@, content.deep_view()) {
            Err(message) => r matches Err(e) && e@ == message,
            Ok(store) => r matches Ok(shown) && shown@ == resolved(store, key@, key_is_dir),
        },
{
    let config = match get_config(config_file, content) {
        Ok(config) => config,
        Err(err) => {
            return Err(err);
        },
    };
    if key_is_dir {
        return Ok(key);
    }
    let position = find_key(&config.shortcuts, key.as_str());
    if position < config.shortcuts.len() {
        assert(config@.shortcuts[position as int] == config.shortcuts[position as int]@);
        return Ok(config.shortcuts[position].value.clone());
    }
    Ok(key)
}

} // verus!
