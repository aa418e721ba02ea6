//! Between the store and its file: what a file's lines mean, and what is to be
//! written back. Reading and writing the file is the caller's part.

use crate::config::laws::{lemma_add_profile_keeps_wf, lemma_serialize_deserialize};
use crate::config::{
    deserialized, is_profile, profile_line, Config, ConfigAddResult, ConfigRemoveResult, ConfigVersion,
    ConfigView, ShortcutKV, ShortcutView,
};
use crate::fs::{can_be_read_back, is_line, lemma_read_written_lines, lines_text, text_lines};
use crate::text::viewed;
use vstd::prelude::*;
use vstd::string::StringExecFns;

verus! {

/// The error for a config file whose lines are no store.
pub open spec fn corrupted(config_file: Seq<char>, reason: Seq<char>) -> Seq<char> {
    "Corrupted config file: \""@ + config_file + "\".\n"@ + reason
}

/// The error for a store that has not been set up.
pub open spec fn not_set_up() -> Seq<char> {
    "Config file not found. Run one-time setup (see --help)"@
}

/// What the config file holds: no store where there is no file, the store
/// that its lines write down, or an error that names the file where they write
/// none down.
pub open spec fn loaded(config_file: Seq<char>, content: Option<Seq<Seq<char>>>) -> Result<
    Option<ConfigView>,
    Seq<char>,
> {
    match content {
        None => Ok(None),
        Some(lines) => match deserialized(lines) {
            Ok(store) => Ok(Some(store)),
            Err(reason) => Err(corrupted(config_file, reason)),
        },
    }
}

/// The store in the config file, for an operation that needs one.
pub open spec fn loaded_store(config_file: Seq<char>, content: Option<Seq<Seq<char>>>) -> Result<
    ConfigView,
    Seq<char>,
> {
    match loaded(config_file, content) {
        Ok(Some(store)) => Ok(store),
        Ok(None) => Err(not_set_up()),
        Err(message) => Err(message),
    }
}

/// The store after a set-up: an existing store with the command renewed and
/// the profile location added, or a new store without shortcuts.
pub open spec fn set_up(
    existing: Option<ConfigView>,
    command: Seq<char>,
    path_location: Seq<char>,
    power_shell_profile: Option<Seq<char>>,
) -> ConfigView {
    match existing {
        Some(store) => {
            let renewed = ConfigView { command, ..store };
            match power_shell_profile {
                Some(profile) => renewed.add_power_shell_profile(profile),
                None => renewed,
            }
        },
        None => ConfigView {
            version: ConfigVersion::V0,
            path_location,
            command,
            shortcuts: Seq::empty(),
            power_shell_profiles: match power_shell_profile {
                Some(profile) => seq![profile],
                None => Seq::empty(),
            },
        },
    }
}

/// What a set-up needs to give a well-formed store: a well-formed store to
/// begin with, if there is one, and a profile location that can be written
/// down, if there is one.
pub open spec fn can_set_up(
    existing: Option<ConfigView>,
    power_shell_profile: Option<Seq<char>>,
) -> bool {
    &&& existing matches Some(store) ==> store.wf()
    &&& power_shell_profile matches Some(profile) ==> is_profile(profile)
}

/// Reads the store from the lines of the config file `config_file`; `content`
/// is `None` where the file does not exist, and then there is no store.
///
/// A file that is there and cannot be read as a store is an error, which names
/// the file and the reason.
pub fn read_config(config_file: &str, content: Option<Vec<String>>) -> (r: Result<
    Option<Config>,
    String,
>)
    ensures
        match r {
            Ok(Some(config)) => loaded(config_file@, content.deep_view()) == Ok::<
                Option<ConfigView>,
                Seq<char>,
            >(Some(config@)),
            Ok(None) => loaded(config_file@, content.deep_view()) == Ok::<
                Option<ConfigView>,
                Seq<char>,
            >(None),
            Err(message) => loaded(config_file@, content.deep_view()) == Err::<
                Option<ConfigView>,
                Seq<char>,
            >(message@),
        },
{
    match content {
        Some(content) => {
            let config = match Config::deserialize(content) {
                Ok(config) => config,
                Err(err) => {
                    let msg = String::from_str("Corrupted config file: \"").concat(
                        config_file,
                    ).concat("\".\n").concat(err.as_str());
                    return Err(msg);
                },
            };
            Ok(Some(config))
        },
        None => Ok(None),
    }
}

/// Reads the store as `read_config` does. That there is no file is an error
/// here, which asks for the set-up.
pub fn get_config_from_file(config_file: &str, content: Option<Vec<String>>) -> (r: Result<
    Config,
    String,
>)
    ensures
        viewed(r) == loaded_store(config_file@, content.deep_view()),
{
    match read_config(config_file, content) {
        Ok(Some(config)) => Ok(config),
        Ok(None) => Err("Config file not found. Run one-time setup (see --help)".to_owned()),
        Err(err) => Err(err),
    }
}

/// The store in the config file `config_file`, whose lines are `content`.
pub fn get_config(config_file: &str, content: Option<Vec<String>>) -> (r: Result<Config, String>)
    ensures
        viewed(r) == loaded_store(config_file@, content.deep_view()),
{
    get_config_from_file(config_file, content)
}

/// Adds the shortcut `key` to `path` to the store in the config file.
///
/// Gives the store as it then is, what the addition did, and the lines to
/// write to the config file: none where nothing changed.
pub fn add_shortcut(config_file: &str, content: Option<Vec<String>>, key: &str, path: &str) -> (r:
    Result<(Config, ConfigAddResult, Option<Vec<String>>), String>)
    ensures
        match loaded_store(config_file@, content.deep_view()) {
            Err(message) => r matches Err(e) && e@ == message,
            Ok(store) => r matches Ok((config, add_result, lines)) && {
                &&& config@ == store.add(key@, path@).0
                &&& add_result@ == store.add(key@, path@).1
                &&& lines.deep_view() == if add_result@ is NoChange {
                    None
                } else {
                    Some(config@.serialize())
                }
            },
        },
{
    let mut config = match get_config_from_file(config_file, content) {
        Ok(config) => config,
        Err(err) => {
            return Err(err);
        },
    };
    let add_result = match config.add(key.to_owned(), path.to_owned()) {
        Ok(add_result) => add_result,
        Err(err) => {
            return Err(err);
        },
    };
    let lines = match add_result {
        ConfigAddResult::NoChange => None,
        _ => Some(config.serialize()),
    };
    Ok((config, add_result, lines))
}

/// Removes the shortcut of the key `key` from the store in the config file.
///
/// Gives the store as it then is, what the removal did, and the lines to write
/// to the config file: none where nothing changed.
pub fn remove_shortcut(config_file: &str, content: Option<Vec<String>>, key: &str) -> (r: Result<
    (Config, ConfigRemoveResult, Option<Vec<String>>),
    String,
>)
    ensures
        match loaded_store(config_file@, content.deep_view()) {
            Err(message) => r matches Err(e) && e@ == message,
            Ok(store) => r matches Ok((config, remove_result, lines)) && {
                &&& config@ == store.remove(key@).0
                &&& remove_result@ == store.remove(key@).1
                &&& lines.deep_view() == if remove_result@ is NotFound {
                    None
                } else {
                    Some(config@.serialize())
                }
            },
        },
{
    let mut config = match get_config_from_file(config_file, content) {
        Ok(config) => config,
        Err(err) => {
            return Err(err);
        },
    };
    let remove_result = match config.remove(key.to_owned()) {
        Ok(remove_result) => remove_result,
        Err(err) => {
            return Err(err);
        },
    };
    let lines = match remove_result {
        ConfigRemoveResult::NotFound => None,
        _ => Some(config.serialize()),
    };
    Ok((config, remove_result, lines))
}

/// Sets the store up for the command `command`.
///
/// A store that the config file holds keeps its shortcuts and its path
/// location; its command becomes `command`, and `power_shell_profile` joins
/// its profile locations. Where there is no file, the store is new: it has
/// the path location `path_location` and no shortcuts. Gives the store, and
/// the lines to write to the config file.
pub fn create_config(
    config_file: &str,
    content: Option<Vec<String>>,
    command: &str,
    path_location: &str,
    power_shell_profile: Option<String>,
) -> (r: Result<(Config, Vec<String>), String>)
    ensures
        match loaded(config_file@, content.deep_view()) {
            Err(message) => r matches Err(e) && e@ == message,
            Ok(existing) => r matches Ok((config, lines)) && {
                &&& config@ == set_up(
                    existing,
                    command@,
                    path_location@,
                    power_shell_profile.deep_view(),
                )
                &&& lines.deep_view() == config@.serialize()
                &&& can_set_up(existing, power_shell_profile.deep_view()) ==> config.wf()
            },
        },
{
    proof {
        match loaded(config_file@, content.deep_view()) {
            Ok(existing) => {
                if can_set_up(existing, power_shell_profile.deep_view()) {
                    lemma_set_up_is_wf(
                        existing,
                        command@,
                        path_location@,
                        power_shell_profile.deep_view(),
                    );
                }
            },
            Err(_) => {},
        }
    }
    let existing = match read_config(config_file, content) {
        Ok(existing) => existing,
        Err(err) => {
            return Err(err);
        },
    };
    let config = match existing {
        Some(config) => {
            let mut config = config;
            config.command = command.to_owned();
            match power_shell_profile {
                Some(profile) => {
                    config.add_power_shell_profile(profile);
                },
                None => {},
            }
            config
        },
        None => {
            let mut power_shell_profiles: Vec<String> = Vec::new();
            match power_shell_profile {
                Some(profile) => {
                    power_shell_profiles.push(profile);
                    assert(power_shell_profiles.deep_view() =~= seq![profile@]);
                },
                None => {
                    assert(power_shell_profiles.deep_view() =~= Seq::<Seq<char>>::empty());
                },
            }
            let shortcuts: Vec<ShortcutKV> = Vec::new();
            assert(shortcuts.deep_view() =~= Seq::<ShortcutView>::empty());
            Config {
                version: Config::latest(),
                path_location: path_location.to_owned(),
                power_shell_profiles,
                command: command.to_owned(),
                shortcuts,
            }
        },
    };
    let serialized_config = config.serialize();
    Ok((config, serialized_config))
}

/// A set-up keeps a store well formed, and makes a well-formed new one, where
/// the profile location is one that can be written down.
pub proof fn lemma_set_up_is_wf(
    existing: Option<ConfigView>,
    command: Seq<char>,
    path_location: Seq<char>,
    power_shell_profile: Option<Seq<char>>,
)
    requires
        can_set_up(existing, power_shell_profile),
    ensures
        set_up(existing, command, path_location, power_shell_profile).wf(),
{
    match existing {
        Some(store) => {
            let renewed = ConfigView { command, ..store };
            match power_shell_profile {
                Some(profile) => lemma_add_profile_keeps_wf(renewed, profile),
                None => {},
            }
        },
        None => {},
    }
}

/// The line of the profile locations can stand on a line of its own, where
/// every location can.
pub proof fn lemma_profile_line_is_line(profiles: Seq<Seq<char>>)
    requires
        forall|i: int| 0 <= i < profiles.len() ==> is_line(#[trigger] profiles[i]),
    ensures
        is_line(profile_line(profiles)),
    decreases profiles.len(),
{
    reveal_strlit(";");
    let line = profile_line(profiles);
    if profiles.len() == 0 {
        assert(line =~= Seq::<char>::empty());
    } else if profiles.len() == 1 {
        assert(is_line(profiles[0]));
    } else {
        let front = profiles.drop_last();
        let last = profiles.last();
        assert forall|i: int| 0 <= i < front.len() implies is_line(#[trigger] front[i]) by {
            assert(front[i] == profiles[i]);
        }
        lemma_profile_line_is_line(front);
        assert(is_line(profiles[profiles.len() - 1]));
        let head = profile_line(front);
        assert(line == head + ";"@ + last);
        assert(!line.contains('\n')) by {
            if line.contains('\n') {
                let k = choose|k: int| 0 <= k < line.len() && line[k] == '\n';
                if k < head.len() {
                    assert(head[k] == '\n');
                } else if k > head.len() {
                    assert(last[k - head.len() - 1] == '\n');
                }
            }
        }
        if last.len() > 0 {
            assert(line.last() == last.last());
        }
    }
}

/// The lines of a store can be read back from a text, where each of its
/// fields can stand on a line of its own.
pub proof fn lemma_store_lines_can_be_read_back(store: ConfigView)
    requires
        store.fits_lines(),
    ensures
        can_be_read_back(store.serialize()),
{
    reveal_strlit("0.1.0");
    let lines = store.serialize();
    lemma_profile_line_is_line(store.power_shell_profiles);
    assert(is_line(store.version.token()));
    assert forall|i: int| 0 <= i < lines.len() implies is_line(#[trigger] lines[i]) by {
        if i >= 4 {
            let shortcut = store.shortcuts[(i - 4) / 2];
            assert(is_line(shortcut.key) && is_line(shortcut.value));
        }
    }
}

/// A store survives its file: what is written to the file and read from it
/// again is the store, where each of its fields can stand on a line of its
/// own. That holds of a store without shortcuts and without profile
/// locations too, whose last line is empty.
pub proof fn lemma_store_survives_its_file(config_file: Seq<char>, store: ConfigView)
    requires
        store.wf(),
        store.fits_lines(),
    ensures
        loaded_store(config_file, Some(text_lines(lines_text(store.serialize())))) == Ok::<
            ConfigView,
            Seq<char>,
        >(store),
{
    lemma_store_lines_can_be_read_back(store);
    lemma_read_written_lines(store.serialize());
    lemma_serialize_deserialize(store);
}

} // verus!
