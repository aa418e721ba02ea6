//! The shortcut store: what it holds, how it changes, and how it is written
//! down as lines.

pub mod laws;
pub mod order;
pub mod persistence;

pub use persistence::{
    add_shortcut, create_config, get_config, get_config_from_file, read_config, remove_shortcut,
};

use crate::config::laws::{lemma_add_keeps_wf, lemma_add_profile_keeps_wf, lemma_remove_keeps_wf};
use crate::config::order::{insert_by_key, is_sorted, sort_by_key, sorted_by_key};
use crate::fs::is_line;
use crate::sequence::{first_index, lemma_first_index};
use crate::text::{join, joined, split, split_spec, str_eq, viewed};
use vstd::prelude::*;
use vstd::string::StringExecFns;

verus! {

/// The layout in which a store is written down.
#[derive(Clone, Copy, Debug, PartialEq, Eq, Structural)]
pub enum ConfigVersion {
    V0,
}

/// Running `$ {command} {key}` is the same as running `$ cd {value}`.
#[derive(Debug, PartialEq, Eq)]
pub struct ShortcutKV {
    /// Key of the shortcut.
    pub key: String,
    /// Absolute path of the target directory.
    pub value: String,
}

/// What is kept in the config file.
#[derive(Debug, PartialEq, Eq)]
pub struct Config {
    /// The layout that the store was read in. It is always written in the
    /// latest.
    pub version: ConfigVersion,
    /// Directory in PATH in which the command's executable is located.
    pub path_location: String,
    /// Name of the command that changes directory by shortcut.
    pub command: String,
    /// All shortcuts, sorted by key.
    pub shortcuts: Vec<ShortcutKV>,
    /// Locations of the PowerShell profiles.
    pub power_shell_profiles: Vec<String>,
}

/// What `Config::add` did.
#[derive(Debug, PartialEq, Eq)]
pub enum ConfigAddResult {
    /// There was no shortcut of that key: this one was added.
    Created(ShortcutKV),
    /// The key had another value: the shortcut as it was, and as it is now.
    Updated(ShortcutKV, ShortcutKV),
    /// The key had that value already.
    NoChange,
}

/// What `Config::remove` did.
#[derive(Debug, PartialEq, Eq)]
pub enum ConfigRemoveResult {
    /// The shortcut that was taken out.
    Removed(ShortcutKV),
    /// There was no shortcut of that key.
    NotFound,
}

/// A shortcut as plain text.
pub struct ShortcutView {
    pub key: Seq<char>,
    pub value: Seq<char>,
}

/// A store as plain text.
pub struct ConfigView {
    pub version: ConfigVersion,
    pub path_location: Seq<char>,
    pub command: Seq<char>,
    pub shortcuts: Seq<ShortcutView>,
    pub power_shell_profiles: Seq<Seq<char>>,
}

/// The result of an addition as plain text.
pub enum AddOutcome {
    Created(ShortcutView),
    Updated(ShortcutView, ShortcutView),
    NoChange,
}

/// The result of a removal as plain text.
pub enum RemoveOutcome {
    Removed(ShortcutView),
    NotFound,
}

impl Clone for ShortcutKV {
    fn clone(&self) -> (r: Self)
        ensures
            r == *self,
    {
        ShortcutKV { key: self.key.clone(), value: self.value.clone() }
    }
}

impl Clone for ConfigAddResult {
    fn clone(&self) -> (r: Self)
        ensures
            r == *self,
    {
        match self {
            ConfigAddResult::Created(added) => ConfigAddResult::Created(added.clone()),
            ConfigAddResult::Updated(existing, added) => ConfigAddResult::Updated(
                existing.clone(),
                added.clone(),
            ),
            ConfigAddResult::NoChange => ConfigAddResult::NoChange,
        }
    }
}

impl Clone for ConfigRemoveResult {
    fn clone(&self) -> (r: Self)
        ensures
            r == *self,
    {
        match self {
            ConfigRemoveResult::Removed(removed) => ConfigRemoveResult::Removed(removed.clone()),
            ConfigRemoveResult::NotFound => ConfigRemoveResult::NotFound,
        }
    }
}

impl View for ConfigAddResult {
    type V = AddOutcome;

    open spec fn view(&self) -> AddOutcome {
        match self {
            ConfigAddResult::Created(added) => AddOutcome::Created(added@),
            ConfigAddResult::Updated(existing, added) => AddOutcome::Updated(existing@, added@),
            ConfigAddResult::NoChange => AddOutcome::NoChange,
        }
    }
}

impl View for ConfigRemoveResult {
    type V = RemoveOutcome;

    open spec fn view(&self) -> RemoveOutcome {
        match self {
            ConfigRemoveResult::Removed(removed) => RemoveOutcome::Removed(removed@),
            ConfigRemoveResult::NotFound => RemoveOutcome::NotFound,
        }
    }
}

impl View for ShortcutKV {
    type V = ShortcutView;

    open spec fn view(&self) -> ShortcutView {
        ShortcutView { key: self.key@, value: self.value@ }
    }
}

impl DeepView for ShortcutKV {
    type V = ShortcutView;

    open spec fn deep_view(&self) -> ShortcutView {
        self@
    }
}

impl View for Config {
    type V = ConfigView;

    open spec fn view(&self) -> ConfigView {
        ConfigView {
            version: self.version,
            path_location: self.path_location@,
            command: self.command@,
            shortcuts: self.shortcuts.deep_view(),
            power_shell_profiles: self.power_shell_profiles.deep_view(),
        }
    }
}

/// The lines before the shortcuts: version, command, path location, profiles.
pub const HEADER_LINES: usize = 4;

/// What separates the profile locations on their line.
pub const PROFILE_SEPARATOR: char = ';';

/// The error for a store of fewer lines than the header has.
pub open spec fn too_few_lines() -> Seq<char> {
    "Config must contain at least 4 lines"@
}

/// The error for a store whose last key has no value.
pub open spec fn uneven_lines() -> Seq<char> {
    "Config file has an invalid number of lines"@
}

/// The error for a version token that no layout has.
pub open spec fn invalid_version(token: Seq<char>) -> Seq<char> {
    "Invalid config version \""@ + token + "\"."@
}

impl ConfigVersion {
    /// The token that stands for the layout on the first line of a store.
    pub open spec fn token(self) -> Seq<char> {
        match self {
            ConfigVersion::V0 => "0.1.0"@,
        }
    }

    /// The layout that `token` stands for.
    pub open spec fn parse(token: Seq<char>) -> Result<ConfigVersion, Seq<char>> {
        if token == "0.1.0"@ {
            Ok(ConfigVersion::V0)
        } else {
            Err(invalid_version(token))
        }
    }

    /// The layout's token.
    pub fn to_string(&self) -> (r: String)
        ensures
            r@ == self.token(),
    {
        match self {
            ConfigVersion::V0 => "0.1.0".to_owned(),
        }
    }

    /// Reads a version token. Only `0.1.0` is one.
    pub fn from_str(s: &str) -> (r: Result<ConfigVersion, String>)
        ensures
            match r {
                Ok(version) => ConfigVersion::parse(s@) == Ok::<ConfigVersion, Seq<char>>(version),
                Err(message) => ConfigVersion::parse(s@) == Err::<ConfigVersion, Seq<char>>(
                    message@,
                ),
            },
    {
        if str_eq(s, "0.1.0") {
            Ok(ConfigVersion::V0)
        } else {
            Err(String::from_str("Invalid config version \"").concat(s).concat("\"."))
        }
    }
}

/// The index of the first shortcut whose key is `key`, or the number of
/// shortcuts where none has it.
pub open spec fn index_of_key(shortcuts: Seq<ShortcutView>, key: Seq<char>) -> int {
    first_index(shortcuts, |shortcut: ShortcutView| shortcut.key == key, 0)
}

/// No two shortcuts have the same key.
pub open spec fn keys_differ(shortcuts: Seq<ShortcutView>) -> bool {
    forall|i: int, j: int|
        0 <= i < j < shortcuts.len() ==> (#[trigger] shortcuts[i]).key != (
        #[trigger] shortcuts[j]).key
}

/// The shortcuts as the store writes them down: each key on a line of its own
/// and its value on the next.
pub open spec fn shortcut_lines(shortcuts: Seq<ShortcutView>) -> Seq<Seq<char>> {
    Seq::new(
        2 * shortcuts.len(),
        |i: int|
            if i % 2 == 0 {
                shortcuts[i / 2].key
            } else {
                shortcuts[i / 2].value
            },
    )
}

/// The shortcuts that `lines` write down, two lines each.
pub open spec fn shortcuts_of(lines: Seq<Seq<char>>) -> Seq<ShortcutView> {
    Seq::new(
        (lines.len() / 2) as nat,
        |i: int| ShortcutView { key: lines[2 * i], value: lines[2 * i + 1] },
    )
}

/// A profile location that the store can write down: not empty, and free of
/// the separator.
pub open spec fn is_profile(location: Seq<char>) -> bool {
    location.len() > 0 && !location.contains(PROFILE_SEPARATOR)
}

/// The line that holds the profile locations.
pub open spec fn profile_line(profiles: Seq<Seq<char>>) -> Seq<char> {
    joined(profiles, ";"@)
}

/// The profile locations that `line` holds: none where it is empty.
pub open spec fn profiles_of(line: Seq<char>) -> Seq<Seq<char>> {
    if line.len() == 0 {
        Seq::empty()
    } else {
        split_spec(line, PROFILE_SEPARATOR)
    }
}

impl ConfigView {
    /// The store is as its operations keep it: shortcuts sorted by key, no key
    /// twice, no profile twice, and every profile one that can be written down.
    pub open spec fn wf(self) -> bool {
        &&& is_sorted(self.shortcuts)
        &&& keys_differ(self.shortcuts)
        &&& self.power_shell_profiles.no_duplicates()
        &&& forall|i: int|
            0 <= i < self.power_shell_profiles.len() ==> is_profile(
                #[trigger] self.power_shell_profiles[i],
            )
    }

    /// Every field of the store can stand on a line of its own: none holds a
    /// newline or ends in a carriage return.
    pub open spec fn fits_lines(self) -> bool {
        &&& is_line(self.command)
        &&& is_line(self.path_location)
        &&& forall|i: int|
            0 <= i < self.power_shell_profiles.len() ==> is_line(
                #[trigger] self.power_shell_profiles[i],
            )
        &&& forall|i: int|
            0 <= i < self.shortcuts.len() ==> is_line((#[trigger] self.shortcuts[i]).key)
                && is_line(self.shortcuts[i].value)
    }

    /// The store written down: version, command, path location, profiles, then
    /// the shortcuts.
    pub open spec fn serialize(self) -> Seq<Seq<char>> {
        seq![
            self.version.token(),
            self.command,
            self.path_location,
            profile_line(self.power_shell_profiles),
        ] + shortcut_lines(self.shortcuts)
    }

    /// The store with the shortcut `key` to `value` added, and what that did.
    pub open spec fn add(self, key: Seq<char>, value: Seq<char>) -> (ConfigView, AddOutcome) {
        let at = index_of_key(self.shortcuts, key);
        let entry = ShortcutView { key, value };
        if at >= self.shortcuts.len() {
            (
                ConfigView { shortcuts: sorted_by_key(self.shortcuts.push(entry)), ..self },
                AddOutcome::Created(entry),
            )
        } else if self.shortcuts[at].value == value {
            (self, AddOutcome::NoChange)
        } else {
            (
                ConfigView { shortcuts: self.shortcuts.update(at, entry), ..self },
                AddOutcome::Updated(self.shortcuts[at], entry),
            )
        }
    }

    /// The store without its first shortcut of the key `key`, and what that did.
    pub open spec fn remove(self, key: Seq<char>) -> (ConfigView, RemoveOutcome) {
        let at = index_of_key(self.shortcuts, key);
        if at >= self.shortcuts.len() {
            (self, RemoveOutcome::NotFound)
        } else {
            (
                ConfigView { shortcuts: self.shortcuts.remove(at), ..self },
                RemoveOutcome::Removed(self.shortcuts[at]),
            )
        }
    }

    /// The store with `profile` among its profile locations.
    pub open spec fn add_power_shell_profile(self, profile: Seq<char>) -> ConfigView {
        if self.power_shell_profiles.contains(profile) {
            self
        } else {
            ConfigView { power_shell_profiles: self.power_shell_profiles.push(profile), ..self }
        }
    }
}

/// The store that `lines` write down, or why they write none down.
pub open spec fn deserialized(lines: Seq<Seq<char>>) -> Result<ConfigView, Seq<char>> {
    if lines.len() < HEADER_LINES {
        Err(too_few_lines())
    } else if (lines.len() - HEADER_LINES) % 2 != 0 {
        Err(uneven_lines())
    } else {
        match ConfigVersion::parse(lines[0]) {
            Err(message) => Err(message),
            Ok(version) => Ok(
                ConfigView {
                    version,
                    command: lines[1],
                    path_location: lines[2],
                    power_shell_profiles: profiles_of(lines[3]),
                    shortcuts: shortcuts_of(lines.subrange(HEADER_LINES as int, lines.len() as int)),
                },
            ),
        }
    }
}

impl Config {
    /// The layout in which stores are written.
    pub fn latest() -> (r: ConfigVersion)
        ensures
            r == ConfigVersion::V0,
    {
        ConfigVersion::V0
    }

    /// See `ConfigView::wf`.
    pub open spec fn wf(&self) -> bool {
        self@.wf()
    }

    /// Writes the store down, one field per line.
    pub fn serialize(&self) -> (r: Vec<String>)
        ensures
            r.deep_view() == self@.serialize(),
    {
        let mut ans: Vec<String> = Vec::new();
        ans.push(self.version.to_string());
        ans.push(self.command.clone());
        ans.push(self.path_location.clone());
        ans.push(join(&self.power_shell_profiles, ";"));
        let ghost header = ans.deep_view();
        assert(header =~= seq![
            self.version.token(),
            self.command@,
            self.path_location@,
            profile_line(self.power_shell_profiles.deep_view()),
        ]);
        let ghost shortcuts = self.shortcuts.deep_view();
        let mut i: usize = 0;
        assert(ans.deep_view() =~= header + shortcut_lines(shortcuts).subrange(0, 0));
        while i < self.shortcuts.len()
            invariant
                i <= self.shortcuts.len(),
                shortcuts == self.shortcuts.deep_view(),
                ans.deep_view() == header + shortcut_lines(shortcuts).subrange(0, 2 * i),
            decreases self.shortcuts.len() - i,
        {
            let ghost before = ans.deep_view();
            ans.push(self.shortcuts[i].key.clone());
            ans.push(self.shortcuts[i].value.clone());
            assert(shortcuts[i as int] == self.shortcuts[i as int]@);
            assert(ans.deep_view() =~= before.push(shortcuts[i as int].key).push(
                shortcuts[i as int].value,
            ));
            assert(shortcut_lines(shortcuts).subrange(0, 2 * (i + 1)) =~= shortcut_lines(
                shortcuts,
            ).subrange(0, 2 * i).push(shortcuts[i as int].key).push(shortcuts[i as int].value));
            i += 1;
        }
        assert(shortcut_lines(shortcuts).subrange(0, 2 * (shortcuts.len() as int)) =~= shortcut_lines(
            shortcuts,
        ));
        ans
    }

    /// Reads a store from its lines.
    ///
    /// Fails where there are fewer lines than the header has, where a key is
    /// left without a value, and where the version token is not known. Nothing
    /// else is looked at: a path need not exist.
    pub fn deserialize(lines: Vec<String>) -> (r: Result<Config, String>)
        ensures
            viewed(r) == deserialized(lines.deep_view()),
    {
        let ghost text = lines.deep_view();
        if lines.len() < HEADER_LINES {
            return Err("Config must contain at least 4 lines".to_owned());
        }
        if (lines.len() - HEADER_LINES) % 2 != 0 {
            return Err("Config file has an invalid number of lines".to_owned());
        }
        assert(text[0] == lines[0]@ && text[1] == lines[1]@ && text[2] == lines[2]@ && text[3]
            == lines[3]@);
        let version = match ConfigVersion::from_str(lines[0].as_str()) {
            Ok(version) => version,
            Err(message) => {
                return Err(message);
            },
        };
        let command = lines[1].clone();
        let path_location = lines[2].clone();
        let power_shell_profiles: Vec<String> = if lines[3].as_str().is_empty() {
            Vec::new()
        } else {
            split(lines[3].as_str(), PROFILE_SEPARATOR)
        };
        assert(power_shell_profiles.deep_view() =~= profiles_of(text[3]));
        let ghost rest = text.subrange(HEADER_LINES as int, text.len() as int);
        let mut shortcuts: Vec<ShortcutKV> = Vec::new();
        let mut i: usize = HEADER_LINES;
        assert(shortcuts.deep_view() =~= shortcuts_of(rest).subrange(0, 0));
        while i < lines.len()
            invariant
                HEADER_LINES <= i <= lines.len(),
                (i - HEADER_LINES) % 2 == 0,
                (lines.len() - HEADER_LINES) % 2 == 0,
                text == lines.deep_view(),
                rest == text.subrange(HEADER_LINES as int, text.len() as int),
                shortcuts.deep_view() == shortcuts_of(rest).subrange(0, (i - HEADER_LINES) / 2),
            decreases lines.len() - i,
        {
            let ghost before = shortcuts.deep_view();
            let ghost at = (i - HEADER_LINES) / 2;
            shortcuts.push(ShortcutKV { key: lines[i].clone(), value: lines[i + 1].clone() });
            assert(rest[2 * at] == lines[i as int]@);
            assert(rest[2 * at + 1] == lines[i + 1]@);
            assert(shortcuts.deep_view() =~= before.push(shortcuts_of(rest)[at]));
            assert(shortcuts_of(rest).subrange(0, at + 1) =~= shortcuts_of(rest).subrange(
                0,
                at,
            ).push(shortcuts_of(rest)[at]));
            i += 2;
        }
        assert(shortcuts_of(rest).subrange(0, (lines.len() - HEADER_LINES) / 2) =~= shortcuts_of(
            rest,
        ));
        Ok(Config { version, path_location, command, shortcuts, power_shell_profiles })
    }

    /// Adds `profile` to the profile locations, unless it is among them.
    pub fn add_power_shell_profile(&mut self, profile: String)
        ensures
            final(self)@ == old(self)@.add_power_shell_profile(profile@),
            old(self).wf() && is_profile(profile@) ==> final(self).wf(),
    {
        proof {
            if self.wf() && is_profile(profile@) {
                lemma_add_profile_keeps_wf(self@, profile@);
            }
        }
        let ghost profiles = self.power_shell_profiles.deep_view();
        let mut i: usize = 0;
        while i < self.power_shell_profiles.len()
            invariant
                i <= self.power_shell_profiles.len(),
                *self == *old(self),
                profiles == self.power_shell_profiles.deep_view(),
                forall|k: int| 0 <= k < i ==> profiles[k] != profile@,
            decreases self.power_shell_profiles.len() - i,
        {
            assert(profiles[i as int] == self.power_shell_profiles[i as int]@);
            if self.power_shell_profiles[i] == profile {
                assert(profiles.contains(profile@));
                return ;
            }
            i += 1;
        }
        assert(!profiles.contains(profile@));
        self.power_shell_profiles.push(profile);
        assert(self.power_shell_profiles.deep_view() =~= profiles.push(profile@));
    }

    /// Adds the shortcut `key` to `value`.
    ///
    /// A key that the store does not hold yet gets a new shortcut, and the
    /// shortcuts are sorted by key again. A key that it holds with that very
    /// value changes nothing. A key that it holds with another value gets the
    /// new value, where it stands. It never fails.
    pub fn add(&mut self, key: String, value: String) -> (r: Result<ConfigAddResult, String>)
        ensures
            final(self)@ == old(self)@.add(key@, value@).0,
            viewed(r) == Ok::<AddOutcome, Seq<char>>(old(self)@.add(key@, value@).1),
            old(self).wf() ==> final(self).wf(),
    {
        proof {
            if self.wf() {
                lemma_add_keeps_wf(self@, key@, value@);
            }
        }
        let ghost shortcuts = self.shortcuts.deep_view();
        let position = find_key(&self.shortcuts, key.as_str());
        if position < self.shortcuts.len() {
            assert(shortcuts[position as int] == self.shortcuts[position as int]@);
            if value == self.shortcuts[position].value {
                return Ok(ConfigAddResult::NoChange);
            }
            let existing = self.shortcuts[position].clone();
            let updated = ShortcutKV { key: existing.key.clone(), value };
            self.shortcuts[position] = updated.clone();
            proof {
                lemma_first_index(
                    shortcuts,
                    |shortcut: ShortcutView| shortcut.key == key@,
                    0,
                );
                assert(self.shortcuts.deep_view() =~= shortcuts.update(position as int, updated@));
            }
            Ok(ConfigAddResult::Updated(existing, updated))
        } else {
            let new_shortcut = ShortcutKV { key, value };
            sort_by_key(&mut self.shortcuts);
            insert_by_key(&mut self.shortcuts, new_shortcut.clone());
            assert(shortcuts.push(new_shortcut@).drop_last() =~= shortcuts);
            Ok(ConfigAddResult::Created(new_shortcut))
        }
    }

    /// Removes the shortcut of the key `key`, if there is one. It never fails.
    pub fn remove(&mut self, key: String) -> (r: Result<ConfigRemoveResult, String>)
        ensures
            final(self)@ == old(self)@.remove(key@).0,
            viewed(r) == Ok::<RemoveOutcome, Seq<char>>(old(self)@.remove(key@).1),
            old(self).wf() ==> final(self).wf(),
    {
        proof {
            if self.wf() {
                lemma_remove_keeps_wf(self@, key@);
            }
        }
        let ghost shortcuts = self.shortcuts.deep_view();
        let position = find_key(&self.shortcuts, key.as_str());
        if position < self.shortcuts.len() {
            let removed_value = self.shortcuts.remove(position);
            assert(self.shortcuts.deep_view() =~= shortcuts.remove(position as int));
            Ok(ConfigRemoveResult::Removed(removed_value))
        } else {
            Ok(ConfigRemoveResult::NotFound)
        }
    }
}

/// The index of the first shortcut whose key is `key`, or the number of
/// shortcuts.
pub fn find_key(shortcuts: &Vec<ShortcutKV>, key: &str) -> (position: usize)
    ensures
        position == index_of_key(shortcuts.deep_view(), key@),
        position <= shortcuts.len(),
{
    let mut i: usize = 0;
    while i < shortcuts.len()
        invariant
            i <= shortcuts.len(),
            index_of_key(shortcuts.deep_view(), key@) == first_index(
                shortcuts.deep_view(),
                |shortcut: ShortcutView| shortcut.key == key@,
                i as int,
            ),
        decreases shortcuts.len() - i,
    {
        assert(shortcuts.deep_view()[i as int] == shortcuts[i as int]@);
        if str_eq(shortcuts[i].key.as_str(), key) {
            return i;
        }
        i += 1;
    }
    i
}

} // verus!
