//! PowerShell: a function in each of its profiles.

use crate::config::{find_key, index_of_key, keys_differ, Config, ConfigView, ShortcutView};
use crate::sequence::lemma_first_index_is;
use crate::shell::adapter::{
    detect, detection_error, Lookup, ProfileLocation, ProfileLocationView,
};
use crate::shell::common::{synchronize, synchronized, Shell};
use vstd::prelude::*;
use vstd::string::StringExecFns;

verus! {

/// The name of PowerShell's executable.
pub const EXECUTABLE: &'static str = "PowerShell";

/// PowerShell, once it was found.
pub struct PowerShell {}

/// The lines of the function up to the first shortcut: the opening marker,
/// the header, and what the command does with `+`, `-` and `*`.
pub open spec fn power_shell_head(command: Seq<char>) -> Seq<Seq<char>> {
    seq![
        "# ---------- shortcut start ----------"@,
        "# This block belongs to shortcut, which rewrites it at every setup."@,
        "# Keep your own lines outside of it."@,
        "function "@ + command + " {"@,
        "    param ("@,
        "        [Parameter(Position = 0, Mandatory = $true)] [string]$p1,"@,
        "        [Parameter(Position = 1)] [string]$p2,"@,
        "        [Parameter(Position = 2)] [string]$p3"@,
        "    )"@,
        "    if ($p1 -eq \"+\") {"@,
        "        shortcut list"@,
        "        shortcut add $key"@,
        "    } elseif ($p1 -eq \"-\") {"@,
        "        if ($p2) {"@,
        "            shortcut remove $key $Value"@,
        "        } else {"@,
        "            Pop-Location"@,
        "        }"@,
        "    } elseif ($p1 -eq \"*\") {"@,
        "        shortcut list"@,
    ]
}

/// The two lines that take the user to the target of one shortcut.
pub open spec fn power_shell_case(shortcut: ShortcutView) -> Seq<Seq<char>> {
    seq![
        "    } elseif ($p1 -eq \""@ + shortcut.key + "\") {"@,
        "        Push-Location \""@ + shortcut.value + "\""@,
    ]
}

/// The cases of the first `count` shortcuts, in their order. A shortcut whose
/// key an earlier one has gets no case: the first of a key wins.
pub open spec fn power_shell_cases(shortcuts: Seq<ShortcutView>, count: int) -> Seq<Seq<char>>
    decreases count,
{
    if count <= 0 {
        Seq::empty()
    } else if index_of_key(shortcuts, shortcuts[count - 1].key) == count - 1 {
        power_shell_cases(shortcuts, count - 1) + power_shell_case(shortcuts[count - 1])
    } else {
        power_shell_cases(shortcuts, count - 1)
    }
}

/// The lines of the function behind the last shortcut: a plain change of
/// directory for every other argument, and the closing marker.
pub open spec fn power_shell_tail() -> Seq<Seq<char>> {
    seq![
        "    } else {"@,
        "        Push-Location \"$p1\""@,
        "    }"@,
        "}"@,
        "# ---------- shortcut end ----------"@,
    ]
}

/// The function that PowerShell gets for `store`.
pub open spec fn power_shell_function(store: ConfigView) -> Seq<Seq<char>> {
    power_shell_head(store.command) + power_shell_cases(
        store.shortcuts,
        store.shortcuts.len() as int,
    ) + power_shell_tail()
}

/// Where no key occurs twice, every shortcut has its case: the function holds
/// the two lines of each, in the store's order.
pub proof fn lemma_every_shortcut_has_its_case(shortcuts: Seq<ShortcutView>, count: int)
    requires
        keys_differ(shortcuts),
        0 <= count <= shortcuts.len(),
    ensures
        power_shell_cases(shortcuts, count) == Seq::new(
            (2 * count) as nat,
            |line: int| power_shell_case(shortcuts[line / 2])[line % 2],
        ),
    decreases count,
{
    let lines = Seq::new(
        (2 * count) as nat,
        |line: int| power_shell_case(shortcuts[line / 2])[line % 2],
    );
    if count > 0 {
        lemma_every_shortcut_has_its_case(shortcuts, count - 1);
        lemma_first_index_is(
            shortcuts,
            |shortcut: ShortcutView| shortcut.key == shortcuts[count - 1].key,
            0,
            count - 1,
        );
        assert(power_shell_cases(shortcuts, count) == power_shell_cases(shortcuts, count - 1)
            + power_shell_case(shortcuts[count - 1]));
    }
    assert(power_shell_cases(shortcuts, count) =~= lines);
}

/// The function begins and ends with the same two lines for every store:
/// they are the markers by which it is found again.
pub proof fn lemma_power_shell_markers(store: ConfigView)
    ensures
        power_shell_function(store).len() >= 25,
        power_shell_function(store).first() == "# ---------- shortcut start ----------"@,
        power_shell_function(store).last() == "# ---------- shortcut end ----------"@,
{
    let head = power_shell_head(store.command);
    let cases = power_shell_cases(store.shortcuts, store.shortcuts.len() as int);
    let tail = power_shell_tail();
    let function = power_shell_function(store);
    assert(head.len() == 20);
    assert(tail.len() == 5);
    assert(function.len() == 25 + cases.len());
    assert(function[0] == head[0]);
    assert(function[function.len() - 1] == tail[4]);
}

/// Renders the function that makes the shortcuts of `config` usable in
/// PowerShell. Its first and its last line are its markers.
pub fn get_power_shell_function(config: &Config) -> (x: Vec<String>)
    ensures
        x.len() > 0,
        x.deep_view() == power_shell_function(config@),
{
    let mut x: Vec<String> = Vec::new();
    x.push("# ---------- shortcut start ----------".to_owned());
    x.push("# This block belongs to shortcut, which rewrites it at every setup.".to_owned());
    x.push("# Keep your own lines outside of it.".to_owned());
    x.push(String::from_str("function ").concat(config.command.as_str()).concat(" {"));
    x.push("    param (".to_owned());
    x.push("        [Parameter(Position = 0, Mandatory = $true)] [string]$p1,".to_owned());
    x.push("        [Parameter(Position = 1)] [string]$p2,".to_owned());
    x.push("        [Parameter(Position = 2)] [string]$p3".to_owned());
    x.push("    )".to_owned());
    // {command} + <KEY> <TARGET>
    x.push("    if ($p1 -eq \"+\") {".to_owned());
    x.push("        shortcut list".to_owned());
    x.push("        shortcut add $key".to_owned());
    // {command} - <KEY>
    x.push("    } elseif ($p1 -eq \"-\") {".to_owned());
    x.push("        if ($p2) {".to_owned());
    x.push("            shortcut remove $key $Value".to_owned());
    // {command} -
    x.push("        } else {".to_owned());
    x.push("            Pop-Location".to_owned());
    x.push("        }".to_owned());
    // {command} *
    x.push("    } elseif ($p1 -eq \"*\") {".to_owned());
    x.push("        shortcut list".to_owned());
    let ghost head = power_shell_head(config@.command);
    let ghost shortcuts = config.shortcuts.deep_view();
    assert(x.deep_view() =~= head);
    assert(x.deep_view() =~= head + power_shell_cases(shortcuts, 0));
    // {command} <KEY>
    let mut i: usize = 0;
    while i < config.shortcuts.len()
        invariant
            i <= config.shortcuts.len(),
            shortcuts == config.shortcuts.deep_view(),
            x.deep_view() == head + power_shell_cases(shortcuts, i as int),
        decreases config.shortcuts.len() - i,
    {
        let ghost before = x.deep_view();
        let shortcut = &config.shortcuts[i];
        assert(shortcuts[i as int] == shortcut@);
        if find_key(&config.shortcuts, shortcut.key.as_str()) == i {
            x.push(
                String::from_str("    } elseif ($p1 -eq \"").concat(shortcut.key.as_str()).concat(
                    "\") {",
                ),
            );
            x.push(
                String::from_str("        Push-Location \"").concat(
                    shortcut.value.as_str(),
                ).concat("\""),
            );
            assert(x.deep_view() =~= before + power_shell_case(shortcut@));
        }
        i += 1;
    }
    // Anything else is a directory: change to it.
    let ghost body = x.deep_view();
    x.push("    } else {".to_owned());
    x.push("        Push-Location \"$p1\"".to_owned());
    x.push("    }".to_owned());
    x.push("}".to_owned());
    x.push("# ---------- shortcut end ----------".to_owned());
    assert(x.deep_view() =~= body + power_shell_tail());
    x
}

/// The lines to write to one PowerShell profile, which holds the lines
/// `existing` or does not exist: the function alone, or the profile with the
/// function brought up to date.
pub fn setup_power_shell_profile(existing: Option<Vec<String>>, function: &Vec<String>) -> (r: Vec<
    String,
>)
    requires
        existing is Some ==> function.len() > 0,
    ensures
        r.deep_view() == synchronized(existing.deep_view(), function.deep_view()),
{
    synchronize(existing, function)
}

/// The warning for a store that names no profile.
pub open spec fn no_profile() -> Seq<char> {
    "No profile of PowerShell is known to put the function in"@
}

/// The profiles of `store` as locations.
pub open spec fn power_shell_profiles(store: ConfigView) -> Seq<ProfileLocationView> {
    Seq::new(
        store.power_shell_profiles.len(),
        |i: int| ProfileLocationView::Path(store.power_shell_profiles[i]),
    )
}

impl PowerShell {
    /// PowerShell, where the search for its executable found it. `None` where
    /// there is no executable; an error where the search failed.
    pub fn new(lookup: Lookup) -> (r: Result<Option<PowerShell>, String>)
        ensures
            match lookup {
                Lookup::Found(_) => r matches Ok(Some(_)),
                Lookup::Missing => r matches Ok(None),
                Lookup::Failed(reason) => r matches Err(message) && message@ == detection_error(
                    "PowerShell"@,
                    reason@,
                ),
            },
    {
        match detect("PowerShell", &lookup) {
            Ok(true) => Ok(Some(PowerShell {  })),
            Ok(false) => Ok(None),
            Err(msg) => Err(msg),
        }
    }
}

impl Shell for PowerShell {
    open spec fn title(&self) -> Seq<char> {
        "PowerShell"@
    }

    open spec fn block(&self, store: ConfigView) -> Seq<Seq<char>> {
        power_shell_function(store)
    }

    open spec fn profile_locations(&self, store: ConfigView) -> Result<
        Seq<ProfileLocationView>,
        Seq<char>,
    > {
        if store.power_shell_profiles.len() == 0 {
            Err(no_profile())
        } else {
            Ok(power_shell_profiles(store))
        }
    }

    fn name(&self) -> (r: &'static str) {
        "PowerShell"
    }

    fn render(&self, config: &Config) -> (r: Vec<String>) {
        get_power_shell_function(config)
    }

    fn locations(&self, config: &Config) -> (r: Result<Vec<ProfileLocation>, String>) {
        if config.power_shell_profiles.len() == 0 {
            return Err("No profile of PowerShell is known to put the function in".to_owned());
        }
        let mut locations: Vec<ProfileLocation> = Vec::new();
        let mut i: usize = 0;
        while i < config.power_shell_profiles.len()
            invariant
                i <= config.power_shell_profiles.len(),
                locations.deep_view() == power_shell_profiles(config@).subrange(0, i as int),
            decreases config.power_shell_profiles.len() - i,
        {
            let ghost before = locations.deep_view();
            locations.push(ProfileLocation::Path(config.power_shell_profiles[i].clone()));
            assert(locations.deep_view() =~= before.push(power_shell_profiles(config@)[i as int]));
            assert(power_shell_profiles(config@).subrange(0, i + 1) =~= power_shell_profiles(
                config@,
            ).subrange(0, i as int).push(power_shell_profiles(config@)[i as int]));
            i += 1;
        }
        assert(power_shell_profiles(config@).subrange(0, config.power_shell_profiles.len() as int)
            =~= power_shell_profiles(config@));
        Ok(locations)
    }
}

} // verus!
