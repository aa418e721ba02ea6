//! Command Prompt: a batch file of the command's name, in a directory of PATH.

use crate::config::{Config, ConfigView};
use crate::shell::adapter::{
    detect, detection_error, Lookup, ProfileLocation, ProfileLocationView,
};
use crate::shell::common::Shell;
use crate::text::{script_lines, template_lines};
use vstd::prelude::*;
use vstd::string::StringExecFns;

verus! {

/// The name of Command Prompt's executable.
pub const EXECUTABLE: &'static str = "cmd";

/// Command Prompt, once it was found.
pub struct CommandPrompt {
    script: Vec<String>,
}

/// The error for a script without a line.
pub open spec fn blank_script() -> Seq<char> {
    "The script for Command Prompt (CMD) is blank"@
}

/// The warning for a store that names no directory to put the batch file in.
pub open spec fn no_path_location() -> Seq<char> {
    "No directory in PATH is known to put the command in"@
}

/// The name of the batch file for the command `command`.
pub open spec fn batch_file(command: Seq<char>) -> Seq<char> {
    command + ".bat"@
}

impl CommandPrompt {
    #[verifier::type_invariant]
    spec fn has_lines(self) -> bool {
        self.script.len() > 0
    }

    /// The lines of the script that Command Prompt was made with.
    pub closed spec fn script(&self) -> Seq<Seq<char>> {
        self.script.deep_view()
    }

    /// Command Prompt, where the search for its executable found it; `script`
    /// is the text of the batch file that it is to get. `None` where there is
    /// no executable. An error where the search failed, and where Command
    /// Prompt is there but the script is blank.
    pub fn new(lookup: Lookup, script: &str) -> (r: Result<Option<CommandPrompt>, String>)
        ensures
            match lookup {
                Lookup::Found(_) => if script_lines(script@).len() > 0 {
                    r matches Ok(Some(shell)) && shell.script() == script_lines(script@)
                } else {
                    r matches Err(message) && message@ == blank_script()
                },
                Lookup::Missing => r matches Ok(None),
                Lookup::Failed(reason) => r matches Err(message) && message@ == detection_error(
                    "Command Prompt (CMD)"@,
                    reason@,
                ),
            },
    {
        match detect("Command Prompt (CMD)", &lookup) {
            Ok(true) => {
                let script = template_lines(script);
                if script.len() > 0 {
                    Ok(Some(CommandPrompt { script }))
                } else {
                    Err("The script for Command Prompt (CMD) is blank".to_owned())
                }
            },
            Ok(false) => Ok(None),
            Err(msg) => Err(msg),
        }
    }
}

impl Shell for CommandPrompt {
    open spec fn title(&self) -> Seq<char> {
        "Command Prompt (CMD)"@
    }

    open spec fn block(&self, store: ConfigView) -> Seq<Seq<char>> {
        self.script()
    }

    open spec fn profile_locations(&self, store: ConfigView) -> Result<
        Seq<ProfileLocationView>,
        Seq<char>,
    > {
        if store.path_location.len() == 0 {
            Err(no_path_location())
        } else {
            Ok(
                seq![
                    ProfileLocationView::InDirectory(
                        store.path_location,
                        batch_file(store.command),
                    ),
                ],
            )
        }
    }

    fn name(&self) -> (r: &'static str) {
        "Command Prompt (CMD)"
    }

    fn render(&self, config: &Config) -> (r: Vec<String>) {
        proof {
            use_type_invariant(self);
        }
        let mut lines: Vec<String> = Vec::new();
        let mut i: usize = 0;
        while i < self.script.len()
            invariant
                i <= self.script.len(),
                lines.deep_view() == self.script.deep_view().subrange(0, i as int),
            decreases self.script.len() - i,
        {
            let ghost before = lines.deep_view();
            lines.push(self.script[i].clone());
            assert(lines.deep_view() =~= before.push(self.script[i as int]@));
            assert(self.script.deep_view().subrange(0, i + 1) =~= self.script.deep_view().subrange(
                0,
                i as int,
            ).push(self.script[i as int]@));
            i += 1;
        }
        assert(self.script.deep_view().subrange(0, self.script.len() as int)
            =~= self.script.deep_view());
        lines
    }

    fn locations(&self, config: &Config) -> (r: Result<Vec<ProfileLocation>, String>) {
        if config.path_location.as_str().is_empty() {
            return Err("No directory in PATH is known to put the command in".to_owned());
        }
        let file_name = config.command.clone().concat(".bat");
        let mut locations: Vec<ProfileLocation> = Vec::new();
        locations.push(ProfileLocation::InDirectory(config.path_location.clone(), file_name));
        assert(locations.deep_view() =~= seq![
            ProfileLocationView::InDirectory(config@.path_location, batch_file(config@.command)),
        ]);
        Ok(locations)
    }
}

} // verus!
