//! Bash: a function in `~/.bashrc`, made from a script that the caller
//! supplies.

use crate::config::{Config, ConfigView};
use crate::shell::adapter::{
    detect, detection_error, Lookup, ProfileLocation, ProfileLocationView,
};
use crate::shell::common::{synchronize, synchronized, Shell};
use crate::text::{script_lines, template_lines};
use vstd::prelude::*;
use vstd::string::StringExecFns;

verus! {

/// The name of Bash's executable.
pub const EXECUTABLE: &'static str = "bash";

/// The index, among the lines of the script that are not blank, of the line
/// that opens the function and names the command.
pub const FUNCTION_LINE: usize = 3;

/// Bash, once it was found.
pub struct Bash {
    function_file: Vec<String>,
}

/// The error for a script that has no line to name the command on, or no line
/// behind it to close the function with.
pub open spec fn short_script() -> Seq<char> {
    "The script for Bash needs a line for the function's name and lines behind it"@
}

/// The line that opens the function of the command `command`.
pub open spec fn function_line(command: Seq<char>) -> Seq<char> {
    "function "@ + command + " {"@
}

/// The script's lines with the command's name put in.
pub open spec fn bash_function(command: Seq<char>, function_file: Seq<Seq<char>>) -> Seq<
    Seq<char>,
>
    recommends
        function_file.len() > FUNCTION_LINE,
{
    function_file.update(FUNCTION_LINE as int, function_line(command))
}

/// The function begins with the same line for every command, and ends with
/// the same line where the script goes on behind the line that names the
/// command: they are the markers by which the function is found again.
pub proof fn lemma_bash_markers(function_file: Seq<Seq<char>>, one: Seq<char>, other: Seq<char>)
    requires
        function_file.len() > FUNCTION_LINE,
    ensures
        bash_function(one, function_file).first() == bash_function(other, function_file).first(),
        function_file.len() > FUNCTION_LINE + 1 ==> bash_function(one, function_file).last()
            == bash_function(other, function_file).last(),
{
}

/// Renders the function that makes the shortcuts of `config` usable in Bash:
/// the lines `function_file` of the script, of which the one at
/// `FUNCTION_LINE` is replaced by one that names the command.
pub fn get_bash_function(config: &Config, function_file: &Vec<String>) -> (new_content: Vec<String>)
    requires
        function_file.len() > FUNCTION_LINE,
    ensures
        new_content.len() > 0,
        new_content.deep_view() == bash_function(config@.command, function_file.deep_view()),
{
    let mut new_content: Vec<String> = Vec::new();
    let mut i: usize = 0;
    while i < function_file.len()
        invariant
            i <= function_file.len(),
            function_file.len() > FUNCTION_LINE,
            new_content.deep_view() == bash_function(
                config@.command,
                function_file.deep_view(),
            ).subrange(0, i as int),
        decreases function_file.len() - i,
    {
        let ghost before = new_content.deep_view();
        let ghost wanted = bash_function(config@.command, function_file.deep_view());
        if i == FUNCTION_LINE {
            new_content.push(
                String::from_str("function ").concat(config.command.as_str()).concat(" {"),
            );
        } else {
            new_content.push(function_file[i].clone());
            assert(wanted[i as int] == function_file[i as int]@);
        }
        assert(new_content.deep_view() =~= before.push(wanted[i as int]));
        assert(wanted.subrange(0, i + 1) =~= wanted.subrange(0, i as int).push(wanted[i as int]));
        i += 1;
    }
    assert(bash_function(config@.command, function_file.deep_view()).subrange(
        0,
        function_file.len() as int,
    ) =~= bash_function(config@.command, function_file.deep_view()));
    new_content
}

/// The lines to write to the Bash profile, which holds the lines `existing`
/// or does not exist: the function alone, or the profile with the function
/// brought up to date.
pub fn setup_bash(existing: Option<Vec<String>>, function: &Vec<String>) -> (r: Vec<String>)
    requires
        existing is Some ==> function.len() > 0,
    ensures
        r.deep_view() == synchronized(existing.deep_view(), function.deep_view()),
{
    synchronize(existing, function)
}

impl Bash {
    #[verifier::type_invariant]
    spec fn has_function_line(self) -> bool {
        self.function_file.len() > FUNCTION_LINE + 1
    }

    /// The lines of the script that Bash was made with.
    pub closed spec fn function_file(&self) -> Seq<Seq<char>> {
        self.function_file.deep_view()
    }

    /// Bash, where the search for its executable found it; `script` is the
    /// text of the function that it is to get. `None` where there is no
    /// executable. An error where the search failed, and where Bash is there
    /// but the script has too few lines: it needs the line that names the
    /// command and at least one behind it, so that its last line, the closing
    /// marker, is the same for every command.
    pub fn new(lookup: Lookup, script: &str) -> (r: Result<Option<Bash>, String>)
        ensures
            match lookup {
                Lookup::Found(_) => if script_lines(script@).len() > FUNCTION_LINE + 1 {
                    r matches Ok(Some(bash)) && bash.function_file() == script_lines(script@)
                } else {
                    r matches Err(message) && message@ == short_script()
                },
                Lookup::Missing => r matches Ok(None),
                Lookup::Failed(reason) => r matches Err(message) && message@ == detection_error(
                    "Bash"@,
                    reason@,
                ),
            },
    {
        match detect("Bash", &lookup) {
            Ok(true) => {
                let function_file = template_lines(script);
                if function_file.len() > FUNCTION_LINE + 1 {
                    Ok(Some(Bash { function_file }))
                } else {
                    Err(
                        "The script for Bash needs a line for the function's name and lines behind it".to_owned(),
                    )
                }
            },
            Ok(false) => Ok(None),
            Err(msg) => Err(msg),
        }
    }
}

impl Shell for Bash {
    open spec fn title(&self) -> Seq<char> {
        "Bash"@
    }

    open spec fn block(&self, store: ConfigView) -> Seq<Seq<char>> {
        bash_function(store.command, self.function_file())
    }

    open spec fn profile_locations(&self, store: ConfigView) -> Result<
        Seq<ProfileLocationView>,
        Seq<char>,
    > {
        Ok(seq![ProfileLocationView::Path("~/.bashrc"@)])
    }

    fn name(&self) -> (r: &'static str) {
        "Bash"
    }

    /// The function's first and last line are those of the script, whatever
    /// the command is.
    fn render(&self, config: &Config) -> (r: Vec<String>)
        ensures
            r.deep_view().first() == self.function_file().first(),
            r.deep_view().last() == self.function_file().last(),
    {
        proof {
            use_type_invariant(self);
        }
        get_bash_function(config, &self.function_file)
    }

    fn locations(&self, config: &Config) -> (r: Result<Vec<ProfileLocation>, String>) {
        let mut locations: Vec<ProfileLocation> = Vec::new();
        locations.push(ProfileLocation::Path("~/.bashrc".to_owned()));
        assert(locations.deep_view() =~= seq![ProfileLocationView::Path("~/.bashrc"@)]);
        Ok(locations)
    }
}

} // verus!
