//! Where completion scripts are put.

use vstd::prelude::*;
use vstd::string::StringExecFns;
use crate::paths::join_path;
use crate::paths::joined_path;
use crate::text::cat5;
use crate::text::opt_str;

verus! {

/// A shell.
#[derive(Clone, Copy, Debug, PartialEq, Eq, Structural)]
pub enum Shell {
    /// bash.
    Bash,
    /// zsh.
    Zsh,
    /// fish.
    Fish,
    /// PowerShell.
    PowerShell,
    /// elvish.
    Elvish,
}

/// The name of a shell.
pub open spec fn shell_name(shell: Shell) -> Seq<char> {
    match shell {
        Shell::Bash => "bash"@,
        Shell::Zsh => "zsh"@,
        Shell::Fish => "fish"@,
        Shell::PowerShell => "powershell"@,
        Shell::Elvish => "elvish"@,
    }
}

impl Shell {
    /// The name of the shell.
    pub fn name(self) -> (text: &'static str)
        ensures
            text@ == shell_name(self),
    {
        match self {
            Shell::Bash => "bash",
            Shell::Zsh => "zsh",
            Shell::Fish => "fish",
            Shell::PowerShell => "powershell",
            Shell::Elvish => "elvish",
        }
    }
}

/// A place for a script.
#[derive(Debug)]
pub struct Target {
    /// The file.
    pub path: String,
    /// What else has to be done.
    pub hint: Option<&'static str>,
}

/// The usual place for the script of a shell; there is none for a shell that
/// loads scripts from no fixed place.
pub open spec fn target_of(shell: Shell, data: Seq<char>, config: Seq<char>) -> Option<Seq<char>> {
    match shell {
        Shell::Bash => Some(
            joined_path(joined_path(data, "bash-completion/completions"@), "audible"@),
        ),
        Shell::Zsh => Some(joined_path(joined_path(data, "zsh/site-functions"@), "_audible"@)),
        Shell::Fish => Some(joined_path(joined_path(config, "fish/completions"@), "audible.fish"@)),
        _ => None,
    }
}

fn place(dir: &str, sub: &str, name: &str) -> (path: String)
    ensures
        path@ == joined_path(joined_path(dir@, sub@), name@),
{
    join_path(join_path(dir, sub).as_str(), name)
}

/// The usual place for the script of a shell, under the directories for data
/// and for settings; the words of the fault for a shell that has none.
pub fn completion_target(shell: Shell, data: &str, config: &str) -> (target: Result<
    Target,
    String,
>)
    ensures
        match target {
            Ok(t) => target_of(shell, data@, config@) == Some(t.path@) && opt_str(t.hint) == (
            if shell is Zsh {
                Some(
                    "its directory must be on your $fpath (e.g. add it in ~/.zshrc before compinit)"@,
                )
            } else {
                None
            }),
            Err(text) => target_of(shell, data@, config@) is None && text@
                == "--install supports bash, zsh and fish; for "@ + shell_name(shell)
                + " redirect the script yourself: audible completions "@ + shell_name(shell)
                + " > <file>"@,
        },
{
    match shell {
        Shell::Bash => Ok(
            Target { path: place(data, "bash-completion/completions", "audible"), hint: None },
        ),
        Shell::Zsh => Ok(
            Target {
                path: place(data, "zsh/site-functions", "_audible"),
                hint: Some(
                    "its directory must be on your $fpath (e.g. add it in ~/.zshrc before compinit)",
                ),
            },
        ),
        Shell::Fish => Ok(
            Target { path: place(config, "fish/completions", "audible.fish"), hint: None },
        ),
        other => Err(
            cat5(
                "--install supports bash, zsh and fish; for ",
                other.name(),
                " redirect the script yourself: audible completions ",
                other.name(),
                " > <file>",
            ),
        ),
    }
}

/// A base directory: what the environment says, where it says something, else a
/// place in the home directory.
pub open spec fn base_dir(value: Option<Seq<char>>, home: Option<Seq<char>>, suffix: Seq<char>) -> Option<
    Seq<char>,
> {
    match value {
        Some(dir) if dir.len() > 0 => Some(dir),
        _ => match home {
            Some(dir) => Some(joined_path(dir, suffix)),
            None => None,
        },
    }
}

/// A base directory; an error where there is no home directory to fall back to.
pub fn xdg_dir(value: Option<&str>, home: Option<&str>, default_suffix: &str) -> (dir: Result<
    String,
    &'static str,
>)
    ensures
        match dir {
            Ok(path) => base_dir(opt_str(value), opt_str(home), default_suffix@) == Some(path@),
            Err(text) => base_dir(opt_str(value), opt_str(home), default_suffix@) is None && text@
                == "HOME is not set"@,
        },
{
    if let Some(dir) = value {
        if !dir.is_empty() {
            return Ok(String::from_str(dir));
        }
    }
    match home {
        Some(dir) => Ok(join_path(dir, default_suffix)),
        None => Err("HOME is not set"),
    }
}

/// The script of a shell lies below the directory that this shell loads it from:
/// below the data of the user for bash and zsh, and below their settings for fish;
/// other shells have no such place.
pub proof fn law_scripts_lie_where_the_shell_looks(data: Seq<char>, config: Seq<char>)
    ensures
        target_of(Shell::Bash, data, config) == Some(
            joined_path(joined_path(data, "bash-completion/completions"@), "audible"@),
        ),
        target_of(Shell::Zsh, data, config) == Some(
            joined_path(joined_path(data, "zsh/site-functions"@), "_audible"@),
        ),
        target_of(Shell::Fish, data, config) == Some(
            joined_path(joined_path(config, "fish/completions"@), "audible.fish"@),
        ),
        target_of(Shell::PowerShell, data, config) is None,
        target_of(Shell::Elvish, data, config) is None,
        crate::paths::within(target_of(Shell::Bash, data, config)->Some_0, data),
        crate::paths::within(target_of(Shell::Zsh, data, config)->Some_0, data),
        crate::paths::within(target_of(Shell::Fish, data, config)->Some_0, config),
{
    reveal_strlit("bash-completion/completions");
    reveal_strlit("audible");
    reveal_strlit("zsh/site-functions");
    reveal_strlit("_audible");
    reveal_strlit("fish/completions");
    reveal_strlit("audible.fish");
    let bash = joined_path(data, "bash-completion/completions"@);
    let zsh = joined_path(data, "zsh/site-functions"@);
    let fish = joined_path(config, "fish/completions"@);
    crate::paths::law_joined_lies_within(data, "bash-completion/completions"@);
    crate::paths::law_joined_lies_within(bash, "audible"@);
    crate::paths::law_joined_lies_within(data, "zsh/site-functions"@);
    crate::paths::law_joined_lies_within(zsh, "_audible"@);
    crate::paths::law_joined_lies_within(config, "fish/completions"@);
    crate::paths::law_joined_lies_within(fish, "audible.fish"@);
    crate::paths::law_within_is_an_order(joined_path(bash, "audible"@), bash, data);
    crate::paths::law_within_is_an_order(joined_path(zsh, "_audible"@), zsh, data);
    crate::paths::law_within_is_an_order(joined_path(fish, "audible.fish"@), fish, config);
}

/// A base directory is the one that the environment names; an empty one counts as
/// none, and the place in the home directory stands in for it.
pub proof fn law_the_environment_names_the_base(
    dir: Seq<char>,
    home: Option<Seq<char>>,
    suffix: Seq<char>,
)
    ensures
        dir.len() > 0 ==> base_dir(Some(dir), home, suffix) == Some(dir),
        home matches Some(place) ==> base_dir(None, home, suffix) == Some(
            joined_path(place, suffix),
        ),
        base_dir(Some(Seq::empty()), home, suffix) == base_dir(None, home, suffix),
        base_dir(None, None, suffix) is None,
{
}

} // verus!
