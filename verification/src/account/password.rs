//! The password of an auth file: setting it, removing it, and where it comes
//! from.

use vstd::prelude::*;
use vstd::string::StringExecFns;
use super::error::AccountError;
use crate::config::Edit;
use crate::config::EditView;
use crate::config::account_key;
use crate::config::edit_views;
use crate::config::key_of_account;
use crate::config::push_edit;
use crate::paths::components;
use crate::paths::same_path;
use crate::text::cat3;
use crate::text::cat4;
use crate::text::opt_text;
use crate::text::quoted;
use crate::text::quoted_form;
use crate::text::same;

verus! {

/// Where the password of an auth file comes from.
#[derive(Clone, Copy, Debug, PartialEq, Eq, Structural)]
pub enum PasswordSource {
    /// The user is asked.
    Prompt,
    /// A variable of the environment.
    Env,
    /// The output of a command.
    Command,
    /// A file of passwords.
    File,
}

/// The word for a source.
pub open spec fn source_word(source: PasswordSource) -> Seq<char> {
    match source {
        PasswordSource::Prompt => "prompt"@,
        PasswordSource::Env => "env"@,
        PasswordSource::Command => "command"@,
        PasswordSource::File => "file"@,
    }
}

impl PasswordSource {
    /// The word for the source.
    pub fn word(self) -> (text: &'static str)
        ensures
            text@ == source_word(self),
    {
        match self {
            PasswordSource::Prompt => "prompt",
            PasswordSource::Env => "env",
            PasswordSource::Command => "command",
            PasswordSource::File => "file",
        }
    }

    /// Reads the word for a source.
    pub fn parse(word: &str) -> (source: Option<PasswordSource>)
        ensures
            match source {
                Some(s) => source_word(s) == word@,
                None => forall|s: PasswordSource| #[trigger] source_word(s) != word@,
            },
    {
        if same(word, "prompt") {
            Some(PasswordSource::Prompt)
        } else if same(word, "env") {
            Some(PasswordSource::Env)
        } else if same(word, "command") {
            Some(PasswordSource::Command)
        } else if same(word, "file") {
            Some(PasswordSource::File)
        } else {
            assert forall|s: PasswordSource| #[trigger] source_word(s) != word@ by {
                match s {
                    PasswordSource::Prompt => {},
                    PasswordSource::Env => {},
                    PasswordSource::Command => {},
                    PasswordSource::File => {},
                }
            }
            None
        }
    }
}

/// A change of where the password of an account comes from.
#[derive(Debug)]
pub struct SourceChange {
    /// The account.
    pub name: String,
    /// The new source.
    pub mode: PasswordSource,
    /// The command that prints the password.
    pub command: Option<String>,
    /// The file of passwords, as given.
    pub file: Option<String>,
    /// The file of passwords that is used: the given one or the usual one.
    pub target: String,
    /// Whether the password came from a file of passwords.
    pub was_file: bool,
    /// That file.
    pub old_file: String,
}

/// What has to be done for a change of the source.
#[derive(Debug)]
pub struct SourcePlan {
    /// The command whose output has to open the auth file first.
    pub verify: Option<String>,
    /// The file of passwords into which the password of now is put first.
    pub store: Option<String>,
    /// The changes of the configuration.
    pub edits: Vec<Edit>,
    /// Whether the entry in the old file of passwords goes.
    pub forget: bool,
    /// What is said once it is done.
    pub note: String,
}

/// The changes of the configuration for a change of the source: the source is
/// set, with what belongs to it, and what belongs to others is cleared.
pub open spec fn source_edits(change: SourceChange) -> Seq<EditView> {
    let source_key = account_key(change.name@, "password_source"@);
    let command_key = account_key(change.name@, "password_command"@);
    let file_key = account_key(change.name@, "password_file"@);
    match change.mode {
        PasswordSource::Command => seq![
            EditView::Assign(source_key, "command"@),
            EditView::Assign(command_key, opt_text(change.command)->Some_0),
            EditView::Clear(file_key),
        ],
        PasswordSource::File => seq![
            EditView::Assign(source_key, "file"@),
            match change.file {
                Some(path) => EditView::Assign(file_key, path@),
                None => EditView::Clear(file_key),
            },
            EditView::Clear(command_key),
        ],
        other => seq![
            EditView::Assign(source_key, source_word(other)),
            EditView::Clear(command_key),
            EditView::Clear(file_key),
        ],
    }
}

/// Whether the entry in the old file of passwords goes: where the password no
/// longer comes from that file.
pub open spec fn forgets(change: SourceChange) -> bool {
    change.was_file && !(change.mode is File && components(change.old_file@) == components(
        change.target@,
    ))
}

/// What is said once the source was changed.
pub open spec fn source_note(change: SourceChange) -> Seq<char> {
    "account "@ + quoted_form(change.name@) + ": password_source = "@ + match change.mode {
        PasswordSource::Command => "command (verified)"@,
        PasswordSource::File => "file ("@ + change.target@ + ")"@,
        other => source_word(other),
    }
}

fn edits_for(change: &SourceChange, command: &str) -> (edits: Vec<Edit>)
    requires
        change.mode is Command ==> opt_text(change.command) == Some(command@),
    ensures
        edit_views(edits@) == source_edits(*change),
{
    let name = change.name.as_str();
    let mut edits: Vec<Edit> = Vec::new();
    push_edit(
        &mut edits,
        Edit::Assign(
            key_of_account(name, "password_source"),
            String::from_str(change.mode.word()),
        ),
    );
    match change.mode {
        PasswordSource::Command => {
            push_edit(
                &mut edits,
                Edit::Assign(
                    key_of_account(name, "password_command"),
                    String::from_str(command),
                ),
            );
            push_edit(&mut edits, Edit::Clear(key_of_account(name, "password_file")));
        },
        PasswordSource::File => {
            match &change.file {
                Some(path) => push_edit(
                    &mut edits,
                    Edit::Assign(key_of_account(name, "password_file"), path.clone()),
                ),
                None => push_edit(
                    &mut edits,
                    Edit::Clear(key_of_account(name, "password_file")),
                ),
            }
            push_edit(&mut edits, Edit::Clear(key_of_account(name, "password_command")));
        },
        _ => {
            push_edit(&mut edits, Edit::Clear(key_of_account(name, "password_command")));
            push_edit(&mut edits, Edit::Clear(key_of_account(name, "password_file")));
        },
    }
    assert(edit_views(edits@) =~= source_edits(*change));
    edits
}

fn note_for(change: &SourceChange) -> (note: String)
    ensures
        note@ == source_note(*change),
{
    let value = match change.mode {
        PasswordSource::Command => String::from_str("command (verified)"),
        PasswordSource::File => cat3("file (", change.target.as_str(), ")"),
        other => String::from_str(other.word()),
    };
    cat4(
        "account ",
        quoted(change.name.as_str()).as_str(),
        ": password_source = ",
        value.as_str(),
    )
}

/// Plans a change of where the password of an account comes from. A command has
/// to be given, and to print a password that works, before it is set; a file of
/// passwords gets the password of now before it is used; the entry in a file
/// that is no longer used goes.
pub fn password_source(change: &SourceChange) -> (plan: Result<SourcePlan, AccountError<String>>)
    ensures
        match plan {
            Ok(p) => {
                &&& change.mode is Command ==> change.command is Some
                &&& opt_text(p.verify) == if change.mode is Command {
                    opt_text(change.command)
                } else {
                    None
                }
                &&& opt_text(p.store) == if change.mode is File {
                    Some(change.target@)
                } else {
                    None
                }
                &&& edit_views(p.edits@) == source_edits(*change)
                &&& p.forget == forgets(*change)
                &&& p.note@ == source_note(*change)
            },
            Err(e) => change.mode is Command && change.command is None && e@ == AccountError::<
                Seq<char>,
            >::NoCommand,
        },
{
    let note = note_for(change);
    match change.mode {
        PasswordSource::Command => {
            let command = match &change.command {
                Some(command) => command.clone(),
                None => {
                    return Err(AccountError::NoCommand);
                },
            };
            let edits = edits_for(change, command.as_str());
            Ok(
                SourcePlan {
                    verify: Some(command),
                    store: None,
                    edits,
                    forget: change.was_file,
                    note,
                },
            )
        },
        PasswordSource::File => {
            let moved = !same_path(change.old_file.as_str(), change.target.as_str());
            Ok(
                SourcePlan {
                    verify: None,
                    store: Some(change.target.clone()),
                    edits: edits_for(change, ""),
                    forget: change.was_file && moved,
                    note,
                },
            )
        },
        _ => Ok(
            SourcePlan {
                verify: None,
                store: None,
                edits: edits_for(change, ""),
                forget: change.was_file,
                note,
            },
        ),
    }
}

/// Whether a change sets a key of the configuration.
pub open spec fn sets_key(edit: EditView, key: Seq<char>) -> bool {
    match edit {
        EditView::Assign(k, _) => k == key,
        _ => false,
    }
}

/// Whether one of the changes sets a key of the configuration.
pub open spec fn assigns(edits: Seq<EditView>, key: Seq<char>) -> bool {
    exists|i: int| 0 <= i < edits.len() && sets_key(#[trigger] edits[i], key)
}

/// Whether one of the changes clears a key of the configuration.
pub open spec fn clears(edits: Seq<EditView>, key: Seq<char>) -> bool {
    exists|i: int| 0 <= i < edits.len() && #[trigger] edits[i] == EditView::Clear(key)
}

/// After a change of the source no setting of another source is left: the
/// command is set or cleared, and so is the file, each set only where its own
/// source is chosen.
pub proof fn law_sources_leave_nothing_behind(change: SourceChange)
    requires
        change.mode is Command ==> change.command is Some,
    ensures
        ({
            let edits = source_edits(change);
            let command_key = account_key(change.name@, "password_command"@);
            let file_key = account_key(change.name@, "password_file"@);
            &&& change.mode is Command ==> assigns(edits, command_key)
            &&& !(change.mode is Command) ==> clears(edits, command_key)
            &&& change.mode is File && change.file is Some ==> assigns(edits, file_key)
            &&& !(change.mode is File && change.file is Some) ==> clears(edits, file_key)
        }),
{
    let edits = source_edits(change);
    let command_key = account_key(change.name@, "password_command"@);
    let file_key = account_key(change.name@, "password_file"@);
    match change.mode {
        PasswordSource::Command => {
            assert(edits[1] == EditView::Assign(command_key, opt_text(change.command)->Some_0));
            assert(edits[2] == EditView::Clear(file_key));
        },
        PasswordSource::File => {
            assert(edits[2] == EditView::Clear(command_key));
            match change.file {
                Some(path) => {
                    assert(edits[1] == EditView::Assign(file_key, path@));
                },
                None => {
                    assert(edits[1] == EditView::Clear(file_key));
                },
            }
        },
        _ => {
            assert(edits[1] == EditView::Clear(command_key));
            assert(edits[2] == EditView::Clear(file_key));
        },
    }
}

/// What is done to get at the password of now.
#[derive(Clone, Copy, Debug, PartialEq, Eq, Structural)]
pub enum PasswordStep {
    /// The password that was found is tried.
    TryFound,
    /// The one in the environment is tried.
    TryEnv,
    /// The file is opened without one.
    TryPlain,
}

/// What is done first to get at the password of now.
pub open spec fn password_first(resolved: bool, env_allowed: bool, env: bool) -> PasswordStep {
    if resolved {
        PasswordStep::TryFound
    } else if env_allowed && env {
        PasswordStep::TryEnv
    } else {
        PasswordStep::TryPlain
    }
}

/// Where the password for opening an auth file is taken from: the source of the
/// account, or, where the environment may stand in, the environment.
pub fn first_password(resolved: bool, env_allowed: bool, env: bool) -> (step: PasswordStep)
    ensures
        step == password_first(resolved, env_allowed, env),
{
    if resolved {
        PasswordStep::TryFound
    } else if env_allowed && env {
        PasswordStep::TryEnv
    } else {
        PasswordStep::TryPlain
    }
}

/// What came of opening an auth file.
#[derive(Clone, Copy, Debug, PartialEq, Eq, Structural)]
pub enum OpenOutcome {
    /// It is open.
    Opened,
    /// It needs a password.
    NeedsPassword,
    /// It cannot be read.
    Broken,
}

/// What follows from opening an auth file.
#[derive(Clone, Copy, Debug, PartialEq, Eq, Structural)]
pub enum OpenStep {
    /// It is used.
    Use,
    /// The user is asked for the password.
    Ask,
    /// The error is passed on.
    Fail,
}

/// What follows from opening an auth file.
pub open spec fn open_next(outcome: OpenOutcome, prompt_allowed: bool) -> OpenStep {
    match outcome {
        OpenOutcome::Opened => OpenStep::Use,
        OpenOutcome::NeedsPassword => if prompt_allowed {
            OpenStep::Ask
        } else {
            OpenStep::Fail
        },
        OpenOutcome::Broken => OpenStep::Fail,
    }
}

/// Decides what follows from opening an auth file: the user is asked only where
/// the account's password is meant to be asked for.
pub fn after_open(outcome: OpenOutcome, prompt_allowed: bool) -> (step: OpenStep)
    ensures
        step == open_next(outcome, prompt_allowed),
{
    match outcome {
        OpenOutcome::Opened => OpenStep::Use,
        OpenOutcome::NeedsPassword => if prompt_allowed {
            OpenStep::Ask
        } else {
            OpenStep::Fail
        },
        OpenOutcome::Broken => OpenStep::Fail,
    }
}

/// Decides what follows from opening an auth file without a password, when its
/// password is to be put in a file: one that opens has none to put there.
pub fn after_plain_open(name: &str, outcome: OpenOutcome) -> (step: Result<
    OpenStep,
    AccountError<String>,
>)
    ensures
        match step {
            Ok(s) => match outcome {
                OpenOutcome::NeedsPassword => s == OpenStep::Ask,
                OpenOutcome::Broken => s == OpenStep::Fail,
                OpenOutcome::Opened => false,
            },
            Err(e) => outcome == OpenOutcome::Opened && e@ == AccountError::Unencrypted(name@),
        },
{
    match outcome {
        OpenOutcome::Opened => Err(AccountError::Unencrypted(String::from_str(name))),
        OpenOutcome::NeedsPassword => Ok(OpenStep::Ask),
        OpenOutcome::Broken => Ok(OpenStep::Fail),
    }
}

/// What is said once a password was set.
pub fn password_set_note(name: &str, was_plain: bool) -> (text: String)
    ensures
        text@ == (if was_plain {
            "auth file of "@ + quoted_form(name@) + " is now encrypted"@
        } else {
            "password of "@ + quoted_form(name@) + " changed"@
        }),
{
    if was_plain {
        cat3("auth file of ", quoted(name).as_str(), " is now encrypted")
    } else {
        cat3("password of ", quoted(name).as_str(), " changed")
    }
}

/// Checks that there is a password to remove.
pub fn check_password_remove(name: &str, state: &str) -> (warning: Result<
    String,
    AccountError<String>,
>)
    ensures
        match warning {
            Ok(text) => state@ != "plain"@ && text@ == "warning: this stores the auth file of "@
                + quoted_form(name@)
                + " UNENCRYPTED — anyone with file access can read your tokens"@,
            Err(e) => state@ == "plain"@ && e@ == AccountError::AlreadyPlain(name@),
        },
{
    if same(state, "plain") {
        return Err(AccountError::AlreadyPlain(String::from_str(name)));
    }
    Ok(
        cat3(
            "warning: this stores the auth file of ",
            quoted(name).as_str(),
            " UNENCRYPTED — anyone with file access can read your tokens",
        ),
    )
}

/// The change of the configuration once an auth file has no password: where it
/// came from a file of passwords, its entry goes and the user is asked again.
pub fn after_password_remove(name: &str, source: PasswordSource) -> (edit: Option<Edit>)
    ensures
        match edit {
            Some(e) => source is File && e@ == EditView::Assign(
                account_key(name@, "password_source"@),
                "prompt"@,
            ),
            None => !(source is File),
        },
{
    match source {
        PasswordSource::File => Some(
            Edit::Assign(key_of_account(name, "password_source"), String::from_str("prompt")),
        ),
        _ => None,
    }
}

/// The source that is asked for is the one that is stored, by its word, with the
/// command or the file that was given for it.
pub proof fn law_sources_are_stored_as_given(change: SourceChange)
    requires
        change.mode is Command ==> change.command is Some,
    ensures
        ({
            let edits = source_edits(change);
            &&& edits.len() == 3
            &&& edits[0] == EditView::Assign(
                account_key(change.name@, "password_source"@),
                source_word(change.mode),
            )
            &&& change.mode is Command ==> edits.contains(
                EditView::Assign(
                    account_key(change.name@, "password_command"@),
                    change.command->Some_0@,
                ),
            )
            &&& change.mode is File && change.file is Some ==> edits.contains(
                EditView::Assign(account_key(change.name@, "password_file"@), change.file->Some_0@),
            )
        }),
        source_word(PasswordSource::Prompt) == "prompt"@,
        source_word(PasswordSource::Env) == "env"@,
        source_word(PasswordSource::Command) == "command"@,
        source_word(PasswordSource::File) == "file"@,
{
    let edits = source_edits(change);
    assert(edits.contains(edits[1]));
}

/// The entry in the old file of passwords goes exactly where the password came from
/// a file and no longer comes from that one.
pub proof fn law_old_entries_are_forgotten(change: SourceChange)
    ensures
        !change.was_file ==> !forgets(change),
        change.was_file && !(change.mode is File) ==> forgets(change),
        change.was_file && change.mode is File ==> (forgets(change) <==> components(
            change.old_file@,
        ) != components(change.target@)),
{
}

/// A password that is configured is tried before one of the environment, which is tried
/// only where it may be; the user is asked only for a password that is needed, and
/// only where they may be asked.
pub proof fn law_passwords_are_tried_in_order(env_allowed: bool, env: bool, prompt_allowed: bool)
    ensures
        password_first(true, env_allowed, env) is TryFound,
        password_first(false, env_allowed, env) is TryEnv <==> env_allowed && env,
        password_first(false, env_allowed, env) is TryPlain <==> !(env_allowed && env),
        open_next(OpenOutcome::Opened, prompt_allowed) is Use,
        open_next(OpenOutcome::NeedsPassword, prompt_allowed) is Ask <==> prompt_allowed,
        !prompt_allowed ==> open_next(OpenOutcome::NeedsPassword, prompt_allowed) is Fail,
        open_next(OpenOutcome::Broken, prompt_allowed) is Fail,
{
}

} // verus!
