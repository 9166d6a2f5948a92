//! The configuration file as the user reads and edits it.

use vstd::prelude::*;
use vstd::string::StringExecFns;
use crate::text::cat2;
use crate::text::cat3;
use crate::text::cat4;
use crate::text::decimal;
use crate::text::number;
use crate::text::opt_str;
use crate::text::texts;

verus! {

/// What a configuration that was never written holds.
pub fn fresh_content(version: u32) -> (text: String)
    ensures
        text@ == "version = "@ + decimal(version as int) + "\n"@,
{
    cat3("version = ", number(version as u64).as_str(), "\n")
}

/// The value of a key, or the words for one that is not set.
pub fn get_value(key: &str, value: Option<&str>) -> (result: Result<String, String>)
    ensures
        match result {
            Ok(text) => value is Some && text@ == value->Some_0@,
            Err(text) => value is None && text@ == key@ + " is not set"@,
        },
{
    match value {
        Some(found) => Ok(String::from_str(found)),
        None => Err(cat2(key, " is not set")),
    }
}

/// What is said once a key was set.
pub fn set_note(key: &str, value: &str) -> (text: String)
    ensures
        text@ == "set "@ + key@ + " = "@ + value@,
{
    cat4("set ", key, " = ", value)
}

/// The editor that is used: the one for the screen, or the other, or `vi`.
pub open spec fn editor_of(visual: Option<Seq<char>>, editor: Option<Seq<char>>) -> Seq<char> {
    match visual {
        Some(name) => name,
        None => match editor {
            Some(name) => name,
            None => "vi"@,
        },
    }
}

/// Picks the editor.
pub fn pick_editor(visual: Option<&str>, editor: Option<&str>) -> (name: String)
    ensures
        name@ == editor_of(opt_str(visual), opt_str(editor)),
{
    match visual {
        Some(found) => String::from_str(found),
        None => match editor {
            Some(found) => String::from_str(found),
            None => String::from_str("vi"),
        },
    }
}

/// A change of the configuration file.
#[derive(Debug)]
pub enum Edit {
    /// Sets a key.
    Assign(String, String),
    /// Sets a key to a list.
    AssignList(String, Vec<String>),
    /// Removes a key.
    Unset(String),
    /// Removes a key where it is set.
    Clear(String),
}

/// A change of the configuration file, in texts.
pub enum EditView {
    /// Sets a key.
    Assign(Seq<char>, Seq<char>),
    /// Sets a key to a list.
    AssignList(Seq<char>, Seq<Seq<char>>),
    /// Removes a key.
    Unset(Seq<char>),
    /// Removes a key where it is set.
    Clear(Seq<char>),
}

impl View for Edit {
    type V = EditView;

    open spec fn view(&self) -> EditView {
        match *self {
            Edit::Assign(key, value) => EditView::Assign(key@, value@),
            Edit::AssignList(key, values) => EditView::AssignList(key@, texts(values@)),
            Edit::Unset(key) => EditView::Unset(key@),
            Edit::Clear(key) => EditView::Clear(key@),
        }
    }
}

/// What the changes are, in texts.
pub open spec fn edit_views(edits: Seq<Edit>) -> Seq<EditView> {
    edits.map_values(|edit: Edit| edit@)
}

/// Adds a change.
pub fn push_edit(edits: &mut Vec<Edit>, edit: Edit)
    ensures
        edit_views(final(edits)@) == edit_views(old(edits)@).push(edit@),
{
    let ghost known = edit_views(edits@);
    edits.push(edit);
    assert(edit_views(edits@) =~= known.push(edit@));
}

/// The key of a member of an account.
pub open spec fn account_key(name: Seq<char>, member: Seq<char>) -> Seq<char> {
    "accounts."@ + name + "."@ + member
}

/// The key of a member of an account.
pub fn key_of_account(name: &str, member: &str) -> (key: String)
    ensures
        key@ == account_key(name@, member@),
{
    cat4("accounts.", name, ".", member)
}

/// The changes that take an account out of the file: where it is the default,
/// that goes first, so that no default ever names an account that is not there.
pub open spec fn removal_edits(name: Seq<char>, is_default: bool) -> Seq<EditView> {
    (if is_default {
        seq![EditView::Unset("default_account"@)]
    } else {
        Seq::empty()
    }).push(EditView::Unset("accounts."@ + name))
}

/// The changes that take an account out of the file.
pub fn remove_account(name: &str, is_default: bool) -> (edits: Vec<Edit>)
    ensures
        edit_views(edits@) == removal_edits(name@, is_default),
{
    let mut edits: Vec<Edit> = Vec::new();
    assert(edit_views(edits@) =~= Seq::<EditView>::empty());
    if is_default {
        push_edit(&mut edits, Edit::Unset(String::from_str("default_account")));
        assert(edit_views(edits@) =~= seq![EditView::Unset("default_account"@)]);
    }
    push_edit(&mut edits, Edit::Unset(cat2("accounts.", name)));
    edits
}

/// The members of an account lie under its own name: two keys are the same only
/// where they are of the same account and the same member, as long as a member has
/// no dot in it.
pub proof fn law_keys_tell_accounts_apart(
    name: Seq<char>,
    member: Seq<char>,
    other: Seq<char>,
    its: Seq<char>,
)
    requires
        !member.contains('.'),
        !its.contains('.'),
        account_key(name, member) == account_key(other, its),
    ensures
        name == other,
        member == its,
{
    reveal_strlit("accounts.");
    reveal_strlit(".");
    let key = account_key(name, member);
    let head = "accounts."@.len() as int;
    assert forall|m: Seq<char>, n: Seq<char>|
        !m.contains('.') && key == #[trigger] account_key(n, m) implies crate::text::last_at(
        key,
        '.',
    ) == head + n.len() by {
        assert(key[head + n.len()] == '.');
        assert forall|k: int| head + n.len() < k < key.len() implies key[k] != '.' by {
            assert(key[k] == m[k - head - n.len() - 1]);
            assert(m.contains(m[k - head - n.len() - 1]));
        }
        crate::text::lemma_last_at_is(key, '.', head + n.len());
    }
    assert(name.len() == other.len());
    assert(key.subrange(head, head + name.len()) =~= name);
    assert(key.subrange(head, head + other.len()) =~= other);
    assert(key.subrange(head + name.len() + 1, key.len() as int) =~= member);
    assert(key.subrange(head + other.len() + 1, key.len() as int) =~= its);
}

/// An account that is removed is gone, and is the default no longer, which it
/// ceases to be before it goes.
pub proof fn law_removed_accounts_are_no_default(name: Seq<char>, is_default: bool)
    ensures
        removal_edits(name, is_default).last() == EditView::Unset("accounts."@ + name),
        is_default ==> removal_edits(name, is_default).len() == 2 && removal_edits(
            name,
            is_default,
        )[0] == EditView::Unset("default_account"@),
        !is_default ==> removal_edits(name, is_default).len() == 1,
        account_key(name, "marketplaces"@) == "accounts."@ + name + "."@ + "marketplaces"@,
{
}

/// The editor for the screen is preferred to the other, and either to `vi`.
pub proof fn law_the_named_editor_is_used(visual: Seq<char>, editor: Seq<char>, any: Option<Seq<char>>)
    ensures
        editor_of(Some(visual), any) == visual,
        editor_of(None, Some(editor)) == editor,
        editor_of(None, None) == "vi"@,
{
}

} // verus!
