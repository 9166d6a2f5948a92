//! The outside hosts that may be called on behalf of an account.

use vstd::prelude::*;
use vstd::string::StringExecFns;
use crate::lists::push_text;
use crate::tables::cells;
use crate::tables::push_row;
use crate::tables::row2;
use crate::text::cat2;
use crate::text::cat3;
use crate::text::cat5;
use crate::text::quoted;
use crate::text::quoted_form;
use crate::text::same;
use crate::text::texts;

verus! {

/// A host that may be called, and how calls to it are signed.
#[derive(Debug)]
pub struct AllowedHost {
    /// The host.
    pub host: String,
    /// `auto`, `signing` or `token`.
    pub auth: String,
}

/// What is said once a host was approved: a token that leaves the account calls
/// for a warning.
pub fn allow_notes(host: &str, auth: &str) -> (notes: Vec<String>)
    ensures
        texts(notes@) == seq![
            "approved external host "@ + quoted_form(host@) + " (auth: "@ + auth@ + ")"@,
        ] + (if auth@ == "token"@ {
            seq![
                "warning: `token` sends your account's x-amz-access-token to this host — prefer `signing` unless the host requires it"@,
            ]
        } else {
            Seq::empty()
        }),
{
    let mut notes: Vec<String> = Vec::new();
    push_text(
        &mut notes,
        cat5("approved external host ", quoted(host).as_str(), " (auth: ", auth, ")"),
    );
    if same(auth, "token") {
        push_text(
            &mut notes,
            String::from_str(
                "warning: `token` sends your account's x-amz-access-token to this host — prefer `signing` unless the host requires it",
            ),
        );
    }
    notes
}

/// The rows of the hosts that may be called.
pub fn host_rows(hosts: &Vec<AllowedHost>) -> (rows: Vec<Vec<String>>)
    ensures
        cells(rows@) == hosts@.map_values(|entry: AllowedHost| seq![entry.host@, entry.auth@]),
{
    let mut rows: Vec<Vec<String>> = Vec::new();
    let ghost want = hosts@.map_values(|entry: AllowedHost| seq![entry.host@, entry.auth@]);
    let mut i: usize = 0;
    assert(cells(rows@) =~= want.subrange(0, 0));
    while i < hosts.len()
        invariant
            i <= hosts@.len(),
            want == hosts@.map_values(|entry: AllowedHost| seq![entry.host@, entry.auth@]),
            cells(rows@) == want.subrange(0, i as int),
        decreases hosts.len() - i,
    {
        push_row(&mut rows, row2(hosts[i].host.clone(), hosts[i].auth.clone()));
        i = i + 1;
        assert(cells(rows@) =~= want.subrange(0, i as int));
    }
    assert(want.subrange(0, i as int) =~= want);
    rows
}

/// What is said where no host may be called; `noun` names the command.
pub fn no_hosts_note(noun: &str) -> (text: String)
    ensures
        text@ == "no approved external hosts (add one with `audible "@ + noun@
            + " allow-host <host>`)"@,
{
    cat3("no approved external hosts (add one with `audible ", noun, " allow-host <host>`)")
}

/// What is said once a host was removed.
pub fn removed_note(host: &str) -> (text: String)
    ensures
        text@ == "removed external host "@ + quoted_form(host@),
{
    cat2("removed external host ", quoted(host).as_str())
}

} // verus!
