//! Keeping accounts: listing and renaming them, their marketplaces, taking them
//! out, and writing their material elsewhere.

use vstd::prelude::*;
use vstd::string::StringExecFns;
use super::error::AccountError;
use super::register::marketplaces_of;
use super::register::parse_marketplaces;
use crate::config::Edit;
use crate::config::EditView;
use crate::config::account_key;
use crate::config::edit_views;
use crate::config::key_of_account;
use crate::config::push_edit;
use crate::json::Json;
use crate::json::JsonView;
use crate::json::text_field;
use crate::json::whole_field;
use crate::lists::copy_texts;
use crate::lists::holds_text;
use crate::lists::lemma_filtered;
use crate::lists::push_text;
use crate::tables::cells;
use crate::tables::push_row;
use crate::tables::row5;
use crate::text::cat2;
use crate::text::cat3;
use crate::text::cat4;
use crate::text::cat5;
use crate::text::decimal;
use crate::text::join;
use crate::text::joined;
use crate::text::lowered;
use crate::text::number;
use crate::text::opt_str;
use crate::text::quoted;
use crate::text::quoted_form;
use crate::text::same;
use crate::text::texts;
use crate::text::to_ascii_lower;

verus! {

/// An account as it is listed.
#[derive(Debug)]
pub struct AccountRow {
    /// Its name.
    pub name: String,
    /// The state of its auth file.
    pub state: String,
    /// Where its password comes from.
    pub password_source: String,
    /// Its marketplaces.
    pub marketplaces: Vec<String>,
    /// Those that it uses by default.
    pub default_marketplaces: Vec<String>,
}

/// The row of an account; a star marks the default one.
pub open spec fn account_cells(row: AccountRow, default_account: Option<Seq<char>>) -> Seq<Seq<char>> {
    seq![
        row.name@,
        row.state@,
        row.password_source@,
        joined(texts(row.marketplaces@), ","@),
        joined(texts(row.default_marketplaces@), ","@),
        if default_account == Some(row.name@) {
            "*"@
        } else {
            ""@
        },
    ]
}

fn is_default_account(default_account: Option<&str>, name: &str) -> (yes: bool)
    ensures
        yes == (opt_str(default_account) == Some(name@)),
{
    match default_account {
        Some(found) => same(found, name),
        None => false,
    }
}

/// The rows of accounts.
pub fn account_rows(accounts: &Vec<AccountRow>, default_account: Option<&str>) -> (rows: Vec<
    Vec<String>,
>)
    ensures
        cells(rows@) == accounts@.map_values(
            |row: AccountRow| account_cells(row, opt_str(default_account)),
        ),
{
    let mut rows: Vec<Vec<String>> = Vec::new();
    let ghost want = accounts@.map_values(
        |row: AccountRow| account_cells(row, opt_str(default_account)),
    );
    let mut i: usize = 0;
    assert(cells(rows@) =~= want.subrange(0, 0));
    while i < accounts.len()
        invariant
            i <= accounts@.len(),
            want == accounts@.map_values(
                |row: AccountRow| account_cells(row, opt_str(default_account)),
            ),
            cells(rows@) == want.subrange(0, i as int),
        decreases accounts.len() - i,
    {
        let account = &accounts[i];
        let mut row = row5(
            account.name.clone(),
            account.state.clone(),
            account.password_source.clone(),
            join(&account.marketplaces, ","),
            join(&account.default_marketplaces, ","),
        );
        let mark = if is_default_account(default_account, account.name.as_str()) {
            "*"
        } else {
            ""
        };
        push_text(&mut row, String::from_str(mark));
        assert(texts(row@) =~= account_cells(*account, opt_str(default_account)));
        push_row(&mut rows, row);
        i = i + 1;
        assert(cells(rows@) =~= want.subrange(0, i as int));
    }
    assert(want.subrange(0, i as int) =~= want);
    rows
}

/// The change that makes an account the default one; none where it is not there.
pub open spec fn default_edit(accounts: Seq<Seq<char>>, name: Seq<char>) -> Option<EditView> {
    if accounts.contains(name) {
        Some(EditView::Assign("default_account"@, name))
    } else {
        None
    }
}

/// Makes an account the default one.
pub fn set_default(accounts: &Vec<String>, name: &str) -> (edit: Result<Edit, AccountError<String>>)
    ensures
        match edit {
            Ok(e) => default_edit(texts(accounts@), name@) == Some(e@),
            Err(e) => default_edit(texts(accounts@), name@) is None && e@ == AccountError::Unknown(
                name@,
            ),
        },
{
    if !holds_text(accounts, name) {
        return Err(AccountError::Unknown(String::from_str(name)));
    }
    Ok(Edit::Assign(String::from_str("default_account"), String::from_str(name)))
}

/// What comes of renaming an account: it has to be there, the new name has to
/// be usable, another one, and free.
pub open spec fn rename_fault(
    accounts: Seq<Seq<char>>,
    old_name: Seq<char>,
    new_name: Seq<char>,
    invalid: Option<Seq<char>>,
) -> Option<AccountError<Seq<char>>> {
    if !accounts.contains(old_name) {
        Some(AccountError::Unknown(old_name))
    } else if invalid is Some {
        Some(AccountError::InvalidName(invalid->Some_0))
    } else if old_name == new_name {
        Some(AccountError::SameName(new_name))
    } else if accounts.contains(new_name) {
        Some(AccountError::Taken(new_name))
    } else {
        None
    }
}

/// Checks that an account can be renamed; `invalid` says what is wrong with the
/// new name as such.
pub fn check_rename(
    accounts: &Vec<String>,
    old_name: &str,
    new_name: &str,
    invalid: Option<&str>,
) -> (result: Result<(), AccountError<String>>)
    ensures
        match result {
            Ok(_) => rename_fault(texts(accounts@), old_name@, new_name@, opt_str(invalid)) is None,
            Err(e) => rename_fault(texts(accounts@), old_name@, new_name@, opt_str(invalid))
                == Some(e@),
        },
{
    if !holds_text(accounts, old_name) {
        return Err(AccountError::Unknown(String::from_str(old_name)));
    }
    if let Some(reason) = invalid {
        return Err(AccountError::InvalidName(String::from_str(reason)));
    }
    if same(old_name, new_name) {
        return Err(AccountError::SameName(String::from_str(new_name)));
    }
    if holds_text(accounts, new_name) {
        return Err(AccountError::Taken(String::from_str(new_name)));
    }
    Ok(())
}

/// What is said once an account was renamed.
pub fn rename_notes(old_name: &str, new_name: &str, default_account: Option<&str>) -> (notes: Vec<
    String,
>)
    ensures
        texts(notes@) == seq![
            "renamed account "@ + quoted_form(old_name@) + " to "@ + quoted_form(new_name@),
        ] + (if opt_str(default_account) == Some(old_name@) {
            seq!["default_account now points to "@ + quoted_form(new_name@)]
        } else {
            Seq::empty()
        }),
{
    let mut notes: Vec<String> = Vec::new();
    push_text(
        &mut notes,
        cat4(
            "renamed account ",
            quoted(old_name).as_str(),
            " to ",
            quoted(new_name).as_str(),
        ),
    );
    if is_default_account(default_account, old_name) {
        push_text(
            &mut notes,
            cat2("default_account now points to ", quoted(new_name).as_str()),
        );
    }
    notes
}

/// The marketplaces of an account.
#[derive(Debug)]
pub struct Axis {
    /// Those that it may use.
    pub marketplaces: Vec<String>,
    /// Those that it uses by default.
    pub defaults: Vec<String>,
}

/// A change of the marketplaces of an account.
#[derive(Debug)]
pub struct AxisPlan {
    /// The changes of the configuration, in this order.
    pub edits: Vec<Edit>,
    /// What is said once they are made.
    pub notes: Vec<String>,
}

/// The marketplaces of an account once one was added.
pub open spec fn added_marketplaces(marketplaces: Seq<Seq<char>>, cc: Seq<char>) -> Seq<Seq<char>> {
    if marketplaces.contains(cc) {
        marketplaces
    } else {
        marketplaces.push(cc)
    }
}

/// The default marketplaces of an account once one was added. One that the
/// account had before is not made a default twice.
pub open spec fn added_defaults(
    marketplaces: Seq<Seq<char>>,
    defaults: Seq<Seq<char>>,
    cc: Seq<char>,
    as_default: bool,
) -> Seq<Seq<char>> {
    if as_default && !(marketplaces.contains(cc) && defaults.contains(cc)) {
        defaults.push(cc)
    } else {
        defaults
    }
}

/// What is said of a marketplace that is not used by default.
pub open spec fn default_hint(cc: Seq<char>) -> Seq<char> {
    "note: "@ + quoted_form(cc)
        + " is not in the account's default marketplaces — commands without -m/--marketplace will not include it. Add it with `audible account marketplaces add "@
        + cc + " --default` or `audible account marketplaces set-default <csv>`."@
}

fn hint(cc: &str) -> (text: String)
    ensures
        text@ == default_hint(cc@),
{
    cat5(
        "note: ",
        quoted(cc).as_str(),
        " is not in the account's default marketplaces — commands without -m/--marketplace will not include it. Add it with `audible account marketplaces add ",
        cc,
        " --default` or `audible account marketplaces set-default <csv>`.",
    )
}

/// The changes that adding a marketplace makes: first what the account may use,
/// then what it uses by default, so that the second stays a part of the first.
pub open spec fn addition_edits(
    name: Seq<char>,
    marketplaces: Seq<Seq<char>>,
    defaults: Seq<Seq<char>>,
    cc: Seq<char>,
    as_default: bool,
) -> Seq<EditView> {
    let all = added_marketplaces(marketplaces, cc);
    let used = added_defaults(marketplaces, defaults, cc, as_default);
    (if all == marketplaces {
        Seq::empty()
    } else {
        seq![EditView::AssignList(account_key(name, "marketplaces"@), all)]
    }) + (if used == defaults {
        Seq::empty()
    } else {
        seq![EditView::AssignList(account_key(name, "default_marketplaces"@), used)]
    })
}

/// What is said once a marketplace was added.
pub open spec fn addition_notes(
    name: Seq<char>,
    marketplaces: Seq<Seq<char>>,
    defaults: Seq<Seq<char>>,
    cc: Seq<char>,
    as_default: bool,
) -> Seq<Seq<char>> {
    if marketplaces.contains(cc) {
        if as_default && !defaults.contains(cc) {
            seq![
                "added marketplace "@ + quoted_form(cc) + " to the default set of account "@
                    + quoted_form(name),
            ]
        } else {
            seq![
                "account "@ + quoted_form(name) + " already lists marketplace "@ + quoted_form(cc),
            ] + (if defaults.contains(cc) {
                Seq::empty()
            } else {
                seq![default_hint(cc)]
            })
        }
    } else if as_default {
        seq![
            "added marketplace "@ + quoted_form(cc) + " to account "@ + quoted_form(name)
                + " (and to its default set)"@,
        ]
    } else {
        seq![
            "added marketplace "@ + quoted_form(cc) + " to account "@ + quoted_form(name),
            default_hint(cc),
        ]
    }
}


fn assign_with(edits: &mut Vec<Edit>, name: &str, member: &str, list: &Vec<String>, cc: &str)
    ensures
        edit_views(final(edits)@) == edit_views(old(edits)@).push(
            EditView::AssignList(account_key(name@, member@), texts(list@).push(cc@)),
        ),
{
    let mut more = copy_texts(list);
    push_text(&mut more, String::from_str(cc));
    push_edit(edits, Edit::AssignList(key_of_account(name, member), more));
}

/// Adds a marketplace to those of an account and, if asked for, to those that it
/// uses by default. The code is taken in small letters.
pub fn marketplaces_add(name: &str, axis: &Axis, given: &str, as_default: bool) -> (plan: AxisPlan)
    ensures
        ({
            let m = texts(axis.marketplaces@);
            let d = texts(axis.defaults@);
            let cc = lowered(given@);
            &&& edit_views(plan.edits@) == addition_edits(name@, m, d, cc, as_default)
            &&& texts(plan.notes@) == addition_notes(name@, m, d, cc, as_default)
        }),
{
    let cc = to_ascii_lower(given);
    let ghost m = texts(axis.marketplaces@);
    let ghost d = texts(axis.defaults@);
    let listed = holds_text(&axis.marketplaces, cc.as_str());
    let used = holds_text(&axis.defaults, cc.as_str());
    let shown = quoted(cc.as_str());
    let account = quoted(name);
    let mut edits: Vec<Edit> = Vec::new();
    let mut notes: Vec<String> = Vec::new();
    proof {
        assert(m.push(cc@).len() != m.len());
        assert(d.push(cc@).len() != d.len());
    }
    if !listed {
        assign_with(&mut edits, name, "marketplaces", &axis.marketplaces, cc.as_str());
    }
    if as_default && !(listed && used) {
        assign_with(&mut edits, name, "default_marketplaces", &axis.defaults, cc.as_str());
    }
    assert(edit_views(edits@) =~= addition_edits(name@, m, d, cc@, as_default));
    if listed {
        if as_default && !used {
            push_text(
                &mut notes,
                cat4(
                    "added marketplace ",
                    shown.as_str(),
                    " to the default set of account ",
                    account.as_str(),
                ),
            );
        } else {
            push_text(
                &mut notes,
                cat4("account ", account.as_str(), " already lists marketplace ", shown.as_str()),
            );
            if !used {
                push_text(&mut notes, hint(cc.as_str()));
            }
        }
    } else if as_default {
        push_text(
            &mut notes,
            cat5(
                "added marketplace ",
                shown.as_str(),
                " to account ",
                account.as_str(),
                " (and to its default set)",
            ),
        );
    } else {
        push_text(
            &mut notes,
            cat4("added marketplace ", shown.as_str(), " to account ", account.as_str()),
        );
        push_text(&mut notes, hint(cc.as_str()));
    }
    assert(texts(notes@) =~= addition_notes(name@, m, d, cc@, as_default));
    AxisPlan { edits, notes }
}

/// What an account uses by default stays a part of what it may use when a
/// marketplace is added.
pub proof fn law_added_defaults_are_available(
    marketplaces: Seq<Seq<char>>,
    defaults: Seq<Seq<char>>,
    cc: Seq<char>,
    as_default: bool,
    item: Seq<char>,
)
    requires
        forall|x: Seq<char>| #[trigger] defaults.contains(x) ==> marketplaces.contains(x),
        added_defaults(marketplaces, defaults, cc, as_default).contains(item),
    ensures
        added_marketplaces(marketplaces, cc).contains(item),
{
    let all = added_marketplaces(marketplaces, cc);
    let used = added_defaults(marketplaces, defaults, cc, as_default);
    let i = choose|i: int| 0 <= i < used.len() && used[i] == item;
    if i < defaults.len() {
        assert(defaults[i] == item);
        assert(defaults.contains(item));
        let k = choose|k: int| 0 <= k < marketplaces.len() && marketplaces[k] == item;
        assert(all[k] == item);
    } else {
        assert(item == cc);
        if !marketplaces.contains(cc) {
            assert(all[marketplaces.len() as int] == cc);
        }
    }
}

/// Whether an item is another than the given one.
pub open spec fn other_than(cc: Seq<char>) -> spec_fn(Seq<char>) -> bool {
    |item: Seq<char>| item != cc
}

/// A list without one of its items.
pub open spec fn without(list: Seq<Seq<char>>, cc: Seq<char>) -> Seq<Seq<char>> {
    list.filter(other_than(cc))
}

fn drop_item(list: &Vec<String>, cc: &str) -> (rest: Vec<String>)
    ensures
        texts(rest@) == without(texts(list@), cc@),
{
    let mut rest: Vec<String> = Vec::new();
    let ghost all = texts(list@);
    let ghost keep = other_than(cc@);
    let mut i: usize = 0;
    proof {
        reveal(Seq::filter);
        assert(all.subrange(0, 0) =~= Seq::<Seq<char>>::empty());
        assert(texts(rest@) =~= all.subrange(0, 0).filter(keep));
    }
    while i < list.len()
        invariant
            i <= list@.len(),
            all == texts(list@),
            keep == other_than(cc@),
            texts(rest@) == all.subrange(0, i as int).filter(keep),
        decreases list.len() - i,
    {
        proof {
            let next = all.subrange(0, i + 1);
            assert(next.drop_last() =~= all.subrange(0, i as int));
            assert(next.last() == list@[i as int]@);
            reveal(Seq::filter);
        }
        if !same(list[i].as_str(), cc) {
            push_text(&mut rest, list[i].clone());
        }
        i = i + 1;
    }
    assert(all.subrange(0, i as int) =~= all);
    rest
}

/// The changes that removing a marketplace makes: first what the account uses by
/// default, then what it may use, so that the first stays a part of the second.
pub open spec fn withdrawal_edits(
    name: Seq<char>,
    marketplaces: Seq<Seq<char>>,
    defaults: Seq<Seq<char>>,
    cc: Seq<char>,
) -> Seq<EditView> {
    seq![
        EditView::AssignList(account_key(name, "default_marketplaces"@), without(defaults, cc)),
        EditView::AssignList(account_key(name, "marketplaces"@), without(marketplaces, cc)),
    ]
}

/// Takes a marketplace from those of an account: first from those that it uses
/// by default, so that these stay a part of the others throughout.
pub fn marketplaces_remove(name: &str, axis: &Axis, given: &str) -> (plan: Result<
    AxisPlan,
    AccountError<String>,
>)
    ensures
        ({
            let m = texts(axis.marketplaces@);
            let d = texts(axis.defaults@);
            let cc = lowered(given@);
            match plan {
                Ok(p) => m.contains(cc) && edit_views(p.edits@) == withdrawal_edits(
                    name@,
                    m,
                    d,
                    cc,
                ) && texts(p.notes@) == seq![
                    "removed marketplace "@ + quoted_form(cc) + " from account "@ + quoted_form(
                        name@,
                    ),
                ],
                Err(e) => !m.contains(cc) && e@ == (AccountError::NotListed {
                    name: name@,
                    marketplace: cc,
                }),
            }
        }),
{
    let cc = to_ascii_lower(given);
    if !holds_text(&axis.marketplaces, cc.as_str()) {
        return Err(AccountError::NotListed { name: String::from_str(name), marketplace: cc });
    }
    let mut edits: Vec<Edit> = Vec::new();
    push_edit(
        &mut edits,
        Edit::AssignList(
            key_of_account(name, "default_marketplaces"),
            drop_item(&axis.defaults, cc.as_str()),
        ),
    );
    push_edit(
        &mut edits,
        Edit::AssignList(
            key_of_account(name, "marketplaces"),
            drop_item(&axis.marketplaces, cc.as_str()),
        ),
    );
    let mut notes: Vec<String> = Vec::new();
    push_text(
        &mut notes,
        cat4(
            "removed marketplace ",
            quoted(cc.as_str()).as_str(),
            " from account ",
            quoted(name).as_str(),
        ),
    );
    let ghost m = texts(axis.marketplaces@);
    let ghost d = texts(axis.defaults@);
    assert(edit_views(edits@) =~= seq![
        EditView::AssignList(account_key(name@, "default_marketplaces"@), without(d, cc@)),
        EditView::AssignList(account_key(name@, "marketplaces"@), without(m, cc@)),
    ]);
    assert(texts(notes@) =~= seq![
        "removed marketplace "@ + quoted_form(cc@) + " from account "@ + quoted_form(name@),
    ]);
    Ok(AxisPlan { edits, notes })
}

/// What an account uses by default stays a part of what it may use when a
/// marketplace is removed, also between the two changes, and the marketplace is
/// gone from both.
pub proof fn law_removed_defaults_are_available(
    marketplaces: Seq<Seq<char>>,
    defaults: Seq<Seq<char>>,
    cc: Seq<char>,
    item: Seq<char>,
)
    requires
        forall|x: Seq<char>| #[trigger] defaults.contains(x) ==> marketplaces.contains(x),
        without(defaults, cc).contains(item),
    ensures
        marketplaces.contains(item),
        without(marketplaces, cc).contains(item),
        item != cc,
{
    lemma_filtered(defaults, other_than(cc), item);
    lemma_filtered(marketplaces, other_than(cc), item);
    assert(defaults.contains(item));
}

/// Sets the marketplaces that an account uses by default.
pub fn marketplaces_set_default(name: &str, csv: &str, known: &Vec<String>) -> (plan: Result<
    AxisPlan,
    AccountError<String>,
>)
    ensures
        match (plan, marketplaces_of(csv@, texts(known@))) {
            (Ok(p), Ok(list)) => edit_views(p.edits@) == seq![
                EditView::AssignList(account_key(name@, "default_marketplaces"@), list),
            ] && texts(p.notes@) == seq![
                "default marketplaces of account "@ + quoted_form(name@) + " are now "@ + joined(
                    list,
                    ", "@,
                ),
            ],
            (Err(e), Err(fault)) => e@ == fault,
            _ => false,
        },
{
    let list = match parse_marketplaces(csv, known) {
        Ok(list) => list,
        Err(e) => {
            return Err(e);
        },
    };
    let note = cat4(
        "default marketplaces of account ",
        quoted(name).as_str(),
        " are now ",
        join(&list, ", ").as_str(),
    );
    let ghost found = texts(list@);
    let mut notes: Vec<String> = Vec::new();
    push_text(&mut notes, note);
    let mut edits: Vec<Edit> = Vec::new();
    push_edit(&mut edits, Edit::AssignList(key_of_account(name, "default_marketplaces"), list));
    assert(edit_views(edits@) =~= seq![
        EditView::AssignList(account_key(name@, "default_marketplaces"@), found),
    ]);
    assert(texts(notes@) =~= seq![note@]);
    Ok(AxisPlan { edits, notes })
}

/// What is said before an account is taken out.
pub fn removal_notes(name: &str, is_default: bool, delete_auth_file: bool) -> (notes: Vec<String>)
    ensures
        texts(notes@) == seq![
            "This removes account "@ + quoted_form(name@) + " from the config."@,
        ] + (if is_default {
            seq!["default_account points here and will be cleared."@]
        } else {
            Seq::empty()
        }) + seq![
            "The device registration stays active — use `account logout` to also deregister it with Amazon."@,
        ] + (if delete_auth_file {
            seq![
                "warning: deleting the auth file makes a later deregistration via this CLI impossible — the auth material is the device identity. You can still remove the device on the Audible/Amazon website (account settings -> devices):\nhttps://help.audible.com/s/article/remove-devices-from-account"@,
            ]
        } else {
            Seq::empty()
        }),
{
    let mut notes: Vec<String> = Vec::new();
    push_text(
        &mut notes,
        cat3("This removes account ", quoted(name).as_str(), " from the config."),
    );
    if is_default {
        push_text(
            &mut notes,
            String::from_str("default_account points here and will be cleared."),
        );
    }
    push_text(
        &mut notes,
        String::from_str(
            "The device registration stays active — use `account logout` to also deregister it with Amazon.",
        ),
    );
    if delete_auth_file {
        push_text(
            &mut notes,
            String::from_str(
                "warning: deleting the auth file makes a later deregistration via this CLI impossible — the auth material is the device identity. You can still remove the device on the Audible/Amazon website (account settings -> devices):\nhttps://help.audible.com/s/article/remove-devices-from-account",
            ),
        );
    }
    notes
}

/// What is said before the device of an account is deregistered.
pub fn logout_notes(name: &str, is_default: bool, all: bool) -> (notes: Vec<String>)
    ensures
        texts(notes@) == seq![
            if all {
                "This deregisters account "@ + quoted_form(name@)
                    + "'s device — and any other registration sharing its serial number — with Amazon, then deletes it locally (config entry + auth file)."@
            } else {
                "This deregisters account "@ + quoted_form(name@)
                    + "'s device with Amazon, then deletes the account locally (config entry + auth file)."@
            },
        ] + (if is_default {
            seq!["default_account points here and will be cleared."@]
        } else {
            Seq::empty()
        }),
{
    let mut notes: Vec<String> = Vec::new();
    let rest = if all {
        "'s device — and any other registration sharing its serial number — with Amazon, then deletes it locally (config entry + auth file)."
    } else {
        "'s device with Amazon, then deletes the account locally (config entry + auth file)."
    };
    push_text(&mut notes, cat3("This deregisters account ", quoted(name).as_str(), rest));
    if is_default {
        push_text(
            &mut notes,
            String::from_str("default_account points here and will be cleared."),
        );
    }
    notes
}

/// What is said once a device was deregistered.
pub fn deregistered_note(device: Option<&str>) -> (text: String)
    ensures
        text@ == match device {
            Some(name) => "deregistered device "@ + quoted_form(name@) + " with Amazon"@,
            None => "deregistered the device with Amazon"@,
        },
{
    match device {
        Some(name) => cat3("deregistered device ", quoted(name).as_str(), " with Amazon"),
        None => String::from_str("deregistered the device with Amazon"),
    }
}

/// Whether a file may be written.
pub open spec fn may_write(there: bool, force: bool) -> bool {
    !there || force
}

/// Checks that the material of an account may be written to a file.
pub fn check_export(out: &str, there: bool, force: bool) -> (result: Result<
    (),
    AccountError<String>,
>)
    ensures
        match result {
            Ok(_) => may_write(there, force),
            Err(e) => !may_write(there, force) && e@ == AccountError::FileExists(out@),
        },
{
    if there && !force {
        Err(AccountError::FileExists(String::from_str(out)))
    } else {
        Ok(())
    }
}

/// How the material of an account is written.
#[derive(Clone, Copy, Debug, PartialEq, Eq, Structural)]
pub enum ExportFormat {
    /// Encrypted.
    Encrypted,
    /// As it is.
    Plain,
    /// As it is, in the older layout.
    Python,
}

/// The format that a word names.
pub open spec fn format_named(word: Seq<char>) -> ExportFormat {
    if word == "encrypted"@ {
        ExportFormat::Encrypted
    } else if word == "plain"@ {
        ExportFormat::Plain
    } else {
        ExportFormat::Python
    }
}

/// Tells how the material is written; any word but two means the older layout.
pub fn export_format(word: &str) -> (format: ExportFormat)
    ensures
        format == format_named(word@),
{
    if same(word, "encrypted") {
        ExportFormat::Encrypted
    } else if same(word, "plain") {
        ExportFormat::Plain
    } else {
        ExportFormat::Python
    }
}

/// What is said where material is written as it is, and where cookies are left
/// out of the older layout.
pub fn export_notes(format: ExportFormat, dropped: &Vec<String>) -> (notes: Vec<String>)
    ensures
        texts(notes@) == (if format is Encrypted {
            Seq::empty()
        } else {
            seq![
                "warning: writing UNENCRYPTED auth material (tokens, device key) — keep the file safe or delete it after use"@,
            ] + (if format is Python && dropped@.len() > 0 {
                seq![
                    "note: the Python format keeps one flat cookie set — cookies for "@ + joined(
                        texts(dropped@),
                        ", "@,
                    ) + " were not exported"@,
                ]
            } else {
                Seq::empty()
            })
        }),
{
    let mut notes: Vec<String> = Vec::new();
    match format {
        ExportFormat::Encrypted => {
            return notes;
        },
        _ => {},
    }
    push_text(
        &mut notes,
        String::from_str(
            "warning: writing UNENCRYPTED auth material (tokens, device key) — keep the file safe or delete it after use",
        ),
    );
    let python = match format {
        ExportFormat::Python => true,
        _ => false,
    };
    if python && dropped.len() > 0 {
        push_text(
            &mut notes,
            cat3(
                "note: the Python format keeps one flat cookie set — cookies for ",
                join(dropped, ", ").as_str(),
                " were not exported",
            ),
        );
    }
    notes
}

/// The fault that the agent names in a reply.
pub open spec fn reply_fault(reply: JsonView) -> Seq<char> {
    match text_field(reply, "error"@) {
        Some(text) => text,
        None => "error"@,
    }
}

fn fault_in(reply: &Json) -> (text: String)
    ensures
        text@ == reply_fault(reply@),
{
    match reply.get_str("error") {
        Some(text) => String::from_str(text),
        None => String::from_str("error"),
    }
}

/// What is said of the reply of the agent to an unlock.
pub fn unlock_line(account: &str, success: bool, reply: &Json) -> (line: Result<String, String>)
    ensures
        match line {
            Ok(text) => success && text@ == "unlocked account "@ + quoted_form(account@)
                + " in the agent"@,
            Err(text) => !success && text@ == "unlock failed: "@ + reply_fault(reply@),
        },
{
    if success {
        Ok(cat3("unlocked account ", quoted(account).as_str(), " in the agent"))
    } else {
        Err(cat2("unlock failed: ", fault_in(reply).as_str()))
    }
}

/// What is said of the reply of the agent to a lock.
pub fn lock_line(success: bool, reply: &Json) -> (line: Result<String, String>)
    ensures
        match line {
            Ok(text) => success && text@ == "locked "@ + decimal(
                match whole_field(reply@, "locked"@) {
                    Some(count) => count,
                    None => 0,
                },
            ) + " session(s)"@,
            Err(text) => !success && text@ == "lock failed: "@ + reply_fault(reply@),
        },
{
    if success {
        let count: u64 = match reply.get_u64("locked") {
            Some(count) => count,
            None => 0,
        };
        Ok(cat3("locked ", number(count).as_str(), " session(s)"))
    } else {
        Err(cat2("lock failed: ", fault_in(reply).as_str()))
    }
}

/// A marketplace that is added is one that the account may use from then on, and
/// one that it uses by default where that is asked for; those that it had stay,
/// and nothing else is added.
pub proof fn law_added_marketplaces_are_there(
    marketplaces: Seq<Seq<char>>,
    defaults: Seq<Seq<char>>,
    cc: Seq<char>,
    as_default: bool,
    item: Seq<char>,
)
    ensures
        added_marketplaces(marketplaces, cc).contains(item) <==> marketplaces.contains(item) || item
            == cc,
        added_defaults(marketplaces, defaults, cc, as_default).contains(item) <==> defaults.contains(
            item,
        ) || (as_default && item == cc),
        marketplaces.no_duplicates() ==> added_marketplaces(marketplaces, cc).no_duplicates(),
{
    let all = marketplaces.push(cc);
    let used = defaults.push(cc);
    assert(all[marketplaces.len() as int] == cc);
    assert(used[defaults.len() as int] == cc);
    if marketplaces.contains(item) {
        let k = choose|k: int| 0 <= k < marketplaces.len() && marketplaces[k] == item;
        assert(all[k] == item);
    }
    if defaults.contains(item) {
        let k = choose|k: int| 0 <= k < defaults.len() && defaults[k] == item;
        assert(used[k] == item);
    }
    if all.contains(item) && item != cc {
        let k = choose|k: int| 0 <= k < all.len() && all[k] == item;
        assert(marketplaces[k] == item);
    }
    if used.contains(item) && item != cc {
        let k = choose|k: int| 0 <= k < used.len() && used[k] == item;
        assert(defaults[k] == item);
    }
}

/// What is stored of an added marketplace is the list that the account then has:
/// the one of what it may use exactly where that changed, and the one of what it uses
/// by default exactly where that did, behind it.
pub proof fn law_additions_are_stored(
    name: Seq<char>,
    marketplaces: Seq<Seq<char>>,
    defaults: Seq<Seq<char>>,
    cc: Seq<char>,
    as_default: bool,
)
    ensures
        ({
            let edits = addition_edits(name, marketplaces, defaults, cc, as_default);
            &&& !marketplaces.contains(cc) ==> edits.len() > 0 && edits[0] == EditView::AssignList(
                account_key(name, "marketplaces"@),
                marketplaces.push(cc),
            )
            &&& as_default && !defaults.contains(cc) ==> edits.len() > 0 && edits.last()
                == EditView::AssignList(
                account_key(name, "default_marketplaces"@),
                defaults.push(cc),
            )
            &&& marketplaces.contains(cc) && (!as_default || defaults.contains(cc)) ==> edits.len()
                == 0
            &&& !as_default && !marketplaces.contains(cc) ==> edits.len() == 1
        }),
{
    assert(marketplaces.push(cc).len() != marketplaces.len());
    assert(defaults.push(cc).len() != defaults.len());
}

/// A marketplace that is removed is gone, and every other one stays.
pub proof fn law_removed_marketplaces_are_gone(
    list: Seq<Seq<char>>,
    cc: Seq<char>,
    item: Seq<char>,
)
    ensures
        without(list, cc).contains(item) <==> list.contains(item) && item != cc,
{
    crate::lists::lemma_filtered(list, other_than(cc), item);
}

/// An account can be renamed exactly where it is there and the new name is usable,
/// another one, and free.
pub proof fn law_renames_are_refused_for_cause(
    accounts: Seq<Seq<char>>,
    old_name: Seq<char>,
    new_name: Seq<char>,
    invalid: Option<Seq<char>>,
)
    ensures
        rename_fault(accounts, old_name, new_name, invalid) is None <==> accounts.contains(old_name)
            && invalid is None && old_name != new_name && !accounts.contains(new_name),
        !accounts.contains(old_name) ==> rename_fault(accounts, old_name, new_name, invalid)
            == Some(AccountError::Unknown(old_name)),
        accounts.contains(old_name) && invalid is None && old_name != new_name && accounts.contains(
            new_name,
        ) ==> rename_fault(accounts, old_name, new_name, invalid) == Some(
            AccountError::Taken(new_name),
        ),
{
}

/// The row of an account shows each of its properties in its column, and a star
/// exactly at the default one.
pub proof fn law_account_rows_show_each_property(
    row: AccountRow,
    default_account: Option<Seq<char>>,
)
    ensures
        account_cells(row, default_account).len() == 6,
        account_cells(row, default_account)[0] == row.name@,
        account_cells(row, default_account)[1] == row.state@,
        account_cells(row, default_account)[2] == row.password_source@,
        account_cells(row, default_account)[3] == joined(texts(row.marketplaces@), ","@),
        account_cells(row, default_account)[4] == joined(texts(row.default_marketplaces@), ","@),
        account_cells(row, default_account)[5] == "*"@ <==> default_account == Some(row.name@),
{
    reveal_strlit("*");
    reveal_strlit("");
    assert("*"@.len() == 1);
    assert(""@.len() == 0);
}

/// What is stored of a removed marketplace: neither list holds it any more, and the
/// default ones are stored first.
pub proof fn law_removals_are_stored(
    name: Seq<char>,
    marketplaces: Seq<Seq<char>>,
    defaults: Seq<Seq<char>>,
    cc: Seq<char>,
    item: Seq<char>,
)
    ensures
        ({
            let edits = withdrawal_edits(name, marketplaces, defaults, cc);
            &&& edits.len() == 2
            &&& edits[0] matches EditView::AssignList(key, list) && key == account_key(
                name,
                "default_marketplaces"@,
            ) && (list.contains(item) <==> defaults.contains(item) && item != cc)
            &&& edits[1] matches EditView::AssignList(key, list) && key == account_key(
                name,
                "marketplaces"@,
            ) && (list.contains(item) <==> marketplaces.contains(item) && item != cc)
        }),
{
    law_removed_marketplaces_are_gone(marketplaces, cc, item);
    law_removed_marketplaces_are_gone(defaults, cc, item);
}

/// Only an account that is there can be made the default one, and each that is there can.
pub proof fn law_defaults_are_accounts(accounts: Seq<Seq<char>>, name: Seq<char>, i: int)
    ensures
        0 <= i < accounts.len() ==> default_edit(accounts, accounts[i]) == Some(
            EditView::Assign("default_account"@, accounts[i]),
        ),
        default_edit(accounts, name) is Some ==> accounts.contains(name),
{
    if 0 <= i < accounts.len() {
        assert(accounts.contains(accounts[i]));
    }
}

/// Material is written in the format that is named; it is written unencrypted only where
/// that is.
pub proof fn law_exports_are_encrypted_unless_named(word: Seq<char>)
    ensures
        format_named("encrypted"@) is Encrypted,
        format_named("plain"@) is Plain,
        format_named("python"@) is Python,
        format_named(word) is Encrypted <==> word == "encrypted"@,
        format_named(word) is Plain <==> word == "plain"@,
{
    reveal_strlit("encrypted");
    reveal_strlit("plain");
    reveal_strlit("python");
    assert("encrypted"@.len() == 9);
    assert("plain"@.len() == 5);
    assert("python"@.len() == 6);
}

/// A file that is there is replaced only where that is asked for.
pub proof fn law_exports_replace_nothing_unasked(force: bool)
    ensures
        may_write(false, force),
        may_write(true, force) == force,
{
}

} // verus!
