//! Registering an account: its name, its marketplaces and its files.

use vstd::prelude::*;
use vstd::string::StringExecFns;
use super::error::AccountError;
use crate::config::Edit;
use crate::config::EditView;
use crate::config::account_key;
use crate::config::edit_views;
use crate::config::key_of_account;
use crate::config::push_edit;
use crate::json::Json;
use crate::json::JsonView;
use crate::json::document;
use crate::json::field;
use crate::lists::add_text;
use crate::lists::copy_texts;
use crate::lists::holds_text;
use crate::lists::push_text;
use crate::paths::extension_dot;
use crate::paths::file_name;
use crate::paths::file_name_of;
use crate::paths::find_extension;
use crate::text::cat2;
use crate::text::cat5;
use crate::text::chars_of;
use crate::text::join;
use crate::text::joined;
use crate::text::lowered;
use crate::text::quoted;
use crate::text::quoted_form;
use crate::text::raised;
use crate::text::slice_text;
use crate::text::split;
use crate::text::split_all;
use crate::text::texts;
use crate::text::to_ascii_lower;
use crate::text::to_ascii_upper;
use crate::text::to_lower;
use crate::text::trim;
use crate::text::trimmed;
use crate::text::unicode_lower;

verus! {

/// The marketplaces behind those found so far in the parts of a list: in small
/// letters, each once; an empty part is passed over, one that is not known is
/// an error.
pub open spec fn marketplaces_from(
    found: Seq<Seq<char>>,
    parts: Seq<Seq<char>>,
    known: Seq<Seq<char>>,
) -> Result<Seq<Seq<char>>, AccountError<Seq<char>>>
    decreases parts.len(),
{
    if parts.len() == 0 {
        Ok(found)
    } else {
        let cc = lowered(trimmed(parts[0]));
        if trimmed(parts[0]).len() == 0 {
            marketplaces_from(found, parts.drop_first(), known)
        } else if !known.contains(cc) {
            Err(AccountError::UnknownMarketplace(cc))
        } else if found.contains(cc) {
            marketplaces_from(found, parts.drop_first(), known)
        } else {
            marketplaces_from(found.push(cc), parts.drop_first(), known)
        }
    }
}

/// The marketplaces in a list that commas set off; to give none is an error.
pub open spec fn marketplaces_of(raw: Seq<char>, known: Seq<Seq<char>>) -> Result<
    Seq<Seq<char>>,
    AccountError<Seq<char>>,
> {
    match marketplaces_from(Seq::empty(), split_all(raw, ','), known) {
        Ok(found) => if found.len() == 0 {
            Err(AccountError::NoMarketplace)
        } else {
            Ok(found)
        },
        Err(e) => Err(e),
    }
}

/// Reads the marketplaces in a list that commas set off; `known` holds those
/// that there are.
pub fn parse_marketplaces(raw: &str, known: &Vec<String>) -> (result: Result<
    Vec<String>,
    AccountError<String>,
>)
    ensures
        match result {
            Ok(list) => marketplaces_of(raw@, texts(known@)) == Ok::<
                Seq<Seq<char>>,
                AccountError<Seq<char>>,
            >(texts(list@)),
            Err(e) => marketplaces_of(raw@, texts(known@)) == Err::<
                Seq<Seq<char>>,
                AccountError<Seq<char>>,
            >(e@),
        },
{
    let parts = split(raw, ',');
    let ghost all = texts(parts@);
    let ghost none = Seq::<Seq<char>>::empty();
    let mut found: Vec<String> = Vec::new();
    let mut i: usize = 0;
    assert(texts(found@) =~= none);
    assert(all.subrange(0, all.len() as int) =~= all);
    while i < parts.len()
        invariant
            i <= parts@.len(),
            all == texts(parts@),
            all == split_all(raw@, ','),
            none == Seq::<Seq<char>>::empty(),
            marketplaces_from(none, all, texts(known@)) == marketplaces_from(
                texts(found@),
                all.subrange(i as int, all.len() as int),
                texts(known@),
            ),
        decreases parts.len() - i,
    {
        let ghost rest = all.subrange(i as int, all.len() as int);
        assert(rest[0] == parts@[i as int]@);
        assert(rest.drop_first() =~= all.subrange(i + 1, all.len() as int));
        let token = trim(parts[i].as_str());
        if !token.as_str().is_empty() {
            let cc = to_ascii_lower(token.as_str());
            if !holds_text(known, cc.as_str()) {
                return Err(AccountError::UnknownMarketplace(cc));
            }
            add_text(&mut found, cc);
        }
        i = i + 1;
    }
    assert(found@.len() == texts(found@).len());
    if found.len() == 0 {
        return Err(AccountError::NoMarketplace);
    }
    Ok(found)
}

proof fn lemma_marketplaces(found: Seq<Seq<char>>, parts: Seq<Seq<char>>, known: Seq<Seq<char>>)
    requires
        found.no_duplicates(),
        forall|cc: Seq<char>| found.contains(cc) ==> known.contains(cc),
    ensures
        marketplaces_from(found, parts, known) matches Ok(list) ==> list.no_duplicates() && forall|
            cc: Seq<char>,
        |
            list.contains(cc) ==> known.contains(cc),
    decreases parts.len(),
{
    if parts.len() > 0 {
        let cc = lowered(trimmed(parts[0]));
        if trimmed(parts[0]).len() == 0 || found.contains(cc) {
            lemma_marketplaces(found, parts.drop_first(), known);
        } else if known.contains(cc) {
            let more = found.push(cc);
            assert forall|c: Seq<char>| more.contains(c) implies known.contains(c) by {
                let i = choose|i: int| 0 <= i < more.len() && more[i] == c;
                if i < found.len() {
                    assert(found[i] == c);
                }
            }
            lemma_marketplaces(more, parts.drop_first(), known);
        }
    }
}

/// What is read out of a list of marketplaces is never empty, holds none twice,
/// and holds only marketplaces that there are.
pub proof fn law_marketplaces_are_known_once(raw: Seq<char>, known: Seq<Seq<char>>, cc: Seq<char>)
    ensures
        marketplaces_of(raw, known) matches Ok(list) ==> list.len() > 0 && list.no_duplicates() && (
        list.contains(cc) ==> known.contains(cc)),
{
    lemma_marketplaces(Seq::empty(), split_all(raw, ','), known);
}

/// The character that stands for another in the name of an account: small
/// letters, digits and two marks stand for themselves.
pub open spec fn name_char(c: char) -> char {
    if ('a' <= c && c <= 'z') || ('0' <= c && c <= '9') || c == '-' || c == '_' {
        c
    } else {
        '-'
    }
}

/// The stem of the name of a file: without its extension.
pub open spec fn stem_of(name: Seq<char>) -> Seq<char> {
    match extension_dot(name) {
        Some(dot) => name.subrange(0, dot),
        None => name,
    }
}

/// The name for an account, given the stem of its file in small letters.
pub open spec fn name_of_stem(stem: Seq<char>) -> Seq<char> {
    if stem.len() == 0 {
        "main"@
    } else {
        stem.map_values(|c: char| name_char(c))
    }
}

/// Makes a name for an account out of the stem of its file in small letters.
pub fn name_from_stem(stem: &str) -> (name: String)
    ensures
        name@ == name_of_stem(stem@),
{
    if stem.is_empty() {
        return String::from_str("main");
    }
    let chars = chars_of(stem);
    let ghost want = stem@.map_values(|c: char| name_char(c));
    let mut name = String::new();
    let mut i: usize = 0;
    assert(name@ =~= want.subrange(0, 0));
    while i < chars.len()
        invariant
            i <= chars@.len(),
            chars@ == stem@,
            want == stem@.map_values(|c: char| name_char(c)),
            name@ == want.subrange(0, i as int),
        decreases chars.len() - i,
    {
        let c = chars[i];
        let kept = ('a' <= c && c <= 'z') || ('0' <= c && c <= '9') || c == '-' || c == '_';
        name.push(
            if kept {
                c
            } else {
                '-'
            },
        );
        i = i + 1;
        assert(name@ =~= want.subrange(0, i as int));
    }
    assert(want.subrange(0, i as int) =~= want);
    name
}

/// The name for an account, by the path of its file.
pub open spec fn name_for(path: Seq<char>) -> Seq<char> {
    match file_name_of(path) {
        Some(file) => name_of_stem(unicode_lower(stem_of(file))),
        None => "main"@,
    }
}

/// Makes a name for an account out of the name of its file: `alice.json` gives
/// `alice`; a path that names no file gives `main`.
pub fn derive_name(path: &str) -> (name: String)
    ensures
        name@ == name_for(path@),
{
    match file_name(path) {
        Some(file) => {
            let chars = chars_of(file.as_str());
            let stem = match find_extension(&chars) {
                Some(dot) => slice_text(&chars, 0, dot),
                None => file,
            };
            name_from_stem(to_lower(stem.as_str()).as_str())
        },
        None => String::from_str("main"),
    }
}

/// What an account is to be registered with.
#[derive(Debug)]
pub struct Registration {
    /// The name of the account.
    pub name: String,
    /// Whether there is an account of this name.
    pub account_exists: bool,
    /// Where its auth file goes.
    pub target: String,
    /// Whether there is a file there.
    pub target_exists: bool,
    /// Its marketplaces, as given.
    pub marketplaces: Option<String>,
    /// The marketplaces used by default, as given.
    pub default_marketplaces: Option<String>,
    /// The marketplace in which it was registered.
    pub registered: String,
    /// Whether what exists is replaced.
    pub force: bool,
    /// Whether there is a default account.
    pub has_default: bool,
}

/// The marketplaces of an account.
pub struct AxisView {
    /// Those that it may use.
    pub marketplaces: Seq<Seq<char>>,
    /// Those that it uses by default.
    pub defaults: Seq<Seq<char>>,
}

/// The first of the defaults that is none of the marketplaces, by its place.
pub open spec fn first_stray(defaults: Seq<Seq<char>>, marketplaces: Seq<Seq<char>>, i: int) -> bool {
    0 <= i < defaults.len() && !marketplaces.contains(defaults[i]) && forall|k: int|
        0 <= k < i ==> marketplaces.contains(#[trigger] defaults[k])
}

/// Whether every default is one of the marketplaces.
pub open spec fn all_available(defaults: Seq<Seq<char>>, marketplaces: Seq<Seq<char>>) -> bool {
    forall|k: int| 0 <= k < defaults.len() ==> marketplaces.contains(#[trigger] defaults[k])
}

/// The marketplaces of an account that is registered: those given, or the one
/// of its registration.
pub open spec fn available_of(reg: Registration, known: Seq<Seq<char>>) -> Result<
    Seq<Seq<char>>,
    AccountError<Seq<char>>,
> {
    match reg.marketplaces {
        Some(raw) => marketplaces_of(raw@, known),
        None => Ok(seq![reg.registered@]),
    }
}

/// The marketplaces that an account uses by default: those given, which have to
/// be among its own, or the first of its own.
pub open spec fn axis_of(reg: Registration, known: Seq<Seq<char>>) -> Result<
    AxisView,
    AccountError<Seq<char>>,
> {
    match available_of(reg, known) {
        Err(e) => Err(e),
        Ok(marketplaces) => match reg.default_marketplaces {
            None => Ok(AxisView { marketplaces, defaults: seq![marketplaces[0]] }),
            Some(raw) => match marketplaces_of(raw@, known) {
                Err(e) => Err(e),
                Ok(defaults) => if all_available(defaults, marketplaces) {
                    Ok(AxisView { marketplaces, defaults })
                } else {
                    Err(
                        AccountError::NotAvailable {
                            entry: defaults[choose|i: int| first_stray(defaults, marketplaces, i)],
                            available: joined(marketplaces, ","@),
                        },
                    )
                },
            },
        },
    }
}

/// What comes of a registration: what exists is not replaced unasked, and the
/// marketplaces have to be sound before anything is written.
pub open spec fn registration_of(reg: Registration, known: Seq<Seq<char>>) -> Result<
    AxisView,
    AccountError<Seq<char>>,
> {
    if reg.account_exists && !reg.force {
        Err(AccountError::Exists(reg.name@))
    } else if reg.target_exists && !reg.force {
        Err(AccountError::FileExists(reg.target@))
    } else {
        axis_of(reg, known)
    }
}

/// The changes that register an account.
pub open spec fn registration_edits(name: Seq<char>, axis: AxisView, has_default: bool) -> Seq<
    EditView,
> {
    seq![
        EditView::Assign(account_key(name, "auth_file"@), name + ".auth"@),
        EditView::AssignList(account_key(name, "marketplaces"@), axis.marketplaces),
        EditView::AssignList(account_key(name, "default_marketplaces"@), axis.defaults),
    ] + (if has_default {
        Seq::empty()
    } else {
        seq![EditView::Assign("default_account"@, name)]
    })
}

/// What is said once an account is registered.
pub open spec fn registration_text(name: Seq<char>, axis: AxisView, has_default: bool) -> Seq<char> {
    "Registered account "@ + quoted_form(name) + " (marketplaces "@ + joined(
        axis.marketplaces,
        ", "@,
    ) + "; default "@ + joined(axis.defaults, ", "@) + ")"@ + (if has_default {
        ""@
    } else {
        ", set as default account"@
    }) + "."@
}

/// A registration that can be carried out.
#[derive(Debug)]
pub struct RegistrationPlan {
    /// The name of the auth file.
    pub auth_file: String,
    /// The marketplaces of the account.
    pub marketplaces: Vec<String>,
    /// Those that it uses by default.
    pub default_marketplaces: Vec<String>,
    /// The changes of the configuration.
    pub edits: Vec<Edit>,
    /// What is said once it is done.
    pub note: String,
}

impl RegistrationPlan {
    /// The marketplaces, in texts.
    pub open spec fn axis(&self) -> AxisView {
        AxisView {
            marketplaces: texts(self.marketplaces@),
            defaults: texts(self.default_marketplaces@),
        }
    }
}


fn one(text: String) -> (list: Vec<String>)
    ensures
        texts(list@) == seq![text@],
{
    let mut list: Vec<String> = Vec::new();
    push_text(&mut list, text);
    assert(texts(list@) =~= seq![text@]);
    list
}

fn check_defaults(defaults: &Vec<String>, marketplaces: &Vec<String>) -> (result: Result<
    (),
    AccountError<String>,
>)
    ensures
        ({
            let d = texts(defaults@);
            let m = texts(marketplaces@);
            match result {
                Ok(_) => all_available(d, m),
                Err(e) => !all_available(d, m) && e@ == (AccountError::NotAvailable {
                    entry: d[choose|i: int| first_stray(d, m, i)],
                    available: joined(m, ","@),
                }),
            }
        }),
{
    let ghost d = texts(defaults@);
    let ghost m = texts(marketplaces@);
    let mut i: usize = 0;
    while i < defaults.len()
        invariant
            i <= defaults@.len(),
            d == texts(defaults@),
            m == texts(marketplaces@),
            forall|k: int| 0 <= k < i ==> m.contains(#[trigger] d[k]),
        decreases defaults.len() - i,
    {
        if !holds_text(marketplaces, defaults[i].as_str()) {
            proof {
                assert(d[i as int] == defaults@[i as int]@);
                assert(first_stray(d, m, i as int));
                let j = choose|j: int| first_stray(d, m, j);
                assert(first_stray(d, m, j));
                if j < i {
                    assert(m.contains(d[j]));
                }
                if i < j {
                    assert(m.contains(d[i as int]));
                }
            }
            return Err(
                AccountError::NotAvailable {
                    entry: defaults[i].clone(),
                    available: join(marketplaces, ","),
                },
            );
        }
        i = i + 1;
    }
    Ok(())
}

fn resolve_axis(reg: &Registration, known: &Vec<String>) -> (result: Result<
    (Vec<String>, Vec<String>),
    AccountError<String>,
>)
    ensures
        match result {
            Ok((marketplaces, defaults)) => axis_of(*reg, texts(known@)) == Ok::<
                AxisView,
                AccountError<Seq<char>>,
            >(AxisView { marketplaces: texts(marketplaces@), defaults: texts(defaults@) }),
            Err(e) => axis_of(*reg, texts(known@)) == Err::<AxisView, AccountError<Seq<char>>>(e@),
        },
{
    let marketplaces = match &reg.marketplaces {
        Some(raw) => match parse_marketplaces(raw.as_str(), known) {
            Ok(list) => list,
            Err(e) => {
                return Err(e);
            },
        },
        None => one(reg.registered.clone()),
    };
    assert(available_of(*reg, texts(known@)) == Ok::<Seq<Seq<char>>, AccountError<Seq<char>>>(
        texts(marketplaces@),
    ));
    assert(texts(marketplaces@).len() > 0);
    assert(marketplaces@.len() == texts(marketplaces@).len());
    let defaults = match &reg.default_marketplaces {
        Some(raw) => match parse_marketplaces(raw.as_str(), known) {
            Ok(list) => {
                match check_defaults(&list, &marketplaces) {
                    Ok(_) => {},
                    Err(e) => {
                        return Err(e);
                    },
                }
                list
            },
            Err(e) => {
                return Err(e);
            },
        },
        None => {
            assert(texts(marketplaces@)[0] == marketplaces@[0]@);
            one(marketplaces[0].clone())
        },
    };
    Ok((marketplaces, defaults))
}

fn edits_for(
    name: &str,
    marketplaces: &Vec<String>,
    defaults: &Vec<String>,
    has_default: bool,
) -> (edits: Vec<Edit>)
    ensures
        edit_views(edits@) == registration_edits(
            name@,
            (AxisView { marketplaces: texts(marketplaces@), defaults: texts(defaults@) }),
            has_default,
        ),
{
    let mut edits: Vec<Edit> = Vec::new();
    push_edit(&mut edits, Edit::Assign(key_of_account(name, "auth_file"), cat2(name, ".auth")));
    push_edit(
        &mut edits,
        Edit::AssignList(key_of_account(name, "marketplaces"), copy_texts(marketplaces)),
    );
    push_edit(
        &mut edits,
        Edit::AssignList(key_of_account(name, "default_marketplaces"), copy_texts(defaults)),
    );
    if !has_default {
        push_edit(
            &mut edits,
            Edit::Assign(String::from_str("default_account"), String::from_str(name)),
        );
    }
    assert(edit_views(edits@) =~= registration_edits(
        name@,
        AxisView { marketplaces: texts(marketplaces@), defaults: texts(defaults@) },
        has_default,
    ));
    edits
}

fn note_for(
    name: &str,
    marketplaces: &Vec<String>,
    defaults: &Vec<String>,
    has_default: bool,
) -> (note: String)
    ensures
        note@ == registration_text(
            name@,
            (AxisView { marketplaces: texts(marketplaces@), defaults: texts(defaults@) }),
            has_default,
        ),
{
    let mut note = cat5(
        "Registered account ",
        quoted(name).as_str(),
        " (marketplaces ",
        join(marketplaces, ", ").as_str(),
        "; default ",
    );
    note.append(join(defaults, ", ").as_str());
    note.append(")");
    note.append(
        if has_default {
            ""
        } else {
            ", set as default account"
        },
    );
    note.append(".");
    note
}

/// Plans the registration of an account: where its auth file goes, which
/// marketplaces it has, and what changes in the configuration. Nothing is
/// written before all of this is settled.
pub fn plan_registration(reg: &Registration, known: &Vec<String>) -> (plan: Result<
    RegistrationPlan,
    AccountError<String>,
>)
    ensures
        match plan {
            Ok(p) => registration_of(*reg, texts(known@)) == Ok::<
                AxisView,
                AccountError<Seq<char>>,
            >(p.axis()) && p.auth_file@ == reg.name@ + ".auth"@ && edit_views(p.edits@)
                == registration_edits(reg.name@, p.axis(), reg.has_default) && p.note@
                == registration_text(reg.name@, p.axis(), reg.has_default),
            Err(e) => registration_of(*reg, texts(known@)) == Err::<
                AxisView,
                AccountError<Seq<char>>,
            >(e@),
        },
{
    if reg.account_exists && !reg.force {
        return Err(AccountError::Exists(reg.name.clone()));
    }
    if reg.target_exists && !reg.force {
        return Err(AccountError::FileExists(reg.target.clone()));
    }
    let (marketplaces, default_marketplaces) = match resolve_axis(reg, known) {
        Ok(axis) => axis,
        Err(e) => {
            return Err(e);
        },
    };
    let name = reg.name.as_str();
    let edits = edits_for(name, &marketplaces, &default_marketplaces, reg.has_default);
    let note = note_for(name, &marketplaces, &default_marketplaces, reg.has_default);
    Ok(
        RegistrationPlan {
            auth_file: cat2(name, ".auth"),
            marketplaces,
            default_marketplaces,
            edits,
            note,
        },
    )
}

/// An account that is registered has marketplaces, and uses some of them by
/// default and no others; what exists is replaced only where that was asked
/// for.
pub proof fn law_registration_is_sound(reg: Registration, known: Seq<Seq<char>>, cc: Seq<char>)
    requires
        registration_of(reg, known) is Ok,
    ensures
        ({
            let axis = registration_of(reg, known)->Ok_0;
            &&& axis.marketplaces.len() > 0
            &&& axis.defaults.len() > 0
            &&& axis.defaults.contains(cc) ==> axis.marketplaces.contains(cc)
            &&& reg.account_exists ==> reg.force
            &&& reg.target_exists ==> reg.force
        }),
{
    let axis = registration_of(reg, known)->Ok_0;
    if axis.defaults.contains(cc) {
        let i = choose|i: int| 0 <= i < axis.defaults.len() && axis.defaults[i] == cc;
        if reg.default_marketplaces is None {
            assert(axis.marketplaces.contains(axis.marketplaces[0]));
        }
    }
}

/// The state of an auth file by its contents.
pub open spec fn file_state(content: Option<Seq<u8>>) -> Seq<char> {
    match content {
        None => "MISSING"@,
        Some(bytes) => match document(bytes) {
            Some(json) => doc_state(json),
            None => "INVALID"@,
        },
    }
}

/// The state of an auth file by its document.
pub open spec fn doc_state(json: JsonView) -> Seq<char> {
    if field(json, "ciphertext"@) is Some {
        "encrypted"@
    } else if field(json, "data"@) is Some {
        "plain"@
    } else {
        "INVALID"@
    }
}

/// Tells the state of an auth file by its document.
pub fn document_state(json: &Json) -> (state: &'static str)
    ensures
        state@ == doc_state(json@),
{
    if json.get("ciphertext").is_some() {
        "encrypted"
    } else if json.get("data").is_some() {
        "plain"
    } else {
        "INVALID"
    }
}

/// Tells the state of an auth file by its contents, of which only the marks of
/// its format are looked at; there are none where it cannot be read.
pub fn auth_file_state(content: Option<&Vec<u8>>) -> (state: &'static str)
    ensures
        state@ == file_state(
            match content {
                Some(bytes) => Some(bytes@),
                None => None,
            },
        ),
{
    match content {
        None => "MISSING",
        Some(bytes) => match Json::parse(bytes.as_slice()) {
            Some(json) => document_state(&json),
            None => "INVALID",
        },
    }
}

/// The text with every dash as an underscore.
pub open spec fn underscored(s: Seq<char>) -> Seq<char> {
    s.map_values(
        |c: char|
            if c == '-' {
                '_'
            } else {
                c
            },
    )
}

/// The variable that holds the password of an account.
pub open spec fn variable_of(name: Seq<char>) -> Seq<char> {
    "AUDIBLE_AUTH_PASSWORD_"@ + underscored(raised(name))
}

/// The variable that holds the password of one account.
pub fn password_variable(name: &str) -> (variable: String)
    ensures
        variable@ == variable_of(name@),
{
    let chars = chars_of(to_ascii_upper(name).as_str());
    let ghost want = underscored(chars@);
    let mut text = String::new();
    let mut i: usize = 0;
    assert(text@ =~= want.subrange(0, 0));
    while i < chars.len()
        invariant
            i <= chars@.len(),
            want == underscored(chars@),
            text@ == want.subrange(0, i as int),
        decreases chars.len() - i,
    {
        let c = chars[i];
        text.push(
            if c == '-' {
                '_'
            } else {
                c
            },
        );
        i = i + 1;
        assert(text@ =~= want.subrange(0, i as int));
    }
    assert(want.subrange(0, i as int) =~= want);
    cat2("AUDIBLE_AUTH_PASSWORD_", text.as_str())
}

/// The password in the environment: the one of the account, or else the one for
/// all.
pub fn env_current_password(own: Option<String>, shared: Option<String>) -> (password: Option<
    String,
>)
    ensures
        password == (if own is Some {
            own
        } else {
            shared
        }),
{
    match own {
        Some(password) => Some(password),
        None => shared,
    }
}

/// What follows from a password that was typed twice.
#[derive(Clone, Copy, Debug, PartialEq, Eq, Structural)]
pub enum NewPassword {
    /// It is empty, and is asked for again.
    Empty,
    /// The two differ, and it is asked for again.
    Mismatch,
    /// It is taken.
    Taken,
}

/// What follows from a password that was typed twice.
pub open spec fn judged(first: Seq<char>, second: Seq<char>) -> NewPassword {
    if first.len() == 0 {
        NewPassword::Empty
    } else if first == second {
        NewPassword::Taken
    } else {
        NewPassword::Mismatch
    }
}

/// Judges a password that was typed twice; an empty one is not asked for again.
pub fn judge_password(first: &str, second: &str) -> (result: NewPassword)
    ensures
        result == judged(first@, second@),
{
    if first.is_empty() {
        NewPassword::Empty
    } else if crate::text::same(first, second) {
        NewPassword::Taken
    } else {
        NewPassword::Mismatch
    }
}

proof fn lemma_named_marketplaces(
    found: Seq<Seq<char>>,
    parts: Seq<Seq<char>>,
    known: Seq<Seq<char>>,
    cc: Seq<char>,
)
    ensures
        marketplaces_from(found, parts, known) is Ok <==> forall|i: int|
            0 <= i < parts.len() && trimmed(#[trigger] parts[i]).len() > 0 ==> known.contains(
                lowered(trimmed(parts[i])),
            ),
        marketplaces_from(found, parts, known) matches Ok(list) ==> (list.contains(cc)
            <==> found.contains(cc) || exists|i: int|
            0 <= i < parts.len() && trimmed(#[trigger] parts[i]).len() > 0 && lowered(
                trimmed(parts[i]),
            ) == cc),
    decreases parts.len(),
{
    if parts.len() > 0 {
        let rest = parts.drop_first();
        let code = lowered(trimmed(parts[0]));
        assert forall|k: int| 0 <= k < rest.len() implies (#[trigger] rest[k]) == parts[k + 1] by {}
        assert forall|k: int| 0 < k < parts.len() implies (#[trigger] parts[k]) == rest[k - 1] by {}
        let more = found.push(code);
        assert(more[found.len() as int] == code);
        if found.contains(cc) {
            let k = choose|k: int| 0 <= k < found.len() && found[k] == cc;
            assert(more[k] == cc);
        }
        assert(more.contains(cc) <==> found.contains(cc) || cc == code);
        lemma_named_marketplaces(found, rest, known, cc);
        lemma_named_marketplaces(more, rest, known, cc);
        if exists|i: int|
            0 <= i < rest.len() && trimmed(#[trigger] rest[i]).len() > 0 && lowered(
                trimmed(rest[i]),
            ) == cc {
            let i = choose|i: int|
                0 <= i < rest.len() && trimmed(#[trigger] rest[i]).len() > 0 && lowered(
                    trimmed(rest[i]),
                ) == cc;
            assert(trimmed(parts[i + 1]).len() > 0 && lowered(trimmed(parts[i + 1])) == cc);
        }
        if exists|i: int|
            0 <= i < parts.len() && trimmed(#[trigger] parts[i]).len() > 0 && lowered(
                trimmed(parts[i]),
            ) == cc {
            let i = choose|i: int|
                0 <= i < parts.len() && trimmed(#[trigger] parts[i]).len() > 0 && lowered(
                    trimmed(parts[i]),
                ) == cc;
            if i > 0 {
                assert(trimmed(rest[i - 1]).len() > 0 && lowered(trimmed(rest[i - 1])) == cc);
            }
        }
    }
}

/// The marketplaces of a list are those that its parts name, whatever the case of
/// their letters; the list is refused exactly where a part names none that is
/// known, or where no part names one.
pub proof fn law_marketplaces_are_those_named(
    raw: Seq<char>,
    known: Seq<Seq<char>>,
    cc: Seq<char>,
)
    ensures
        ({
            let parts = split_all(raw, ',');
            &&& marketplaces_of(raw, known) matches Ok(list) ==> (list.contains(cc) <==> exists|
                i: int,
            |
                0 <= i < parts.len() && trimmed(#[trigger] parts[i]).len() > 0 && lowered(
                    trimmed(parts[i]),
                ) == cc)
            &&& marketplaces_of(raw, known) is Ok <==> (forall|i: int|
                0 <= i < parts.len() && trimmed(#[trigger] parts[i]).len() > 0 ==> known.contains(
                    lowered(trimmed(parts[i])),
                )) && exists|i: int|
                0 <= i < parts.len() && trimmed(#[trigger] parts[i]).len() > 0
        }),
{
    let parts = split_all(raw, ',');
    lemma_named_marketplaces(Seq::empty(), parts, known, cc);
    if let Ok(list) = marketplaces_from(Seq::empty(), parts, known) {
        if list.len() > 0 {
            lemma_named_marketplaces(Seq::empty(), parts, known, list[0]);
            assert(list.contains(list[0]));
        }
        if exists|i: int| 0 <= i < parts.len() && trimmed(#[trigger] parts[i]).len() > 0 {
            let i = choose|i: int| 0 <= i < parts.len() && trimmed(#[trigger] parts[i]).len() > 0;
            lemma_named_marketplaces(Seq::empty(), parts, known, lowered(trimmed(parts[i])));
            assert(list.contains(lowered(trimmed(parts[i]))));
        }
    }
}

/// The name of an account is as long as the stem that it comes from, and keeps its
/// small letters, digits, dashes and underscores; everything else becomes a dash.
pub proof fn law_names_keep_what_a_name_may_hold(stem: Seq<char>, i: int)
    requires
        0 <= i < stem.len(),
    ensures
        name_of_stem(stem).len() == stem.len(),
        name_of_stem(stem)[i] == stem[i] || name_of_stem(stem)[i] == '-',
        ('a' <= stem[i] && stem[i] <= 'z') || ('0' <= stem[i] && stem[i] <= '9') || stem[i] == '_'
            ==> name_of_stem(stem)[i] == stem[i],
        !(('a' <= stem[i] && stem[i] <= 'z') || ('0' <= stem[i] && stem[i] <= '9') || stem[i]
            == '_') ==> name_of_stem(stem)[i] == '-',
        name_of_stem(Seq::empty()) == "main"@,
{
}

/// A registration has the marketplaces that were given, and uses by default those
/// that were given for that: without them, the one that it is made in, and the first
/// of its own. It is refused where it would replace something unasked.
pub proof fn law_registrations_have_what_was_given(reg: Registration, known: Seq<Seq<char>>)
    ensures
        reg.account_exists && !reg.force ==> registration_of(reg, known) == Err::<
            AxisView,
            AccountError<Seq<char>>,
        >(AccountError::Exists(reg.name@)),
        !reg.account_exists && reg.target_exists && !reg.force ==> registration_of(reg, known)
            == Err::<AxisView, AccountError<Seq<char>>>(AccountError::FileExists(reg.target@)),
        registration_of(reg, known) matches Ok(axis) ==> {
            &&& reg.marketplaces matches Some(raw) ==> marketplaces_of(raw@, known) == Ok::<
                Seq<Seq<char>>,
                AccountError<Seq<char>>,
            >(axis.marketplaces)
            &&& reg.marketplaces is None ==> axis.marketplaces == seq![reg.registered@]
            &&& reg.default_marketplaces matches Some(raw) ==> marketplaces_of(raw@, known) == Ok::<
                Seq<Seq<char>>,
                AccountError<Seq<char>>,
            >(axis.defaults)
            &&& reg.default_marketplaces is None ==> axis.defaults == seq![axis.marketplaces[0]]
        },
        (reg.force || !reg.account_exists && !reg.target_exists) && reg.marketplaces is None
            && reg.default_marketplaces is None ==> registration_of(reg, known) is Ok,
{
}

/// What a registration stores says all of the account: its file, its marketplaces
/// and those that it uses by default; it becomes the default account exactly where
/// there is none yet.
pub proof fn law_registrations_are_stored(name: Seq<char>, axis: AxisView, has_default: bool)
    ensures
        ({
            let edits = registration_edits(name, axis, has_default);
            &&& edits.contains(EditView::Assign(account_key(name, "auth_file"@), name + ".auth"@))
            &&& edits.contains(
                EditView::AssignList(account_key(name, "marketplaces"@), axis.marketplaces),
            )
            &&& edits.contains(
                EditView::AssignList(account_key(name, "default_marketplaces"@), axis.defaults),
            )
            &&& !has_default ==> edits.contains(EditView::Assign("default_account"@, name))
            &&& edits.len() == if has_default {
                3int
            } else {
                4
            }
        }),
{
    let edits = registration_edits(name, axis, has_default);
    assert(edits.contains(edits[0]));
    assert(edits.contains(edits[1]));
    assert(edits.contains(edits[2]));
    if !has_default {
        assert(edits.contains(edits[3]));
    }
}

/// An auth file counts as encrypted where it holds a ciphertext, as plain where it
/// holds its data, and as neither where it holds none of them.
pub proof fn law_auth_files_are_told_by_what_they_hold(json: JsonView, bytes: Seq<u8>)
    ensures
        doc_state(json) == "encrypted"@ <==> field(json, "ciphertext"@) is Some,
        doc_state(json) == "plain"@ <==> field(json, "ciphertext"@) is None && field(json, "data"@)
            is Some,
        file_state(None) == "MISSING"@,
        document(bytes) is None ==> file_state(Some(bytes)) == "INVALID"@,
        document(bytes) == Some(json) ==> file_state(Some(bytes)) == doc_state(json),
{
    reveal_strlit("encrypted");
    reveal_strlit("plain");
    reveal_strlit("INVALID");
    assert("encrypted"@.len() == 9);
    assert("plain"@.len() == 5);
    assert("INVALID"@.len() == 7);
}

/// A password is taken exactly where it is not empty and was typed the same twice.
pub proof fn law_passwords_are_typed_twice(first: Seq<char>, second: Seq<char>)
    ensures
        judged(first, second) is Taken <==> first.len() > 0 && first == second,
        judged(first, second) is Empty <==> first.len() == 0,
{
}

/// The variable of an account ends in its name, in capitals and with underscores in
/// place of dashes, character by character.
pub proof fn law_variables_are_named_after_the_account(name: Seq<char>, i: int)
    requires
        0 <= i < name.len(),
    ensures
        ({
            let head = "AUDIBLE_AUTH_PASSWORD_"@.len() as int;
            let variable = variable_of(name);
            &&& variable.len() == head + name.len()
            &&& variable.subrange(0, head) == "AUDIBLE_AUTH_PASSWORD_"@
            &&& name[i] == '-' ==> variable[head + i] == '_'
            &&& ('A' <= name[i] && name[i] <= 'Z') || ('0' <= name[i] && name[i] <= '9') || name[i]
                == '_' ==> variable[head + i] == name[i]
            &&& 'a' <= name[i] && name[i] <= 'z' ==> variable[head + i] == (name[i] as u32
                - 32) as char
        }),
{
    let head = "AUDIBLE_AUTH_PASSWORD_"@.len() as int;
    assert(variable_of(name).subrange(0, head) =~= "AUDIBLE_AUTH_PASSWORD_"@);
}

/// The name of an account is that of its file, without its directory and extension, in
/// small letters.
pub proof fn law_accounts_are_named_after_their_file(stem: Seq<char>, ext: Seq<char>)
    requires
        stem.len() > 0,
        !stem.contains('/'),
        ext.len() > 0,
        !ext.contains('.'),
        !ext.contains('/'),
    ensures
        name_for(stem + "."@ + ext) == name_of_stem(unicode_lower(stem)),
{
    reveal_strlit(".");
    let path = stem + "."@ + ext;
    assert(stem.last() != '/') by {
        assert(stem.contains(stem.last()));
    }
    crate::paths::law_extensions_stand_behind_the_last_dot(stem, ext);
    assert forall|k: int| -1 < k < path.len() implies path[k] != '/' by {
        if k < stem.len() {
            assert(stem.contains(stem[k]));
        } else if k > stem.len() {
            assert(ext.contains(ext[k - stem.len() - 1]));
            assert(path[k] == ext[k - stem.len() - 1]);
        }
    }
    crate::text::lemma_last_at_is(path, '/', -1);
    assert(path.last() == ext.last());
    assert(ext.last() != '.' && ext.last() != '/') by {
        assert(ext.contains(ext.last()));
    }
    assert(crate::paths::without_tail(path) == path);
    assert(crate::paths::last_segment(path) =~= path);
    assert(path.last() != '.');
    assert(seq!['.'].last() == '.');
    assert(seq!['.', '.'].last() == '.');
    assert(path.subrange(0, stem.len() as int) =~= stem);
}

} // verus!
