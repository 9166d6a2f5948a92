//! What keeps a command on an account from being carried out.

use vstd::prelude::*;
use vstd::string::StringExecFns;
use crate::text::cat2;
use crate::text::cat3;
use crate::text::cat4;
use crate::text::cat5;
use crate::text::quoted;
use crate::text::quoted_form;

verus! {

/// What keeps a command on an account from being carried out; `T` holds the
/// texts that are named.
#[derive(Debug)]
pub enum AccountError<T> {
    /// There is no such account.
    Unknown(T),
    /// There is such an account already, and it is not to be replaced.
    Exists(T),
    /// There is such an account already.
    Taken(T),
    /// The account has this name already.
    SameName(T),
    /// The name cannot be used, for this reason.
    InvalidName(T),
    /// The file is there already.
    FileExists(T),
    /// There is no such marketplace.
    UnknownMarketplace(T),
    /// No marketplace was given.
    NoMarketplace,
    /// A default marketplace is none of those of the account.
    NotAvailable {
        /// The marketplace.
        entry: T,
        /// Those of the account.
        available: T,
    },
    /// The account does not have this marketplace.
    NotListed {
        /// The account.
        name: T,
        /// The marketplace.
        marketplace: T,
    },
    /// The auth file is not encrypted.
    AlreadyPlain(T),
    /// The auth file is not encrypted, but has to be.
    Unencrypted(T),
    /// A command for the password is needed.
    NoCommand,
    /// The device is no Android device.
    NotAndroid(T),
    /// No marketplace to register in was given.
    NoRegistration,
    /// More than one marketplace to register in was given.
    SeveralRegistrations,
    /// There is no such marketplace to register in.
    UnknownRegistration(T),
    /// A username cannot be used in this marketplace.
    UsernameLogin,
}

impl View for AccountError<String> {
    type V = AccountError<Seq<char>>;

    open spec fn view(&self) -> AccountError<Seq<char>> {
        match *self {
            AccountError::Unknown(name) => AccountError::Unknown(name@),
            AccountError::Exists(name) => AccountError::Exists(name@),
            AccountError::Taken(name) => AccountError::Taken(name@),
            AccountError::SameName(name) => AccountError::SameName(name@),
            AccountError::InvalidName(reason) => AccountError::InvalidName(reason@),
            AccountError::FileExists(path) => AccountError::FileExists(path@),
            AccountError::UnknownMarketplace(cc) => AccountError::UnknownMarketplace(cc@),
            AccountError::NoMarketplace => AccountError::NoMarketplace,
            AccountError::NotAvailable { entry, available } => AccountError::NotAvailable {
                entry: entry@,
                available: available@,
            },
            AccountError::NotListed { name, marketplace } => AccountError::NotListed {
                name: name@,
                marketplace: marketplace@,
            },
            AccountError::AlreadyPlain(name) => AccountError::AlreadyPlain(name@),
            AccountError::Unencrypted(name) => AccountError::Unencrypted(name@),
            AccountError::NoCommand => AccountError::NoCommand,
            AccountError::NotAndroid(kind) => AccountError::NotAndroid(kind@),
            AccountError::NoRegistration => AccountError::NoRegistration,
            AccountError::SeveralRegistrations => AccountError::SeveralRegistrations,
            AccountError::UnknownRegistration(cc) => AccountError::UnknownRegistration(cc@),
            AccountError::UsernameLogin => AccountError::UsernameLogin,
        }
    }
}

impl AccountError<String> {
    /// The words that tell the user of the fault.
    pub fn message(&self) -> (text: String)
        ensures
            text@ == match self@ {
                AccountError::Unknown(name) => "unknown account "@ + quoted_form(name),
                AccountError::Exists(name) => "account "@ + quoted_form(name)
                    + " already exists (use --force to replace it)"@,
                AccountError::Taken(name) => "account "@ + quoted_form(name) + " already exists"@,
                AccountError::SameName(name) => "account is already named "@ + quoted_form(name),
                AccountError::InvalidName(reason) => reason,
                AccountError::FileExists(path) => path
                    + " already exists (use --force to overwrite)"@,
                AccountError::UnknownMarketplace(cc) => "unknown marketplace "@ + quoted_form(cc)
                    + " (e.g. de, us, uk, fr, ca, it, au, in, jp, es, br)"@,
                AccountError::NoMarketplace => "no marketplace given"@,
                AccountError::NotAvailable { entry, available } =>
                    "--default-marketplaces entry "@ + quoted_form(entry)
                        + " is not in --marketplaces ("@ + available + ")"@,
                AccountError::NotListed { name, marketplace } => "account "@ + quoted_form(name)
                    + " does not list marketplace "@ + quoted_form(marketplace),
                AccountError::AlreadyPlain(name) => "auth file of "@ + quoted_form(name)
                    + " is already unencrypted"@,
                AccountError::Unencrypted(name) => "auth file of "@ + quoted_form(name)
                    + " is unencrypted — encrypt it first with `account password set "@ + name
                    + "` before using password_source = file"@,
                AccountError::NoCommand => "mode 'command' requires --command <CMD>"@,
                AccountError::NotAndroid(kind) =>
                    "Widevine needs an Android-registered device, but this account is registered as "@
                        + quoted_form(kind)
                        + ". Register an Android device with `account login --device android`."@,
                AccountError::NoRegistration =>
                    "specify the registration marketplace with -m <cc> (e.g. -m de)"@,
                AccountError::SeveralRegistrations =>
                    "account login registers in a single marketplace; pass one -m <cc> (e.g. -m de)"@,
                AccountError::UnknownRegistration(cc) => "unknown marketplace "@ + quoted_form(cc)
                    + " (e.g. de, us, uk, fr)"@,
                AccountError::UsernameLogin =>
                    "username (pre-merger Audible) login is only available for the de, us and uk marketplaces"@,
            },
    {
        match self {
            AccountError::Unknown(name) => cat2(
                "unknown account ",
                quoted(name.as_str()).as_str(),
            ),
            AccountError::Exists(name) => cat3(
                "account ",
                quoted(name.as_str()).as_str(),
                " already exists (use --force to replace it)",
            ),
            AccountError::Taken(name) => cat3(
                "account ",
                quoted(name.as_str()).as_str(),
                " already exists",
            ),
            AccountError::SameName(name) => cat2(
                "account is already named ",
                quoted(name.as_str()).as_str(),
            ),
            AccountError::InvalidName(reason) => reason.clone(),
            AccountError::FileExists(path) => cat2(
                path.as_str(),
                " already exists (use --force to overwrite)",
            ),
            AccountError::UnknownMarketplace(cc) => cat3(
                "unknown marketplace ",
                quoted(cc.as_str()).as_str(),
                " (e.g. de, us, uk, fr, ca, it, au, in, jp, es, br)",
            ),
            AccountError::NoMarketplace => String::from_str("no marketplace given"),
            AccountError::NotAvailable { entry, available } => cat5(
                "--default-marketplaces entry ",
                quoted(entry.as_str()).as_str(),
                " is not in --marketplaces (",
                available.as_str(),
                ")",
            ),
            AccountError::NotListed { name, marketplace } => cat4(
                "account ",
                quoted(name.as_str()).as_str(),
                " does not list marketplace ",
                quoted(marketplace.as_str()).as_str(),
            ),
            AccountError::AlreadyPlain(name) => cat3(
                "auth file of ",
                quoted(name.as_str()).as_str(),
                " is already unencrypted",
            ),
            AccountError::Unencrypted(name) => cat5(
                "auth file of ",
                quoted(name.as_str()).as_str(),
                " is unencrypted — encrypt it first with `account password set ",
                name.as_str(),
                "` before using password_source = file",
            ),
            AccountError::NoCommand => String::from_str("mode 'command' requires --command <CMD>"),
            AccountError::NotAndroid(kind) => cat3(
                "Widevine needs an Android-registered device, but this account is registered as ",
                quoted(kind.as_str()).as_str(),
                ". Register an Android device with `account login --device android`.",
            ),
            AccountError::NoRegistration => String::from_str(
                "specify the registration marketplace with -m <cc> (e.g. -m de)",
            ),
            AccountError::SeveralRegistrations => String::from_str(
                "account login registers in a single marketplace; pass one -m <cc> (e.g. -m de)",
            ),
            AccountError::UnknownRegistration(cc) => cat3(
                "unknown marketplace ",
                quoted(cc.as_str()).as_str(),
                " (e.g. de, us, uk, fr)",
            ),
            AccountError::UsernameLogin => String::from_str(
                "username (pre-merger Audible) login is only available for the de, us and uk marketplaces",
            ),
        }
    }
}

} // verus!
