//! What keeps a command on the library from being carried out.

use vstd::prelude::*;
use vstd::string::StringExecFns;
use crate::text::cat2;
use crate::text::cat3;
use crate::text::cat4;
use crate::text::decimal;
use crate::text::number;
use crate::text::quoted;
use crate::text::quoted_form;

verus! {

/// What keeps a command on the library from being carried out; `T` holds the
/// texts that are named.
#[derive(Debug)]
pub enum LibraryError<T> {
    /// No podcast matches.
    NoShow(T),
    /// Several podcasts match.
    AmbiguousShow {
        /// What was asked for.
        show: T,
        /// The podcasts, one behind the other.
        listing: T,
    },
    /// There is nothing to search for.
    EmptyQuery,
    /// A `--since` is no time.
    Since(T),
    /// Some marketplaces could not be synced.
    SyncFailed {
        /// How many.
        failures: usize,
        /// Of how many.
        total: usize,
    },
    /// Nothing was given to add.
    NothingToAdd,
    /// Nothing was given to remove.
    NothingToRemove,
}

impl View for LibraryError<String> {
    type V = LibraryError<Seq<char>>;

    open spec fn view(&self) -> LibraryError<Seq<char>> {
        match *self {
            LibraryError::NoShow(show) => LibraryError::NoShow(show@),
            LibraryError::AmbiguousShow { show, listing } => LibraryError::AmbiguousShow {
                show: show@,
                listing: listing@,
            },
            LibraryError::EmptyQuery => LibraryError::EmptyQuery,
            LibraryError::Since(raw) => LibraryError::Since(raw@),
            LibraryError::SyncFailed { failures, total } => LibraryError::SyncFailed {
                failures,
                total,
            },
            LibraryError::NothingToAdd => LibraryError::NothingToAdd,
            LibraryError::NothingToRemove => LibraryError::NothingToRemove,
        }
    }
}

impl LibraryError<String> {
    /// The words that tell the user of the fault.
    pub fn message(&self) -> (text: String)
        ensures
            text@ == match self@ {
                LibraryError::NoShow(show) => "no followed podcast matches "@ + quoted_form(show),
                LibraryError::AmbiguousShow { show, listing } => quoted_form(show)
                    + " is ambiguous: "@ + listing,
                LibraryError::EmptyQuery => "the search query is empty"@,
                LibraryError::Since(raw) => "--since "@ + quoted_form(raw)
                    + " is not a recognized time — use YYYY-MM-DD or YYYY-MM-DDTHH:MM:SSZ"@,
                LibraryError::SyncFailed { failures, total } => decimal(failures as int) + " of "@
                    + decimal(total as int) + " marketplace(s) failed to sync"@,
                LibraryError::NothingToAdd => "nothing to add — pass --asin or --title"@,
                LibraryError::NothingToRemove => "nothing to remove — pass --asin or --title"@,
            },
    {
        match self {
            LibraryError::NoShow(show) => cat2(
                "no followed podcast matches ",
                quoted(show.as_str()).as_str(),
            ),
            LibraryError::AmbiguousShow { show, listing } => cat3(
                quoted(show.as_str()).as_str(),
                " is ambiguous: ",
                listing.as_str(),
            ),
            LibraryError::EmptyQuery => String::from_str("the search query is empty"),
            LibraryError::Since(raw) => cat3(
                "--since ",
                quoted(raw.as_str()).as_str(),
                " is not a recognized time — use YYYY-MM-DD or YYYY-MM-DDTHH:MM:SSZ",
            ),
            LibraryError::SyncFailed { failures, total } => cat4(
                number(*failures as u64).as_str(),
                " of ",
                number(*total as u64).as_str(),
                " marketplace(s) failed to sync",
            ),
            LibraryError::NothingToAdd => String::from_str("nothing to add — pass --asin or --title"),
            LibraryError::NothingToRemove => String::from_str(
                "nothing to remove — pass --asin or --title",
            ),
        }
    }
}

} // verus!
