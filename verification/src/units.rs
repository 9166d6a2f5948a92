//! Amounts as people read them.

use vstd::prelude::*;
use vstd::string::StringExecFns;

verus! {

/// What `indicatif::BinaryBytes` shows for a number of bytes.
pub uninterp spec fn binary_bytes(n: u64) -> Seq<char>;

/// `indicatif::BinaryBytes`, shown: the text depends on the number alone and is
/// named `binary_bytes`.
#[verifier::external_body]
pub(crate) fn show_bytes(n: u64) -> (text: String)
    ensures
        text@ == binary_bytes(n),
{
    format!("{}", indicatif::BinaryBytes(n))
}

/// What a size is shown as; a dash where there is none.
pub open spec fn size_text(size: Option<u64>) -> Seq<char> {
    match size {
        Some(n) => binary_bytes(n),
        None => "-"@,
    }
}

/// What a size is shown as; a dash where there is none.
pub fn human_size(size: Option<u64>) -> (text: String)
    ensures
        text@ == size_text(size),
{
    match size {
        Some(n) => show_bytes(n),
        None => String::from_str("-"),
    }
}

} // verus!
