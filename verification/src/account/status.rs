//! The memberships of an account.

use vstd::prelude::*;
use vstd::string::StringExecFns;
use crate::lists::push_text;
use crate::tables::row5;
use crate::text::cat3;
use crate::text::empty_text;
use crate::text::opt_text;
use crate::text::split_once;
use crate::text::split_once_spec;
use crate::text::texts;

verus! {

/// A sum of money; the amount is written out to two places.
#[derive(Debug)]
pub struct Money {
    /// The amount.
    pub amount: Option<String>,
    /// The currency.
    pub currency: Option<String>,
}

/// How a sum is shown; empty where there is no amount.
pub open spec fn money_text(amount: Option<Seq<char>>, currency: Option<Seq<char>>) -> Seq<char> {
    match (amount, currency) {
        (Some(a), Some(c)) => a + " "@ + c,
        (Some(a), None) => a,
        _ => Seq::empty(),
    }
}

impl Money {
    /// How the sum is shown.
    pub fn display(&self) -> (text: String)
        ensures
            text@ == money_text(opt_text(self.amount), opt_text(self.currency)),
    {
        match &self.amount {
            Some(amount) => match &self.currency {
                Some(currency) => cat3(amount.as_str(), " ", currency.as_str()),
                None => amount.clone(),
            },
            None => empty_text(),
        }
    }
}

/// A membership.
#[derive(Debug)]
pub struct SubscriptionDetail {
    /// Its state.
    pub status: Option<String>,
    /// Whether it renews itself.
    pub auto_renew_enabled: Option<bool>,
    /// Since when it is there.
    pub subscription_start_date: Option<String>,
    /// When it ends.
    pub expected_status_end_date: Option<String>,
    /// When the next bill comes.
    pub next_bill_date: Option<String>,
    /// How much that is.
    pub next_bill_amount: Option<Money>,
    /// The name of the plan.
    pub plan_title: Option<String>,
}

/// The day of a time: what stands before its first `T`.
pub open spec fn day_part(timestamp: Seq<char>) -> Seq<char> {
    match split_once_spec(timestamp, 'T') {
        Some((day, _)) => day,
        None => timestamp,
    }
}

/// The day of a time, `2026-07-15T…` as `2026-07-15`.
pub fn date_only(timestamp: &str) -> (day: String)
    ensures
        day@ == day_part(timestamp@),
{
    match split_once(timestamp, 'T') {
        Some((day, _)) => day,
        None => String::from_str(timestamp),
    }
}

/// A day that may be missing.
pub open spec fn day_or_dash(timestamp: Option<Seq<char>>) -> Seq<char> {
    match timestamp {
        Some(t) => day_part(t),
        None => "-"@,
    }
}

fn show_day(timestamp: &Option<String>) -> (day: String)
    ensures
        day@ == day_or_dash(opt_text(*timestamp)),
{
    match timestamp {
        Some(t) => date_only(t.as_str()),
        None => String::from_str("-"),
    }
}

/// The text of a sum that may be missing.
pub open spec fn amount_of(money: Option<Money>) -> Seq<char> {
    match money {
        Some(m) => money_text(opt_text(m.amount), opt_text(m.currency)),
        None => Seq::empty(),
    }
}

/// The next bill of a membership: there is one only where it renews itself.
pub open spec fn next_bill(detail: SubscriptionDetail) -> Seq<char> {
    if detail.auto_renew_enabled == Some(true) {
        match detail.next_bill_date {
            Some(date) => if amount_of(detail.next_bill_amount).len() > 0 {
                day_part(date@) + " "@ + amount_of(detail.next_bill_amount)
            } else {
                day_part(date@)
            },
            None => "-"@,
        }
    } else {
        "-"@
    }
}

/// A text that may be missing or empty.
pub open spec fn filled_or_dash(text: Option<Seq<char>>) -> Seq<char> {
    match text {
        Some(t) => if t.len() > 0 {
            t
        } else {
            "-"@
        },
        None => "-"@,
    }
}

fn or_dash(text: &str) -> (result: String)
    ensures
        result@ == filled_or_dash(Some(text@)),
{
    if text.is_empty() {
        String::from_str("-")
    } else {
        String::from_str(text)
    }
}

/// The row of a membership.
pub open spec fn membership_cells(
    detail: SubscriptionDetail,
    marketplace: Seq<char>,
    segment: Seq<char>,
) -> Seq<Seq<char>> {
    seq![
        marketplace,
        filled_or_dash(opt_text(detail.plan_title)),
        match detail.status {
            Some(status) => status@,
            None => "-"@,
        },
        match detail.auto_renew_enabled {
            Some(renews) => if renews {
                "yes"@
            } else {
                "no"@
            },
            None => "-"@,
        },
        next_bill(detail),
        day_or_dash(opt_text(detail.expected_status_end_date)),
        day_or_dash(opt_text(detail.subscription_start_date)),
        filled_or_dash(Some(segment)),
    ]
}

impl SubscriptionDetail {
    fn show_bill(&self) -> (text: String)
        ensures
            text@ == next_bill(*self),
    {
        let renews = match self.auto_renew_enabled {
            Some(flag) => flag,
            None => false,
        };
        if !renews {
            return String::from_str("-");
        }
        let day = match &self.next_bill_date {
            Some(date) => date_only(date.as_str()),
            None => {
                return String::from_str("-");
            },
        };
        match &self.next_bill_amount {
            Some(money) => {
                let shown = money.display();
                if shown.as_str().is_empty() {
                    day
                } else {
                    cat3(day.as_str(), " ", shown.as_str())
                }
            },
            None => day,
        }
    }

    /// The row of the membership: its marketplace, plan and state, whether it
    /// renews itself, its next bill, its end and its start, and the segment of
    /// the account.
    pub fn into_row(&self, marketplace: &str, segment: &str) -> (row: Vec<String>)
        ensures
            texts(row@) == membership_cells(*self, marketplace@, segment@),
    {
        let plan = match &self.plan_title {
            Some(title) => or_dash(title.as_str()),
            None => String::from_str("-"),
        };
        let status = match &self.status {
            Some(status) => status.clone(),
            None => String::from_str("-"),
        };
        let renews = match self.auto_renew_enabled {
            Some(flag) => if flag {
                "yes"
            } else {
                "no"
            },
            None => "-",
        };
        let mut row = row5(
            String::from_str(marketplace),
            plan,
            status,
            String::from_str(renews),
            self.show_bill(),
        );
        push_text(&mut row, show_day(&self.expected_status_end_date));
        push_text(&mut row, show_day(&self.subscription_start_date));
        push_text(&mut row, or_dash(segment));
        assert(texts(row@) =~= membership_cells(*self, marketplace@, segment@));
        row
    }
}

/// A membership that does not renew itself shows no bill, whatever the server
/// says of one.
pub proof fn law_cancelled_memberships_owe_nothing(detail: SubscriptionDetail)
    requires
        detail.auto_renew_enabled != Some(true),
    ensures
        next_bill(detail) == "-"@,
{
}

/// The row of a membership shows each of its properties in its column: a dash
/// stands for what is not known.
pub proof fn law_membership_rows_show_each_property(
    detail: SubscriptionDetail,
    marketplace: Seq<char>,
    segment: Seq<char>,
)
    ensures
        ({
            let row = membership_cells(detail, marketplace, segment);
            &&& row.len() == 8
            &&& row[0] == marketplace
            &&& detail.plan_title matches Some(title) ==> title@.len() > 0 ==> row[1] == title@
            &&& detail.plan_title is None ==> row[1] == "-"@
            &&& detail.status matches Some(status) ==> row[2] == status@
            &&& detail.auto_renew_enabled == Some(true) ==> row[3] == "yes"@
            &&& detail.auto_renew_enabled == Some(false) ==> row[3] == "no"@
            &&& detail.auto_renew_enabled is None ==> row[3] == "-"@
            &&& row[4] == next_bill(detail)
            &&& detail.expected_status_end_date matches Some(date) ==> row[5] == day_part(date@)
            &&& detail.subscription_start_date matches Some(date) ==> row[6] == day_part(date@)
            &&& segment.len() > 0 ==> row[7] == segment
        }),
{
}

/// A membership that renews itself owes its next bill: on its day, with its amount
/// and the currency of it.
pub proof fn law_renewing_memberships_show_their_bill(
    detail: SubscriptionDetail,
    date: Seq<char>,
    amount: Seq<char>,
    currency: Seq<char>,
)
    requires
        detail.auto_renew_enabled == Some(true),
        opt_text(detail.next_bill_date) == Some(date),
        amount.len() > 0,
    ensures
        detail.next_bill_amount is None ==> next_bill(detail) == day_part(date),
        detail.next_bill_amount matches Some(money) ==> opt_text(money.amount) == Some(amount)
            && opt_text(money.currency) == Some(currency) ==> next_bill(detail) == day_part(date)
            + " "@ + (amount + " "@ + currency),
        detail.next_bill_amount matches Some(money) ==> opt_text(money.amount) == Some(amount)
            && money.currency is None ==> next_bill(detail) == day_part(date) + " "@ + amount,
{
}

} // verus!
