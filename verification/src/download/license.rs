//! Licenses: whether a stored one still serves, and what a grant says.

use vstd::prelude::*;
use vstd::string::StringExecFns;
use crate::text::cat3;
use crate::text::decimal;
use crate::text::empty_text;
use crate::text::number;
use crate::text::opt_str;
use crate::text::opt_text;
use crate::text::parse_signed;
use crate::text::same;
use crate::text::signed_value;
use crate::text_map::pairs_of;

verus! {

/// How many seconds before its end a signed URL counts as expired, so that a
/// long transfer does not outlast it.
pub const LICENSE_URL_EXPIRY_MARGIN_SECS: i64 = 300;

/// The query pairs that `url::Url` finds in a URL; nothing where the text is no
/// URL.
pub uninterp spec fn query_of(url: Seq<char>) -> Option<Seq<(Seq<char>, Seq<char>)>>;

/// `url::Url::parse` and the `query_pairs` of what it parsed: the result depends
/// on the text alone and is named `query_of`.
#[verifier::external_body]
pub(crate) fn url_query(url: &str) -> (pairs: Option<Vec<(String, String)>>)
    ensures
        match pairs {
            Some(list) => query_of(url@) == Some(pairs_of(list@)),
            None => query_of(url@) is None,
        },
{
    url::Url::parse(url).ok().map(|parsed| parsed.query_pairs().into_owned().collect())
}

/// The number that the first `Expires` pair holds; nothing where there is none,
/// or where it is no number.
pub open spec fn expires_in(pairs: Seq<(Seq<char>, Seq<char>)>) -> Option<int>
    decreases pairs.len(),
{
    if pairs.len() == 0 {
        None
    } else if pairs[0].0 == "Expires"@ {
        signed_value(pairs[0].1)
    } else {
        expires_in(pairs.drop_first())
    }
}

/// When a URL expires, in seconds since 1970.
pub open spec fn expires_at(url: Seq<char>) -> Option<int> {
    match query_of(url) {
        Some(pairs) => expires_in(pairs),
        None => None,
    }
}

/// Finds the number that the first `Expires` pair holds.
pub fn find_expires(pairs: &Vec<(String, String)>) -> (epoch: Option<i64>)
    ensures
        match epoch {
            Some(n) => expires_in(pairs_of(pairs@)) == Some(n as int),
            None => expires_in(pairs_of(pairs@)) is None,
        },
{
    let ghost all = pairs_of(pairs@);
    let mut i: usize = 0;
    assert(all.subrange(0, all.len() as int) =~= all);
    while i < pairs.len()
        invariant
            i <= pairs@.len(),
            all == pairs_of(pairs@),
            expires_in(all) == expires_in(all.subrange(i as int, all.len() as int)),
        decreases pairs.len() - i,
    {
        let ghost rest = all.subrange(i as int, all.len() as int);
        assert(rest[0] == (pairs@[i as int].0@, pairs@[i as int].1@));
        assert(rest.drop_first() =~= all.subrange(i + 1, all.len() as int));
        if same(pairs[i].0.as_str(), "Expires") {
            return parse_signed(pairs[i].1.as_str());
        }
        i = i + 1;
    }
    None
}

/// When a signed URL expires, where it says so.
pub fn url_expires_epoch(url: &str) -> (epoch: Option<i64>)
    ensures
        match epoch {
            Some(n) => expires_at(url@) == Some(n as int),
            None => expires_at(url@) is None,
        },
{
    match url_query(url) {
        Some(pairs) => find_expires(&pairs),
        None => None,
    }
}

/// Whether a moment counts as past: it is, or will be within the margin.
pub open spec fn lapsed(expires: Option<int>, now: int) -> bool {
    match expires {
        Some(at) => at <= now + LICENSE_URL_EXPIRY_MARGIN_SECS,
        None => false,
    }
}

/// Decides whether a moment counts as past.
pub fn is_lapsed(expires: Option<i64>, now: i64) -> (yes: bool)
    ensures
        yes == lapsed(
            match expires {
                Some(at) => Some(at as int),
                None => None,
            },
            now as int,
        ),
{
    match expires {
        Some(at) => (at as i128) <= (now as i128) + 300,
        None => false,
    }
}

/// Whether the address in a license counts as past; one without an address does not.
pub open spec fn url_lapsed(offline_url: Option<Seq<char>>, now: int) -> bool {
    match offline_url {
        Some(url) => lapsed(expires_at(url), now),
        None => false,
    }
}

/// Whether the download URL of a stored license has expired. The key of a
/// license serves for ever, its URL only for hours: this is asked only where
/// the audio is to be fetched.
pub fn license_url_expired(offline_url: Option<&str>, now: i64) -> (expired: bool)
    ensures
        expired == url_lapsed(opt_str(offline_url), now as int),
{
    match offline_url {
        Some(url) => is_lapsed(url_expires_epoch(url), now),
        None => false,
    }
}

/// Whether a license was refused because there is no asset in the portable
/// format, which the code says.
pub fn is_no_aaxc_asset(error_code: Option<&str>) -> (yes: bool)
    ensures
        yes == (opt_str(error_code) == Some("000307"@)),
{
    match error_code {
        Some(code) => same(code, "000307"),
        None => false,
    }
}

/// What a license says.
#[derive(Debug)]
pub struct License {
    /// The item.
    pub asin: String,
    /// The status.
    pub status_code: String,
    /// Whether it was granted.
    pub granted: bool,
    /// Why it was not.
    pub denial_message: Option<String>,
    /// The protection.
    pub drm_type: Option<String>,
    /// The format.
    pub content_format: Option<String>,
    /// The size of the audio.
    pub content_size: Option<u64>,
    /// Whether it carries a voucher.
    pub has_voucher: bool,
    /// Whether it names a PDF.
    pub pdf_url: bool,
    /// Whether it names a download.
    pub offline_url: bool,
}

/// What came of decrypting a voucher.
#[derive(Debug)]
pub enum VoucherProbe {
    /// It could be decrypted.
    Decrypted,
    /// It could not, for this reason.
    Failed(String),
    /// What is needed to try it is missing.
    NoDeviceData,
}

/// Why a license was denied.
pub open spec fn denial(license: License) -> Option<Seq<char>> {
    if license.granted {
        None
    } else {
        Some(
            match license.denial_message {
                Some(message) => message@,
                None => "no reason given"@,
            },
        )
    }
}

/// Why a license was denied; nothing where it was granted.
pub fn denial_reason(license: &License) -> (reason: Option<String>)
    ensures
        opt_text(reason) == denial(*license),
{
    if license.granted {
        None
    } else {
        Some(
            match &license.denial_message {
                Some(message) => message.clone(),
                None => String::from_str("no reason given"),
            },
        )
    }
}

/// What is said of the voucher: a dash where there is none.
pub open spec fn voucher_state(license: License, probe: VoucherProbe) -> Seq<char> {
    if !license.has_voucher {
        "-"@
    } else {
        match probe {
            VoucherProbe::Decrypted => "decrypted"@,
            VoucherProbe::Failed(error) => "failed ("@ + error@ + ")"@,
            VoucherProbe::NoDeviceData => "missing device/customer data in auth file"@,
        }
    }
}

/// An optional text, or a dash.
pub open spec fn dash_or(text: Option<Seq<char>>) -> Seq<char> {
    match text {
        Some(s) => s,
        None => "-"@,
    }
}

/// `yes`, or a dash.
pub open spec fn yes_or_dash(yes: bool) -> Seq<char> {
    if yes {
        "yes"@
    } else {
        "-"@
    }
}

/// The fields of a license, by name, as they are shown. The content key is not
/// among them.
pub open spec fn license_fields(license: License, probe: VoucherProbe) -> Seq<
    (Seq<char>, Seq<char>),
> {
    seq![
        ("asin"@, license.asin@),
        ("status"@, license.status_code@),
        ("drm_type"@, dash_or(opt_text(license.drm_type))),
        ("content_format"@, dash_or(opt_text(license.content_format))),
        (
            "size_bytes"@,
            match license.content_size {
                Some(n) => decimal(n as int),
                None => "-"@,
            },
        ),
        (
            "has_voucher"@,
            if license.has_voucher {
                "true"@
            } else {
                "false"@
            },
        ),
        ("voucher"@, voucher_state(license, probe)),
        ("pdf_url"@, yes_or_dash(license.pdf_url)),
        ("download_url"@, yes_or_dash(license.offline_url)),
    ]
}

fn show_or_dash(text: &Option<String>) -> (shown: String)
    ensures
        shown@ == dash_or(opt_text(*text)),
{
    match text {
        Some(s) => s.clone(),
        None => String::from_str("-"),
    }
}

fn show_yes(yes: bool) -> (shown: String)
    ensures
        shown@ == yes_or_dash(yes),
{
    if yes {
        String::from_str("yes")
    } else {
        String::from_str("-")
    }
}

/// Shows the fields of a license.
pub fn show_license(license: &License, probe: &VoucherProbe) -> (fields: Vec<(String, String)>)
    ensures
        pairs_of(fields@) == license_fields(*license, *probe),
{
    let size = match license.content_size {
        Some(n) => number(n),
        None => String::from_str("-"),
    };
    let voucher = if !license.has_voucher {
        String::from_str("-")
    } else {
        match probe {
            VoucherProbe::Decrypted => String::from_str("decrypted"),
            VoucherProbe::Failed(error) => cat3("failed (", error.as_str(), ")"),
            VoucherProbe::NoDeviceData => String::from_str(
                "missing device/customer data in auth file",
            ),
        }
    };
    let has_voucher = if license.has_voucher {
        String::from_str("true")
    } else {
        String::from_str("false")
    };
    let fields: Vec<(String, String)> = vec![
        (String::from_str("asin"), license.asin.clone()),
        (String::from_str("status"), license.status_code.clone()),
        (String::from_str("drm_type"), show_or_dash(&license.drm_type)),
        (String::from_str("content_format"), show_or_dash(&license.content_format)),
        (String::from_str("size_bytes"), size),
        (String::from_str("has_voucher"), has_voucher),
        (String::from_str("voucher"), voucher),
        (String::from_str("pdf_url"), show_yes(license.pdf_url)),
        (String::from_str("download_url"), show_yes(license.offline_url)),
    ];
    assert(pairs_of(fields@) =~= license_fields(*license, *probe));
    fields
}

/// A license as it is stored.
#[derive(Debug)]
pub struct LicenseGrant {
    /// The item.
    pub asin: String,
    /// The format.
    pub content_format: String,
    /// The request that it answers.
    pub request_kind: String,
    /// Until when it is good.
    pub valid_until: Option<String>,
    /// The whole of it.
    pub doc: String,
}

/// Whether a license is stored as it is: of its item, its format and its request.
pub open spec fn is_grant_of(
    grant: LicenseGrant,
    license: License,
    request_kind: Seq<char>,
    valid_until: Option<Seq<char>>,
    doc: Seq<char>,
) -> bool {
    &&& grant.asin@ == license.asin@
    &&& grant.content_format@ == match license.content_format {
        Some(format) => format@,
        None => Seq::<char>::empty(),
    }
    &&& grant.request_kind@ == request_kind
    &&& opt_text(grant.valid_until) == valid_until
    &&& grant.doc@ == doc
}

/// The license as it is stored; a run that leaves no trace stores none.
pub fn persist_license(
    license: &License,
    request_kind: &str,
    valid_until: Option<&str>,
    doc: &str,
    no_db_write: bool,
) -> (grant: Option<LicenseGrant>)
    ensures
        match grant {
            Some(g) => !no_db_write && is_grant_of(
                g,
                *license,
                request_kind@,
                opt_str(valid_until),
                doc@,
            ),
            None => no_db_write,
        },
{
    if no_db_write {
        return None;
    }
    let content_format = match &license.content_format {
        Some(format) => format.clone(),
        None => empty_text(),
    };
    Some(
        LicenseGrant {
            asin: license.asin.clone(),
            content_format,
            request_kind: String::from_str(request_kind),
            valid_until: match valid_until {
                Some(time) => Some(String::from_str(time)),
                None => None,
            },
            doc: String::from_str(doc),
        },
    )
}

/// When a URL expires is what its first `Expires` says; a URL without one does not
/// expire.
pub proof fn law_the_first_expiry_counts(pairs: Seq<(Seq<char>, Seq<char>)>, i: int)
    requires
        0 <= i <= pairs.len(),
        forall|k: int| 0 <= k < i ==> (#[trigger] pairs[k]).0 != "Expires"@,
    ensures
        i < pairs.len() && pairs[i].0 == "Expires"@ ==> expires_in(pairs) == signed_value(
            pairs[i].1,
        ),
        i == pairs.len() ==> expires_in(pairs) is None,
    decreases pairs.len(),
{
    if i > 0 {
        let rest = pairs.drop_first();
        assert(pairs[0].0 != "Expires"@);
        assert forall|k: int| 0 <= k < i - 1 implies (#[trigger] rest[k]).0 != "Expires"@ by {
            assert(rest[k] == pairs[k + 1]);
        }
        law_the_first_expiry_counts(rest, i - 1);
        if i < pairs.len() {
            assert(rest[i - 1] == pairs[i]);
        }
    }
}

/// A moment counts as past from five minutes before it on, and stays past; what
/// has no end is never past.
pub proof fn law_urls_lapse_ahead_of_time(at: int, now: int, later: int)
    requires
        now <= later,
    ensures
        lapsed(Some(at), now) <==> at - now <= 300,
        lapsed(Some(at), now) ==> lapsed(Some(at), later),
        lapsed(Some(now), now),
        !lapsed(None, now),
{
}

/// A license is denied exactly where it is not granted, for the reason that it
/// gives.
pub proof fn law_denials_have_a_reason(license: License)
    ensures
        denial(license) is None <==> license.granted,
        !license.granted && license.denial_message is Some ==> denial(license) == Some(
            license.denial_message->Some_0@,
        ),
        !license.granted && license.denial_message is None ==> denial(license) == Some(
            "no reason given"@,
        ),
{
}

/// What is shown of a license is what it says, each under its name; a dash stands
/// for what it does not say.
pub proof fn law_licenses_are_shown_as_they_are(license: License, probe: VoucherProbe)
    ensures
        ({
            let fields = license_fields(license, probe);
            &&& fields.len() == 9
            &&& fields[0] == ("asin"@, license.asin@)
            &&& fields[1] == ("status"@, license.status_code@)
            &&& fields[2].0 == "drm_type"@ && (license.drm_type matches Some(text)
                ==> fields[2].1 == text@)
            &&& fields[3].0 == "content_format"@ && (license.content_format matches Some(text)
                ==> fields[3].1 == text@)
            &&& fields[4].0 == "size_bytes"@ && (license.content_size matches Some(n)
                ==> fields[4].1 == decimal(n as int))
            &&& fields[5].0 == "has_voucher"@ && fields[5].1 == (if license.has_voucher {
                "true"@
            } else {
                "false"@
            })
            &&& fields[6].0 == "voucher"@ && (license.has_voucher && probe is Decrypted
                ==> fields[6].1 == "decrypted"@) && (!license.has_voucher ==> fields[6].1 == "-"@)
                && (license.has_voucher ==> (probe matches VoucherProbe::Failed(error)
                ==> fields[6].1 == "failed ("@ + error@ + ")"@))
            &&& fields[7].0 == "pdf_url"@ && (license.pdf_url <==> fields[7].1 == "yes"@)
            &&& fields[8].0 == "download_url"@ && (license.offline_url <==> fields[8].1 == "yes"@)
        }),
{
    reveal_strlit("yes");
    reveal_strlit("-");
    assert("yes"@.len() == 3);
    assert("-"@.len() == 1);
}

/// A stored license is of the item, the format, the request and the document that it
/// was granted for, and holds for as long as was said.
pub proof fn law_licenses_are_stored_as_granted(
    grant: LicenseGrant,
    license: License,
    request_kind: Seq<char>,
    valid_until: Option<Seq<char>>,
    doc: Seq<char>,
)
    requires
        is_grant_of(grant, license, request_kind, valid_until, doc),
    ensures
        grant.asin@ == license.asin@,
        license.content_format matches Some(format) ==> grant.content_format@ == format@,
        license.content_format is None ==> grant.content_format@.len() == 0,
        grant.request_kind@ == request_kind,
        opt_text(grant.valid_until) == valid_until,
        grant.doc@ == doc,
{
}

/// A stored license is passed over exactly where its address expires within five
/// minutes; one without an address, or whose address does not expire, serves.
pub proof fn law_expiring_licenses_are_passed_over(url: Seq<char>, now: int)
    ensures
        !url_lapsed(None, now),
        expires_at(url) is None ==> !url_lapsed(Some(url), now),
        expires_at(url) matches Some(at) ==> (url_lapsed(Some(url), now) <==> at <= now + 300),
{
}

} // verus!
