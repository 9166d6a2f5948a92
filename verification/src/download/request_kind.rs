//! The kind of an audio request: a key for what was asked for, known before the
//! server answers.

use vstd::prelude::*;
use vstd::string::StringExecFns;
use crate::text::cat2;
use crate::text::cat4;
use crate::text::texts;

verus! {

/// Every request kind.
pub open spec fn all_kinds() -> Seq<Seq<char>> {
    seq![
        "adrm-high"@,
        "adrm-normal"@,
        "widevine-aac-high"@,
        "widevine-aac-normal"@,
        "widevine-xhe-high"@,
        "widevine-xhe-normal"@,
        "mpeg"@,
    ]
}

/// Every request kind.
pub fn all() -> (kinds: Vec<String>)
    ensures
        texts(kinds@) == all_kinds(),
{
    let kinds: Vec<String> = vec![
        String::from_str("adrm-high"),
        String::from_str("adrm-normal"),
        String::from_str("widevine-aac-high"),
        String::from_str("widevine-aac-normal"),
        String::from_str("widevine-xhe-high"),
        String::from_str("widevine-xhe-normal"),
        String::from_str("mpeg"),
    ];
    assert(texts(kinds@) =~= all_kinds());
    kinds
}

/// The audio quality that is asked for.
#[derive(Clone, Copy, Debug, PartialEq, Eq, Structural)]
pub enum Quality {
    /// The higher bit rate.
    High,
    /// The lower bit rate.
    Normal,
}

/// The path that a license request resolved to.
#[derive(Clone, Copy, Debug, PartialEq, Eq, Structural)]
pub enum Grant {
    /// The portable format that an account can decrypt.
    Adrm,
    /// Widevine.
    Widevine,
    /// Plain MPEG audio.
    Mpeg,
}

/// The word for a quality.
pub open spec fn quality_word(quality: Quality) -> Seq<char> {
    match quality {
        Quality::High => "high"@,
        Quality::Normal => "normal"@,
    }
}

/// The word for a codec.
pub open spec fn codec_word(xhe: bool) -> Seq<char> {
    if xhe {
        "xhe"@
    } else {
        "aac"@
    }
}

/// The word for a quality.
pub fn quality_tag(quality: Quality) -> (word: &'static str)
    ensures
        word@ == quality_word(quality),
{
    match quality {
        Quality::High => "high",
        Quality::Normal => "normal",
    }
}

/// The word for a codec.
pub fn codec_tag(xhe: bool) -> (word: &'static str)
    ensures
        word@ == codec_word(xhe),
{
    if xhe {
        "xhe"
    } else {
        "aac"
    }
}

/// The kind of a request that resolved to `grant`: the path is the one that was
/// granted, codec and quality are those that were asked for.
pub open spec fn resolved_kind(grant: Grant, xhe: bool, quality: Quality) -> Seq<char> {
    match grant {
        Grant::Adrm => "adrm-"@ + quality_word(quality),
        Grant::Widevine => "widevine-"@ + codec_word(xhe) + "-"@ + quality_word(quality),
        Grant::Mpeg => "mpeg"@,
    }
}

/// The kinds that a request can resolve to.
pub open spec fn candidate_kinds(forced: bool, xhe: bool, quality: Quality) -> Seq<Seq<char>> {
    if forced {
        seq![
            resolved_kind(Grant::Widevine, xhe, quality),
            resolved_kind(Grant::Mpeg, xhe, quality),
        ]
    } else {
        seq![
            resolved_kind(Grant::Adrm, xhe, quality),
            resolved_kind(Grant::Widevine, xhe, quality),
            resolved_kind(Grant::Mpeg, xhe, quality),
        ]
    }
}

/// The kind to record for a resolved audio download.
pub fn resolved(grant: Grant, xhe: bool, quality: Quality) -> (kind: String)
    ensures
        kind@ == resolved_kind(grant, xhe, quality),
{
    match grant {
        Grant::Adrm => cat2("adrm-", quality_tag(quality)),
        Grant::Widevine => cat4("widevine-", codec_tag(xhe), "-", quality_tag(quality)),
        Grant::Mpeg => String::from_str("mpeg"),
    }
}

/// The kinds that a requested audio download can resolve to; a record of any of
/// them means that it is there. `mpeg`, the fallback, is always among them.
pub fn candidates(widevine_forced: bool, xhe: bool, quality: Quality) -> (kinds: Vec<String>)
    ensures
        texts(kinds@) == candidate_kinds(widevine_forced, xhe, quality),
{
    let mut kinds: Vec<String> = Vec::new();
    if !widevine_forced {
        kinds.push(resolved(Grant::Adrm, xhe, quality));
    }
    kinds.push(resolved(Grant::Widevine, xhe, quality));
    kinds.push(resolved(Grant::Mpeg, xhe, quality));
    assert(texts(kinds@) =~= candidate_kinds(widevine_forced, xhe, quality));
    kinds
}

/// Whatever a request resolves to is one of its candidates; the portable format
/// can be granted only where Widevine was not forced.
pub proof fn law_resolved_is_a_candidate(forced: bool, grant: Grant, xhe: bool, quality: Quality)
    requires
        grant is Adrm ==> !forced,
    ensures
        candidate_kinds(forced, xhe, quality).contains(resolved_kind(grant, xhe, quality)),
{
    let kinds = candidate_kinds(forced, xhe, quality);
    let shift = if forced {
        1int
    } else {
        0int
    };
    match grant {
        Grant::Adrm => {
            assert(kinds[0] == resolved_kind(grant, xhe, quality));
        },
        Grant::Widevine => {
            assert(kinds[1 - shift] == resolved_kind(grant, xhe, quality));
        },
        Grant::Mpeg => {
            assert(kinds[2 - shift] == resolved_kind(grant, xhe, quality));
        },
    }
}

proof fn lemma_kind_listed(grant: Grant, xhe: bool, quality: Quality)
    ensures
        all_kinds().contains(resolved_kind(grant, xhe, quality)),
{
    reveal_strlit("adrm-high");
    reveal_strlit("adrm-normal");
    reveal_strlit("widevine-aac-high");
    reveal_strlit("widevine-aac-normal");
    reveal_strlit("widevine-xhe-high");
    reveal_strlit("widevine-xhe-normal");
    reveal_strlit("mpeg");
    reveal_strlit("adrm-");
    reveal_strlit("widevine-");
    reveal_strlit("-");
    reveal_strlit("aac");
    reveal_strlit("xhe");
    reveal_strlit("high");
    reveal_strlit("normal");
    let at = match (grant, xhe, quality) {
        (Grant::Adrm, _, Quality::High) => 0int,
        (Grant::Adrm, _, Quality::Normal) => 1int,
        (Grant::Widevine, false, Quality::High) => 2int,
        (Grant::Widevine, false, Quality::Normal) => 3int,
        (Grant::Widevine, true, Quality::High) => 4int,
        (Grant::Widevine, true, Quality::Normal) => 5int,
        (Grant::Mpeg, _, _) => 6int,
    };
    assert(all_kinds()[at] =~= resolved_kind(grant, xhe, quality));
}

/// Every kind that a request can resolve to, or be recorded under, is one of
/// all kinds.
pub proof fn law_all_kinds_cover_every_request(
    forced: bool,
    xhe: bool,
    quality: Quality,
    kind: Seq<char>,
)
    requires
        candidate_kinds(forced, xhe, quality).contains(kind),
    ensures
        all_kinds().contains(kind),
{
    lemma_kind_listed(Grant::Adrm, xhe, quality);
    lemma_kind_listed(Grant::Widevine, xhe, quality);
    lemma_kind_listed(Grant::Mpeg, xhe, quality);
}

/// Two requests are recorded as one kind only where they were granted in the same
/// way and asked for the same: every choice that matters shows in the kind.
pub proof fn law_kinds_tell_requests_apart(
    a: (Grant, bool, Quality),
    b: (Grant, bool, Quality),
)
    requires
        resolved_kind(a.0, a.1, a.2) == resolved_kind(b.0, b.1, b.2),
    ensures
        a.0 == b.0,
        !(a.0 is Mpeg) ==> a.2 == b.2,
        a.0 is Widevine ==> a.1 == b.1,
{
    reveal_strlit("adrm-");
    reveal_strlit("widevine-");
    reveal_strlit("mpeg");
    reveal_strlit("high");
    reveal_strlit("normal");
    reveal_strlit("xhe");
    reveal_strlit("aac");
    reveal_strlit("-");
    let x = resolved_kind(a.0, a.1, a.2);
    let y = resolved_kind(b.0, b.1, b.2);
    assert(x.len() == y.len());
    assert(x[0] == y[0]);
    assert(x[9] == y[9]);
    assert("adrm-"@[0] == 'a');
    assert("widevine-"@[0] == 'w');
    assert("mpeg"@[0] == 'm');
    assert("xhe"@[0] == 'x');
    assert("aac"@[0] == 'a');
    assert("high"@.len() == 4);
    assert("normal"@.len() == 6);
}

/// Audio is recorded under the path that was granted, and under the quality and the
/// codec that were asked for; a request that is forced the Widevine way cannot
/// resolve to the portable format.
pub proof fn law_kinds_say_how_audio_was_granted(xhe: bool, quality: Quality)
    ensures
        resolved_kind(Grant::Adrm, xhe, Quality::High) == "adrm-"@ + "high"@,
        resolved_kind(Grant::Adrm, xhe, Quality::Normal) == "adrm-"@ + "normal"@,
        resolved_kind(Grant::Widevine, true, quality) == "widevine-"@ + "xhe"@ + "-"@
            + quality_word(quality),
        resolved_kind(Grant::Widevine, false, quality) == "widevine-"@ + "aac"@ + "-"@
            + quality_word(quality),
        resolved_kind(Grant::Mpeg, xhe, quality) == "mpeg"@,
        !candidate_kinds(true, xhe, quality).contains(resolved_kind(Grant::Adrm, xhe, quality)),
        candidate_kinds(false, xhe, quality).len() == 3,
        candidate_kinds(true, xhe, quality).len() == 2,
{
    let adrm = resolved_kind(Grant::Adrm, xhe, quality);
    let forced = candidate_kinds(true, xhe, quality);
    if forced.contains(adrm) {
        let i = choose|i: int| 0 <= i < forced.len() && forced[i] == adrm;
        if i == 0 {
            law_kinds_tell_requests_apart(
                (Grant::Adrm, xhe, quality),
                (Grant::Widevine, xhe, quality),
            );
        } else {
            law_kinds_tell_requests_apart(
                (Grant::Adrm, xhe, quality),
                (Grant::Mpeg, xhe, quality),
            );
        }
    }
}

} // verus!
