use audible_commands::db::DownloadEntry;
use audible_commands::download::artifacts::{
    after_pdf, anchor_url, cover_step, derive_cover_url, has_images, pdf_step,
    rewrite_size_marker, wants_large_master, CoverStep, PdfAnswer, PdfStep, COVER_ANCHOR_SIZES,
    COVER_SIZE_NATIVE, SMALL_MASTER_MAX,
};
use audible_commands::download::info::{
    after_adrm, after_widevine, facts, item_rows, parse_doc, wants_metadata, AssetFacts,
    MetadataDrm, Probe, ProbeStep,
};
use audible_commands::download::item::{
    license_grant, summary_line, Batch, Counters, Event, ItemJob, ItemPlan, Recorded, Step,
};
use audible_commands::download::license::{
    denial_reason, is_no_aaxc_asset, license_url_expired, show_license, url_expires_epoch,
    License, VoucherProbe,
};
use audible_commands::download::options::{
    overwrite_policy, parse_chapter_types, parse_cover_sizes, parse_kinds, resolve_chapter_types,
    resolve_cover_sizes, run_options, split_csv, Artifact, ArtifactSet, ChapterType,
    DecryptBackend, DownloadFlags, DownloadSettings, OverwritePolicy,
};
use audible_commands::download::reorganize::{
    check_move, cleanup_chain, collisions, external_target, filename_mode_from_str, finish_moves,
    is_original_audio, key_affects_filenames, naming_target, plan_moves, planned_paths,
    reorganize_step, sidecar_fine, take_outcome, FilenameMode, MoveCheck, MoveOutcome, MoveTally,
    ReorgError, ReorgFile, ReorgStep,
};
use audible_commands::download::request_kind::{all, candidates, resolved, Grant, Quality};
use audible_commands::json::Json;
use audible_commands::paths::{parent, strip_prefix};

#[test]
fn resolved_keys() {
    assert_eq!(resolved(Grant::Adrm, false, Quality::High), "adrm-high");
    assert_eq!(resolved(Grant::Adrm, true, Quality::Normal), "adrm-normal");
    assert_eq!(
        resolved(Grant::Widevine, false, Quality::Normal),
        "widevine-aac-normal"
    );
    assert_eq!(
        resolved(Grant::Widevine, true, Quality::High),
        "widevine-xhe-high"
    );
    assert_eq!(resolved(Grant::Mpeg, true, Quality::High), "mpeg");
}

#[test]
fn candidate_sets() {
    // Default (auto): aaxc or the widevine-<codec> fallback, plus mpeg.
    assert_eq!(
        candidates(false, false, Quality::High),
        ["adrm-high", "widevine-aac-high", "mpeg"]
    );
    assert_eq!(
        candidates(false, true, Quality::Normal),
        ["adrm-normal", "widevine-xhe-normal", "mpeg"]
    );
    // Forced Widevine: exactly the one widevine kind, plus mpeg.
    assert_eq!(
        candidates(true, false, Quality::Normal),
        ["widevine-aac-normal", "mpeg"]
    );
}

/// All kinds cover every kind the derivation can produce.
#[test]
fn all_covers_every_derivable_kind() {
    for widevine in [false, true] {
        for xhe in [false, true] {
            for q in [Quality::High, Quality::Normal] {
                for kind in candidates(widevine, xhe, q) {
                    assert!(all().contains(&kind), "{kind} missing");
                }
            }
        }
    }
}

/// Every resolvable outcome of a request is inside that request's candidates.
#[test]
fn resolved_is_always_a_candidate() {
    for widevine in [false, true] {
        for xhe in [false, true] {
            for q in [Quality::High, Quality::Normal] {
                let cands = candidates(widevine, xhe, q);
                // Widevine + Mpeg are reachable from any request; Adrm only
                // from the default (non-forced) path.
                assert!(cands.contains(&resolved(Grant::Widevine, xhe, q)));
                assert!(cands.contains(&resolved(Grant::Mpeg, xhe, q)));
                if !widevine {
                    assert!(cands.contains(&resolved(Grant::Adrm, xhe, q)));
                }
            }
        }
    }
}

#[test]
fn summary_line_counts_items_and_artifact_kinds() {
    let mut c = Counters::default();
    for kind in [
        "audio",
        "cover",
        "cover",
        "chapter",
        "pdf",
        "decrypted",
        "bogus",
    ] {
        c.bump(kind); // "bogus" is ignored
    }
    c.items_done = 2;
    c.failed = 1;
    assert_eq!(
        summary_line(&c, 5),
        "[2/5] · audio 1 · cover 2 · chapter 1 · pdf 1 · decrypted 1 · failed 1"
    );
}

#[test]
fn get_all_expands_to_every_artifact() {
    assert_eq!(parse_kinds("all").unwrap(), ArtifactSet::all());
}

#[test]
fn get_parses_and_dedups() {
    let set = |list: &[Artifact]| {
        let mut set = ArtifactSet::none();
        for artifact in list {
            set.insert(*artifact);
        }
        set
    };
    assert_eq!(
        parse_kinds("audio,pdf,audio").unwrap(),
        set(&[Artifact::Audio, Artifact::Pdf])
    );
    assert_eq!(parse_kinds("cover").unwrap(), set(&[Artifact::Cover]));
    assert!(parse_kinds("nonsense").is_err());
    assert_eq!(
        parse_kinds("x").unwrap_err().message(),
        "unknown --kind value \"x\" (audio, chapter, pdf, cover, all)"
    );
    assert_eq!(parse_kinds(" , ").unwrap_err().message(), "--kind selected nothing");
}

#[test]
fn chapter_types_parse_and_dedup() {
    let v = |items: &[&str]| items.iter().map(|s| (*s).to_owned()).collect::<Vec<_>>();
    assert_eq!(
        parse_chapter_types(&v(&["flat", "tree", "flat"])).unwrap(),
        vec![ChapterType::Flat, ChapterType::Tree]
    );
    assert_eq!(
        parse_chapter_types(&v(&["TREE"])).unwrap(),
        vec![ChapterType::Tree]
    );
    assert!(parse_chapter_types(&v(&["both"])).is_err());
    assert!(parse_chapter_types(&[]).is_err());
}

#[test]
fn cover_sizes_validate_and_dedup() {
    let v = |items: &[&str]| items.iter().map(|s| (*s).to_owned()).collect::<Vec<_>>();
    assert_eq!(
        parse_cover_sizes(&v(&["500", "1215", "500"])).unwrap(),
        vec!["500".to_owned(), "1215".to_owned()]
    );
    // Any positive integer is accepted (the CDN resizes), e.g. 1242.
    assert_eq!(
        parse_cover_sizes(&v(&["1242"])).unwrap(),
        vec!["1242".to_owned()]
    );
    assert!(parse_cover_sizes(&v(&["0"])).is_err());
    assert!(parse_cover_sizes(&v(&["abc"])).is_err());
    assert!(parse_cover_sizes(&[]).is_err());
}

#[test]
fn option_lists_come_from_flag_settings_or_default() {
    assert_eq!(split_csv(" a,,b , "), vec!["a", "b"]);
    assert_eq!(resolve_cover_sizes(Some("1,2"), Some(vec!["3".into()])), vec!["1", "2"]);
    assert_eq!(resolve_cover_sizes(None, Some(vec!["3".into()])), vec!["3"]);
    assert_eq!(resolve_cover_sizes(None, None), vec!["500"]);
    assert_eq!(resolve_chapter_types(None, None), vec!["tree"]);
}

fn flags() -> DownloadFlags {
    DownloadFlags {
        asin: true,
        title: false,
        missing: false,
        archived: false,
        quality: "high".into(),
        codec: "aac".into(),
        kind: "pdf".into(),
        decrypt: false,
        decrypt_backend: None,
        keep_source: false,
        remove_source: false,
        force: false,
        skip_existing: false,
        relicense: false,
    }
}

#[test]
fn run_options_follow_flags_and_settings() {
    let settings = DownloadSettings {
        decrypt: true,
        keep_source: false,
        backend: DecryptBackend::Ffmpeg,
        overwrite: OverwritePolicy::Force,
    };
    let options = run_options(&flags(), Some(settings)).unwrap();
    assert!(options.decrypt && options.targets.audio && options.targets.pdf);
    assert!(!options.keep_source && options.force);
    assert_eq!(options.backend, DecryptBackend::Ffmpeg);
    let options = run_options(&flags(), None).unwrap();
    assert!(!options.decrypt && !options.targets.audio && options.keep_source && !options.force);
    assert_eq!(options.backend, DecryptBackend::Auto);
    let mut f = flags();
    f.skip_existing = true;
    f.decrypt_backend = Some("aaxclean".into());
    let options = run_options(&f, Some(settings)).unwrap();
    assert!(!options.force);
    assert_eq!(options.backend, DecryptBackend::Aaxclean);
    f.relicense = true;
    f.quality = "normal".into();
    f.codec = "xhe".into();
    let options = run_options(&f, None).unwrap();
    assert!(options.force && options.codec_xhe);
    assert_eq!(options.quality, Quality::Normal);
    f.archived = true;
    assert_eq!(
        run_options(&f, None).unwrap_err().message(),
        "--include-archived only applies to the --missing selection"
    );
    f.asin = false;
    assert!(run_options(&f, None).unwrap_err().message().starts_with("specify what"));
    assert_eq!(
        overwrite_policy(false, false, true, Some(OverwritePolicy::Force)),
        OverwritePolicy::Skip
    );
}

fn plan(targets: &str) -> ItemPlan {
    ItemPlan {
        targets: parse_kinds(targets).unwrap(),
        quality: Quality::High,
        relicense: false,
        force: false,
        no_db_write: false,
        decrypt: false,
        widevine: false,
        cdm: false,
    }
}

#[test]
fn an_item_goes_through_its_steps() {
    let kinds = candidates(false, false, Quality::High);
    let mut plan = plan("all");
    plan.decrypt = true;
    let (mut job, step) = ItemJob::begin(plan, None, &kinds);
    assert_eq!(step, Step::FindLicense);
    assert_eq!(job.advance(Event::Found(None)), Step::AskLicense);
    assert_eq!(job.advance(Event::Granted(Grant::Adrm)), Step::FetchAudio);
    assert_eq!(job.request_kind().as_deref(), Some("adrm-high"));
    assert_eq!(
        job.advance(Event::Paths(vec!["/d/a.aaxc".into()])),
        Step::WriteChapters
    );
    assert_eq!(job.advance(Event::Paths(vec!["/d/c".into()])), Step::FetchPdf);
    assert_eq!(job.advance(Event::Paths(vec![])), Step::FetchCovers);
    assert_eq!(
        job.advance(Event::Paths(vec!["/d/1".into(), "/d/2".into()])),
        Step::Decrypt
    );
    assert_eq!(job.audio_path.as_deref(), Some("/d/a.aaxc"));
    let entry = ("decrypted".to_owned(), "/d/a.m4b".to_owned());
    assert_eq!(job.advance(Event::Decrypted(Some((entry, true)))), Step::Finish);
    let kinds: Vec<&str> = job.written.iter().map(|(kind, _)| kind.as_str()).collect();
    assert_eq!(kinds, vec!["chapter", "cover", "cover", "decrypted"]);
}

#[test]
fn a_title_without_asset_goes_the_widevine_way() {
    let kinds = candidates(false, false, Quality::High);
    let mut with = plan("audio");
    with.cdm = true;
    with.decrypt = true;
    let (mut job, step) = ItemJob::begin(with, None, &kinds);
    assert_eq!(step, Step::FindLicense);
    assert_eq!(job.advance(Event::Found(None)), Step::AskLicense);
    assert_eq!(job.advance(Event::NoAaxcAsset), Step::FetchWidevine);
    let files = vec![("audio".to_owned(), "/d/a.cenc".to_owned())];
    // It was decrypted on the way: there is no decrypting step.
    assert_eq!(job.advance(Event::Files(files)), Step::Finish);
    let (mut job, _) = ItemJob::begin(plan("audio"), None, &kinds);
    job.advance(Event::Found(None));
    assert_eq!(job.advance(Event::NoAaxcAsset), Step::NeedsCdm);
    // An answer that belongs to no step gives the item up.
    let (mut job, _) = ItemJob::begin(plan("audio"), None, &kinds);
    assert_eq!(job.advance(Event::NoAaxcAsset), Step::GiveUp);
}

#[test]
fn records_spare_a_request() {
    let kinds = candidates(false, false, Quality::High);
    let recorded = Recorded {
        request_kinds: vec!["mpeg".into()],
        pdf: true,
    };
    let (_, step) = ItemJob::begin(plan("audio,pdf"), Some(&recorded), &kinds);
    assert_eq!(step, Step::Finish);
    // Another format of the title does not count.
    let other = Recorded {
        request_kinds: vec!["adrm-normal".into()],
        pdf: true,
    };
    let (job, step) = ItemJob::begin(plan("audio,pdf,cover"), Some(&other), &kinds);
    assert_eq!(step, Step::FindLicense);
    assert!(job.targets.audio && !job.targets.pdf && job.targets.cover);
    // With nothing to fetch there may still be something to decrypt.
    let mut decrypt = plan("audio");
    decrypt.decrypt = true;
    let (_, step) = ItemJob::begin(decrypt, Some(&recorded), &kinds);
    assert_eq!(step, Step::Decrypt);
    let mut grab = plan("pdf");
    grab.no_db_write = true;
    let (mut job, step) = ItemJob::begin(grab, Some(&recorded), &kinds);
    assert_eq!(step, Step::FindLicense);
    assert_eq!(job.advance(Event::Found(Some(Grant::Mpeg))), Step::FetchPdf);
    assert_eq!(license_grant(Some("Mpeg")), Grant::Mpeg);
    assert_eq!(license_grant(Some("Adrm")), Grant::Adrm);
    assert_eq!(license_grant(None), Grant::Adrm);
}

#[test]
fn a_batch_is_tallied_and_sorted() {
    let file = |kind: &str, path: &str| (kind.to_owned(), path.to_owned());
    let mut batch = Batch::new(3);
    batch.item_done("B2", &vec![file("pdf", "/b"), file("audio", "/a")]);
    assert!(!batch.item_failed());
    batch.item_done("B1", &vec![file("cover", "/c")]);
    assert_eq!(batch.counters.items_done, 3);
    let end = batch.finish();
    assert_eq!(
        end.rows,
        vec![
            vec!["B1", "cover", "/c"],
            vec!["B2", "audio", "/a"],
            vec!["B2", "pdf", "/b"]
        ]
    );
    assert!(!end.nothing);
    assert_eq!(end.error.unwrap().message(), "1 of 3 item(s) failed");
    let mut single = Batch::new(1);
    assert!(single.item_failed());
    let end = Batch::new(0).finish();
    assert!(end.nothing && end.error.is_none());
}

#[test]
fn parses_cloudfront_expires() {
    // The aaxc offline_url is a CloudFront canned-policy URL: Expires=<epoch>.
    assert_eq!(
        url_expires_epoch("https://cf.net/x.aax?id=1&Expires=1783270514&Signature=s&Key-Pair-Id=k"),
        Some(1783270514)
    );
    // No Expires param, and a non-URL: no expiry to act on.
    assert_eq!(url_expires_epoch("https://cf.net/x.aax?Signature=s"), None);
    assert_eq!(url_expires_epoch("not a url"), None);
}

#[test]
fn license_expiry_uses_offline_url() {
    let now = 1_783_000_000;
    // A far-future Expires is not expired; a past one is; no URL / no Expires
    // is treated as "nothing to act on" (not expired).
    assert!(!license_url_expired(Some("https://cf.net/x?Expires=4102444800"), now));
    assert!(license_url_expired(Some("https://cf.net/x?Expires=1000000000"), now));
    assert!(!license_url_expired(Some("https://cf.net/x?Signature=s"), now));
    assert!(!license_url_expired(None, now));
    // The margin counts.
    assert!(license_url_expired(Some("https://cf.net/x?Expires=1783000300"), now));
    assert!(!license_url_expired(Some("https://cf.net/x?Expires=1783000301"), now));
    assert!(license_url_expired(Some("https://cf.net/x?Expires=-5"), now));
    assert!(!license_url_expired(Some("https://cf.net/x?Expires=-%2B5"), now));
    // The first Expires decides.
    assert!(!license_url_expired(Some("https://cf.net/x?Expires=x&Expires=1"), now));
}

#[test]
fn licenses_are_shown_without_their_key() {
    let license = License {
        asin: "B0".into(),
        status_code: "Denied".into(),
        granted: false,
        denial_message: None,
        drm_type: None,
        content_format: Some("AAX_44_128".into()),
        content_size: Some(12),
        has_voucher: true,
        pdf_url: false,
        offline_url: true,
    };
    assert_eq!(denial_reason(&license).as_deref(), Some("no reason given"));
    let fields = show_license(&license, &VoucherProbe::Failed("bad".into()));
    let cell = |name: &str| fields.iter().find(|(key, _)| key == name).unwrap().1.clone();
    assert_eq!(cell("drm_type"), "-");
    assert_eq!(cell("size_bytes"), "12");
    assert_eq!(cell("voucher"), "failed (bad)");
    assert_eq!(cell("has_voucher"), "true");
    assert_eq!(cell("pdf_url"), "-");
    assert_eq!(cell("download_url"), "yes");
    assert!(is_no_aaxc_asset(Some("000307")));
    assert!(!is_no_aaxc_asset(Some("000301")) && !is_no_aaxc_asset(None));
}

const URL: &str = "https://m.media-amazon.com/images/I/EXAMPLEID01._SL1215_.jpg";

/// The URL carries the size, so restating it is how any size is obtained
/// without a request; dropping it yields the largest available.
#[test]
fn rewrites_or_strips_the_size_marker() {
    assert_eq!(
        rewrite_size_marker(URL, "700").unwrap(),
        "https://m.media-amazon.com/images/I/EXAMPLEID01._SL700_.jpg"
    );
    // Beyond the size it was fetched as: a request above what exists
    // simply yields the largest available.
    assert_eq!(
        rewrite_size_marker(URL, "2000").unwrap(),
        "https://m.media-amazon.com/images/I/EXAMPLEID01._SL2000_.jpg"
    );
    // `native` = the largest available, whatever that turns out to be.
    assert_eq!(
        rewrite_size_marker(URL, COVER_SIZE_NATIVE).unwrap(),
        "https://m.media-amazon.com/images/I/EXAMPLEID01.jpg"
    );
    assert_eq!(
        rewrite_size_marker(URL, "NATIVE").as_deref(),
        Some("https://m.media-amazon.com/images/I/EXAMPLEID01.jpg")
    );

    // A URL that already is the largest renders any size just as well.
    assert_eq!(
        rewrite_size_marker("https://x/images/I/EXAMPLEID01.jpg", "500").unwrap(),
        "https://x/images/I/EXAMPLEID01._SL500_.jpg"
    );

    // Only the shape we actually see is understood — any other falls
    // through to the catalog rather than being rewritten with its other
    // parts silently dropped.
    assert!(rewrite_size_marker("https://x/I/abc._AC_SL1500_.jpg", "500").is_none());
    assert!(rewrite_size_marker("https://x/I/abc._SL1215_QL85_.jpg", "500").is_none());
    assert!(rewrite_size_marker("https://x/I/abc._CR0,0,500,500_.jpg", "500").is_none());
    assert!(rewrite_size_marker("https://x/I/abc._SL_.jpg", "500").is_none());
    assert!(rewrite_size_marker("https://x/I/abc._SLxx_.jpg", "500").is_none());
}

fn images(entries: &[(&str, &str)]) -> Vec<(String, Json)> {
    let mut list: Vec<(String, Json)> = entries
        .iter()
        .map(|(size, id)| {
            (
                (*size).to_owned(),
                Json::Text(format!(
                    "https://m.media-amazon.com/images/I/{id}._SL{size}_.jpg"
                )),
            )
        })
        .collect();
    list.sort_by(|a, b| a.0.cmp(&b.0));
    list
}

/// Small and large sizes resolve to different source images, and the API
/// picks by the requested size. The anchor must follow the *same* rule, so a
/// derived URL is the API's answer and not our own guess.
#[test]
fn anchors_on_the_master_audible_would_use() {
    // What a sync stores: three small-source sizes, three large-source ones.
    let synced = images(&[
        ("252", "SMALLSRC01"),
        ("408", "SMALLSRC01"),
        ("500", "SMALLSRC01"),
        ("558", "LARGESRC01"),
        ("900", "LARGESRC01"),
        ("1215", "LARGESRC01"),
    ]);

    // A large size anchors on the biggest large-source URL.
    assert!(anchor_url(&synced, true).unwrap().contains("LARGESRC01"));
    assert!(anchor_url(&synced, true).unwrap().contains("_SL1215_"));
    // A small size anchors on the small source — as the API does — not on
    // the large one just because it is bigger.
    assert!(anchor_url(&synced, false).unwrap().contains("SMALLSRC01"));
    assert!(anchor_url(&synced, false).unwrap().contains("_SL500_"));

    // Only small ones stored: a large size must NOT be faked from them
    // (it would silently stay small) — fall through to the catalog instead.
    let small_only = images(&[("252", "SMALLSRC01"), ("500", "SMALLSRC01")]);
    assert!(anchor_url(&small_only, true).is_none());
    assert!(anchor_url(&small_only, false).unwrap().contains("_SL500_"));

    // Only large ones stored: a small size still renders correctly off it.
    let large_only = images(&[("1215", "LARGESRC01")]);
    assert!(anchor_url(&large_only, false).unwrap().contains("LARGESRC01"));

    assert!(anchor_url(&images(&[]), true).is_none());
    assert!(anchor_url(&images(&[]), false).is_none());
}

/// `native` needs the large source; the boundary itself is inclusive.
#[test]
fn size_picks_the_right_master() {
    assert_eq!(wants_large_master("native"), Some(true));
    assert_eq!(wants_large_master("NATIVE"), Some(true));
    assert_eq!(wants_large_master("2400"), Some(true));
    assert_eq!(wants_large_master("558"), Some(true));
    assert_eq!(wants_large_master("501"), Some(true));
    assert_eq!(wants_large_master("500"), Some(false));
    assert_eq!(wants_large_master("252"), Some(false));
    assert_eq!(wants_large_master("nonsense"), None);
}

fn anchor_images() -> Vec<(String, Json)> {
    let entries: Vec<(&str, &str)> = COVER_ANCHOR_SIZES
        .split(',')
        .map(|size| {
            let large = size.parse::<u32>().expect("numeric anchor") > SMALL_MASTER_MAX;
            (size, if large { "LARGESRC01" } else { "SMALLSRC01" })
        })
        .collect();
    images(&entries)
}

/// The fallback is only as good as its anchors: one per source image, or a
/// whole class of sizes has none to derive from.
#[test]
fn the_anchor_set_covers_both_sources() {
    let anchors = anchor_images();
    assert!(anchor_url(&anchors, true).is_some(), "no large-source anchor");
    assert!(anchor_url(&anchors, false).is_some(), "no small-source anchor");
}

/// Asking the catalog for the anchors instead of the size wanted is what
/// lets one request answer every size — `native` included.
#[test]
fn derives_every_size_from_the_catalog_anchors() {
    let anchors = anchor_images();
    assert_eq!(
        derive_cover_url(&anchors, "native").unwrap(),
        "https://m.media-amazon.com/images/I/LARGESRC01.jpg"
    );
    // A size neither synced nor asked of the catalog.
    assert_eq!(
        derive_cover_url(&anchors, "700").unwrap(),
        "https://m.media-amazon.com/images/I/LARGESRC01._SL700_.jpg"
    );
    // A small size still comes off the small source, as the API does it.
    assert_eq!(
        derive_cover_url(&anchors, "252").unwrap(),
        "https://m.media-amazon.com/images/I/SMALLSRC01._SL252_.jpg"
    );
    // An exact hit is the API's own URL — untouched.
    assert_eq!(
        derive_cover_url(&anchors, "500").unwrap(),
        "https://m.media-amazon.com/images/I/SMALLSRC01._SL500_.jpg"
    );
}

/// The anchors are what the stored set resolves to anyway, so both routes
/// answer identically: an episode gets the same URL as an item.
#[test]
fn the_catalog_and_stored_routes_agree() {
    let synced = images(&[
        ("252", "SMALLSRC01"),
        ("408", "SMALLSRC01"),
        ("500", "SMALLSRC01"),
        ("558", "LARGESRC01"),
        ("900", "LARGESRC01"),
        ("1215", "LARGESRC01"),
    ]);
    let anchors = anchor_images();

    for size in ["native", "252", "500", "700", "2000"] {
        assert_eq!(
            derive_cover_url(&synced, size),
            derive_cover_url(&anchors, size),
            "size {size} derives differently depending on the route"
        );
    }
}

/// "This size could not be derived" and "the title has no cover" are
/// different facts, and only the second is about the title.
#[test]
fn having_images_is_not_the_same_as_resolving_a_size() {
    assert!(!has_images(None));
    assert!(!has_images(Some(&images(&[]))));

    // Images on hand, but this size cannot be derived from them — a
    // derivation failure, not an absent cover.
    let small_only = images(&[("252", "SMALLSRC01"), ("500", "SMALLSRC01")]);
    assert!(has_images(Some(&small_only)));
    assert!(derive_cover_url(&small_only, "native").is_none());
    assert_eq!(cover_step(false, false, true), CoverStep::AskCatalog);
    assert_eq!(cover_step(false, true, true), CoverStep::NotDerivable);
    assert_eq!(cover_step(false, true, false), CoverStep::NoImages);
    assert_eq!(cover_step(true, false, false), CoverStep::Found);
    assert_eq!(pdf_step(Some(false)), PdfStep::Absent);
    assert_eq!(pdf_step(None), PdfStep::Fetch);
    assert_eq!(after_pdf(None, PdfAnswer::OtherType), PdfStep::Absent);
    assert_eq!(after_pdf(Some(true), PdfAnswer::OtherType), PdfStep::Failed);
    assert_eq!(after_pdf(None, PdfAnswer::Pdf), PdfStep::Fetched);
}

fn entry(kind: &str, format: &str, variant: &str, size: Option<u64>) -> DownloadEntry {
    DownloadEntry {
        asin: "B0A".into(),
        marketplace: "de".into(),
        kind: kind.into(),
        content_format: format.into(),
        variant: variant.into(),
        file_path: "/dl/x".into(),
        file_size: size,
    }
}

fn json(text: &str) -> Json {
    Json::parse(text.as_bytes()).unwrap()
}

fn book_facts() -> AssetFacts {
    facts(&json(
        r#"{
            "available_codecs": [
                {"name": "aax_44_64"}, {"name": "aax_44_128"}, {"name": "aax"}
            ],
            "product_images": {"500": "u", "1215": "u"},
            "is_pdf_url_available": false,
            "customer_rights": {"is_consumable_offline": true},
            "content_delivery_type": "SinglePartBook"
        }"#,
    ))
}

#[test]
fn the_text_of_a_document_states_its_facts() {
    let fact = parse_doc(
        r#"{"available_codecs": [{"name": "aax_44_128"}], "product_images": {"500": "u", "252": "v"},
            "is_pdf_url_available": false, "content_delivery_type": "SinglePartBook"}"#,
    )
    .unwrap();
    assert_eq!(fact.codecs, vec!["aax_44_128"]);
    assert_eq!(fact.image_sizes, vec![252, 500]);
    assert_eq!(fact.pdf_available, Some(false));
    assert_eq!(fact.offline_right, None);
    assert_eq!(fact.delivery_type.as_deref(), Some("SinglePartBook"));
    assert!(parse_doc("{").is_none());
    assert!(parse_doc("").is_none());
}

#[test]
fn facts_extract_codecs_images_pdf_rights() {
    let fact = book_facts();
    assert_eq!(fact.codecs, ["aax_44_64", "aax_44_128", "aax"]);
    assert_eq!(fact.image_sizes, [500, 1215]);
    assert_eq!(fact.pdf_available, Some(false));
    assert_eq!(fact.offline_right, Some(true));
    assert_eq!(fact.delivery_type.as_deref(), Some("SinglePartBook"));
}

#[test]
fn book_rows_tag_quality_size_and_download_state() {
    let metadata = (
        json(
            r#"{
                "content_reference": {
                    "content_format": "AAX_44_128",
                    "content_size_in_bytes": 312000000
                },
                "chapter_info": {"chapters": [{}, {}, {}]}
            }"#,
        ),
        MetadataDrm::Adrm,
    );
    let downloads = vec![
        entry("audio", "AAX_44_128", "original", Some(312_000_000)),
        entry("audio", "AAX_44_128", "decrypted", Some(310_000_000)),
        entry("audio", "mp3_320", "reencoded", Some(200_000_000)),
        entry("cover", "500", "original", Some(50_000)),
    ];
    let rows = item_rows(&book_facts(), Some(&metadata), &downloads);
    let by_kind_detail: Vec<(String, String, String, String)> = rows
        .iter()
        .map(|r| (r[0].clone(), r[1].clone(), r[2].clone(), r[3].clone()))
        .collect();

    // High-quality row carries the exact size and both audio variants.
    let high = by_kind_detail
        .iter()
        .find(|(_, d, _, _)| d.starts_with("aax_44_128"))
        .unwrap();
    assert!(high.1.contains("-q high"));
    assert!(high.2.contains("MiB") || high.2.contains("MB"), "{high:?}");
    assert_eq!(high.2, "297.55 MiB");
    assert!(high.3.contains("original") && high.3.contains("decrypted"));

    // Normal quality: available, nothing downloaded.
    let normal = by_kind_detail
        .iter()
        .find(|(_, d, _, _)| d.starts_with("aax_44_64"))
        .unwrap();
    assert_eq!(normal.2, "yes");
    assert_eq!(normal.3, "-");

    // The mp3 reencode matches no codec → its own row.
    assert!(by_kind_detail
        .iter()
        .any(|(k, d, _, dl)| k == "audio" && d == "mp3_320" && dl.contains("reencoded")));

    // Chapters counted, cover sizes compact, pdf "no".
    assert!(by_kind_detail
        .iter()
        .any(|(k, _, a, _)| k == "chapter" && a == "3 chapters"));
    assert!(by_kind_detail
        .iter()
        .any(|(k, d, _, _)| k == "cover" && d == "500,1215"));
    assert!(by_kind_detail
        .iter()
        .any(|(k, _, a, _)| k == "pdf" && a == "no"));
}

#[test]
fn widevine_only_marks_aax_rows_and_names_the_representation() {
    // Catalog announces aax codecs, but only the Widevine probe answered.
    let metadata = (
        json(
            r#"{
                "content_reference": {
                    "content_format": "M4A_XHE",
                    "content_size_in_bytes": 228699791
                },
                "chapter_info": {"chapters": [{}, {}]}
            }"#,
        ),
        MetadataDrm::Widevine,
    );
    let rows = item_rows(&book_facts(), Some(&metadata), &vec![]);
    let aax_rows: Vec<_> = rows
        .iter()
        .filter(|r| r[0] == "audio" && r[1].starts_with("aax"))
        .collect();
    assert!(!aax_rows.is_empty());
    assert!(aax_rows.iter().all(|r| r[2] == "no (widevine only)"));
    let widevine = rows
        .iter()
        .find(|r| r[0] == "audio" && r[1].starts_with("widevine"))
        .unwrap();
    assert_eq!(widevine[1], "widevine (m4a_xhe)");
    assert!(widevine[2].contains("MiB"), "{widevine:?}");
    // Chapters come from the Widevine response — no `?`.
    assert!(rows
        .iter()
        .any(|r| r[0] == "chapter" && r[2] == "2 chapters"));
}

#[test]
fn streaming_only_and_podcast_shapes() {
    // No aax codecs + no offline right → widevine row.
    let plus = facts(&json(
        r#"{
            "available_codecs": [{"name": "mp4_44_64"}],
            "customer_rights": {"is_consumable_offline": false},
            "content_delivery_type": "SinglePartBook"
        }"#,
    ));
    let rows = item_rows(&plus, None, &vec![]);
    let audio = &rows[0];
    assert_eq!(audio[1], "widevine (aac|xhe)");
    assert_eq!(audio[2], "streaming only");

    // With the Widevine probe answered, the representation is named.
    let metadata = (
        json(
            r#"{
                "content_reference": {
                    "content_format": "M4A_AAC",
                    "content_size_in_bytes": 100
                }
            }"#,
        ),
        MetadataDrm::Widevine,
    );
    let rows = item_rows(&plus, Some(&metadata), &vec![]);
    assert_eq!(rows[0][1], "widevine (m4a_aac)");

    // Podcast episode → mpeg row; parent → episodes-only marker and
    // no chapter row.
    let episode = facts(&json(r#"{"content_delivery_type": "PodcastEpisode"}"#));
    let rows = item_rows(&episode, None, &vec![]);
    assert_eq!(rows[0][1], "mpeg (podcast episode)");

    let parent = facts(&json(r#"{"content_delivery_type": "Periodical"}"#));
    let rows = item_rows(&parent, None, &vec![]);
    assert_eq!(rows[0][2], "episodes only");
    assert!(!rows.iter().any(|r| r[0] == "chapter"));

    // Unknown metadata → chapters degrade to `?`.
    let rows = item_rows(&book_facts(), None, &vec![]);
    assert!(rows.iter().any(|r| r[0] == "chapter" && r[2] == "?"));
    assert!(!wants_metadata(&parent) && wants_metadata(&episode));
}

#[test]
fn only_a_rejection_leads_to_widevine() {
    assert_eq!(after_adrm(Probe::Answered), ProbeStep::Known(MetadataDrm::Adrm));
    assert_eq!(after_adrm(Probe::Rejected), ProbeStep::TryWidevine);
    assert_eq!(after_adrm(Probe::Transient), ProbeStep::Unavailable);
    assert_eq!(
        after_widevine(Probe::Answered),
        ProbeStep::Known(MetadataDrm::Widevine)
    );
    assert_eq!(after_widevine(Probe::Rejected), ProbeStep::Unavailable);
}

/// A file with no library document follows the download directory and
/// nothing else — its name cannot be re-derived, so only the root moves.
#[test]
fn a_file_without_a_document_follows_the_download_dir() {
    let old_root = "/books";
    let new_root = "/moved";

    // Downloaded as external: keeps its place inside the folder.
    assert_eq!(
        external_target(
            "/books/__external__/unknown/Title [B0EXAMPLE1].aaxc",
            old_root,
            new_root
        ),
        Some("/moved/__external__/unknown/Title [B0EXAMPLE1].aaxc".to_owned())
    );

    // Never nests: a second run must not produce __external__/__external__.
    let once = external_target("/books/__external__/X.aaxc", old_root, old_root).unwrap();
    assert_eq!(once, "/books/__external__/X.aaxc");
    assert_eq!(
        external_target(&once, old_root, old_root),
        Some(once),
        "already filed, so the plan is a no-op rather than another level"
    );

    // A title that lost its document *after* being filed normally is drawn
    // in, keeping the folders it sat in.
    assert_eq!(
        external_target("/books/Some Show/Ep 1.aaxc", old_root, new_root),
        Some("/moved/__external__/Some Show/Ep 1.aaxc".to_owned())
    );

    // Outside the tree entirely (a `--dir` grab): not ours to move.
    assert!(external_target("/tmp/grab/X.aaxc", old_root, new_root).is_none());
}

#[test]
fn filename_mode_from_str_maps_all() {
    assert_eq!(filename_mode_from_str("ascii"), FilenameMode::Ascii);
    assert_eq!(filename_mode_from_str("unicode"), FilenameMode::Unicode);
    assert_eq!(
        filename_mode_from_str("asin_ascii"),
        FilenameMode::AsinAscii
    );
    assert_eq!(
        filename_mode_from_str("asin_unicode"),
        FilenameMode::AsinUnicode
    );
    assert_eq!(filename_mode_from_str("custom"), FilenameMode::Custom);
}

#[test]
fn key_affects_filenames_only_naming_settings() {
    assert!(key_affects_filenames("settings.default.filename_mode"));
    assert!(key_affects_filenames(
        "settings.audiobooks.filename_template"
    ));
    assert!(key_affects_filenames("settings.default.download_dir"));
    assert!(!key_affects_filenames("settings.default.overwrite"));
    assert!(!key_affects_filenames("db.page_size"));
    assert!(!key_affects_filenames("filename_mode"));
}

// A file recorded with the OLD slug — the stray `_ ` a replaced `:` used to
// leave — is planned for rename to the current gap-free name.
#[test]
fn a_slug_change_plans_a_rename_of_existing_downloads() {
    // The path an old download wrote: `_ ` after each replaced colon.
    let stored =
        "/dl/Marvel's Wastelanders_ Star-Lord/Kapitel Zehn_ Götterdämmerung.AAX_44_128.aaxc";
    let base = "Marvel's Wastelanders_Star-Lord/Kapitel Zehn_Götterdämmerung";

    let (old, new) = planned_paths(base, ".AAX_44_128.aaxc", stored, "/dl")
        .expect("a rename must be planned once the slug drops the stray space");

    assert_eq!(old, stored);
    assert_eq!(
        new,
        "/dl/Marvel's Wastelanders_Star-Lord/Kapitel Zehn_Götterdämmerung.AAX_44_128.aaxc"
    );
    assert!(planned_paths(base, ".AAX_44_128.aaxc", &new, "/dl/").is_none());
}

#[test]
fn naming_flags_become_a_target_and_settings() {
    let target = |mode, template, dir, has| {
        naming_target(mode, template, dir, FilenameMode::Unicode, None, "main", has)
    };
    let kept = target(None, None, None, true).unwrap();
    assert_eq!(kept.mode, FilenameMode::Unicode);
    assert!(kept.sets.is_empty() && kept.unsets.is_empty());
    let custom = target(None, Some("%t%"), Some("/new"), true).unwrap();
    assert_eq!(custom.mode, FilenameMode::Custom);
    assert_eq!(custom.template.as_deref(), Some("%t%"));
    assert_eq!(
        custom.sets,
        vec![
            ("settings.main.filename_mode".to_owned(), "custom".to_owned()),
            ("settings.main.filename_template".to_owned(), "%t%".to_owned()),
            ("settings.main.download_dir".to_owned(), "/new".to_owned()),
        ]
    );
    let fixed = target(Some("asin_ascii"), None, None, true).unwrap();
    assert_eq!(fixed.mode, FilenameMode::AsinAscii);
    assert_eq!(fixed.unsets, vec!["settings.main.filename_template"]);
    assert!(target(Some("ascii"), None, None, false).unwrap().unsets.is_empty());
    assert_eq!(
        target(Some("custom"), None, None, true).unwrap_err(),
        ReorgError::TemplateMissing
    );
    assert_eq!(
        target(Some("ascii"), Some("%t%"), None, true).unwrap_err(),
        ReorgError::TemplateWithMode
    );
}

#[test]
fn moves_are_planned_and_checked() {
    let download = |path: &str, name: Option<(&str, &str)>| ReorgFile::Download {
        file_path: path.into(),
        original_audio: true,
        name: name.map(|(base, suffix)| (base.to_owned(), suffix.to_owned())),
    };
    let files = vec![
        download("/dl/old.aaxc", Some(("new", ".aaxc"))),
        download("/dl/same.aaxc", Some(("same", ".aaxc"))),
        download("/elsewhere/x.aaxc", None),
        download("/dl/y.cenc", None),
        ReorgFile::Annotation {
            file_path: "/dl/a.annot".into(),
            base: Some("b/c".into()),
        },
        ReorgFile::Annotation {
            file_path: "/dl/z.annot".into(),
            base: None,
        },
        download("/dl/other.aaxc", Some(("new", ".aaxc"))),
    ];
    let (moves, skipped) = plan_moves(&files, "/dl", "/dl");
    assert_eq!(skipped, 2);
    let plan: Vec<(usize, &str)> = moves.iter().map(|m| (m.file, m.new.as_str())).collect();
    assert_eq!(
        plan,
        vec![
            (0, "/dl/new.aaxc"),
            (3, "/dl/__external__/y.cenc"),
            (4, "/dl/b/c.annot"),
            (6, "/dl/new.aaxc"),
        ]
    );
    assert_eq!(
        moves[0].sidecar,
        Some(("/dl/old.voucher".to_owned(), "/dl/new.voucher".to_owned()))
    );
    assert_eq!(
        moves[1].sidecar,
        Some(("/dl/y.wvkey".to_owned(), "/dl/__external__/y.wvkey".to_owned()))
    );
    assert_eq!(moves[2].sidecar, None);
    assert_eq!(collisions(&moves), vec!["/dl/new.aaxc"]);
    assert_eq!(
        ReorgError::Collisions(1).message(),
        "1 destination(s) would collide — refusing (disambiguate the template)"
    );
}

#[test]
fn moves_are_tallied_honestly() {
    assert_eq!(check_move(false, false, false), MoveCheck::SourceGone);
    assert_eq!(check_move(true, true, false), MoveCheck::TargetExists);
    assert_eq!(check_move(true, true, true), MoveCheck::Clear);
    assert_eq!(check_move(true, false, false), MoveCheck::Clear);
    assert!(sidecar_fine(Some(false), false) && sidecar_fine(Some(true), true));
    assert!(!sidecar_fine(Some(true), false) && !sidecar_fine(None, true));
    let outcome = |moved, key_fine, recorded| MoveOutcome {
        moved,
        key_fine,
        recorded,
    };
    let mut tally = MoveTally { done: 0, failed: 0 };
    tally = take_outcome(tally, outcome(true, true, true));
    tally = take_outcome(tally, outcome(true, false, true));
    tally = take_outcome(tally, outcome(true, true, false));
    let (line, error) = finish_moves(tally, 3, true);
    assert_eq!(line, "copied 1 file(s), 2 failed");
    assert_eq!(error.unwrap().message(), "2 of 3 file(s) did not fully copy");
    let (line, error) = finish_moves(MoveTally { done: 2, failed: 0 }, 2, false);
    assert_eq!(line, "moved 2 file(s)");
    assert!(error.is_none());
    assert_eq!(
        cleanup_chain("/dl/a/b/c.aaxc", "/dl"),
        vec!["/dl/a/b", "/dl/a"]
    );
    assert_eq!(
        cleanup_chain("/dl//a/./b//c.aaxc", "/dl/"),
        vec!["/dl//a/./b", "/dl//a"]
    );
    assert_eq!(cleanup_chain("a/b/c.aaxc", ""), vec!["a/b", "a"]);
    assert!(cleanup_chain("/dl/c.aaxc", "/dl").is_empty());
    assert!(cleanup_chain("/other/a/c.aaxc", "/dl").is_empty());
}

#[test]
fn only_fetched_audio_has_a_key_beside_it() {
    assert!(is_original_audio("audio", "original"));
    assert!(!is_original_audio("audio", "decrypted"));
    assert!(!is_original_audio("cover", "original"));
}

#[test]
fn a_bare_underscore_is_no_size() {
    let url = "https://x/I/abc._.jpg";
    assert_eq!(rewrite_size_marker(url, "500"), None);
    assert_eq!(rewrite_size_marker(url, COVER_SIZE_NATIVE), None);
    assert_eq!(rewrite_size_marker("https://x/I/abc.__.jpg", "500"), None);
    let images = vec![("300".to_owned(), Json::Text(url.to_owned()))];
    assert_eq!(derive_cover_url(&images, "500"), None);
    assert_eq!(derive_cover_url(&images, "300").as_deref(), Some(url));
}

#[test]
fn unknown_files_keep_the_text_of_their_place() {
    let place = |file: &str, current: &str| external_target(file, current, "/new");
    assert_eq!(
        place("/books/a//b/./c.aaxc", "/books"),
        Some("/new/__external__/a//b/./c.aaxc".to_owned())
    );
    assert_eq!(
        place("/books//__external__//a//b.aaxc", "/books/"),
        Some("/new/__external__/a//b.aaxc".to_owned())
    );
    assert_eq!(place("/books/./a/b/./", "/books"), Some("/new/__external__/a/b".to_owned()));
    assert_eq!(place("/books/", "/books"), Some("/new/__external__/".to_owned()));
    assert_eq!(place("./a//b/", ""), Some("/new/__external__/./a//b".to_owned()));
    let once = place("/books/a//b/./c.aaxc", "/books").unwrap();
    assert_eq!(external_target(&once, "/new", "/new").unwrap(), once);
}

/// The place below a directory, and the directory that a path lies in, are those
/// that the paths of the standard library give.
#[test]
fn places_and_parents_are_those_of_std() {
    let paths = [
        "", ".", "/", "//", "./", "/.", "a", "./a", "/a", "//a//", "a/", "a/.", "a/./b", "/a/b",
        "/a//b/./c/", "/./a/../b", "a/b//c", "./a//b/.", "..", "../a", "/a/./", ".//a", "a//./b//.",
        ".a/b.", "/a/b/c//d", "__external__", "__external__/", "__external__//x",
        "./__external__/x", "/__external__/./x//y",
    ];
    for path in paths {
        let above = std::path::Path::new(path).parent();
        let text = above.map(|above| above.to_str().unwrap().to_owned());
        assert_eq!(parent(path), text, "{path:?}");
        for dir in paths {
            let rest = std::path::Path::new(path).strip_prefix(dir).ok();
            let text = rest.map(|rest| rest.to_str().unwrap().to_owned());
            assert_eq!(strip_prefix(path, dir), text, "{path:?} in {dir:?}");
        }
    }
}

#[test]
fn unknown_files_of_relative_directories_do_not_nest() {
    let once = external_target("./books/a/b.aaxc", "./books", "new").unwrap();
    assert_eq!(once, "new/__external__/a/b.aaxc");
    assert_eq!(external_target(&once, "new", "new").unwrap(), once);
    let bare = external_target("a/b.aaxc", "", "").unwrap();
    assert_eq!(bare, "__external__/a/b.aaxc");
    assert_eq!(external_target(&bare, "", "").unwrap(), bare);
}

#[test]
fn nothing_is_moved_or_stored_unasked() {
    let step = reorganize_step;
    assert_eq!(step(3, 2, true, Some(true)), ReorgStep::Refuse(ReorgError::Collisions(2)));
    assert_eq!(step(0, 0, true, None), ReorgStep::Nothing);
    assert_eq!(step(0, 0, false, None), ReorgStep::StoreOnly);
    assert_eq!(step(3, 0, true, Some(true)), ReorgStep::Preview);
    assert_eq!(step(3, 0, false, None), ReorgStep::Ask);
    assert_eq!(step(3, 0, false, Some(false)), ReorgStep::Abort);
    assert_eq!(step(3, 0, false, Some(true)), ReorgStep::Move);
}
