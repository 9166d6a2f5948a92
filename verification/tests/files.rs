use audible_commands::download::artifacts::{chapters_note, passes_over};
use audible_commands::download::containment::{ensure_outside_download_dir, Walk, WalkStep};
use audible_commands::download::decrypt::{
    aaxc_format, decrypt_format, decrypt_note, decrypt_paths, decrypt_source, decrypt_step,
    executable_candidates, first_on_disk, parse_ffmpeg_version, pick_error, run_args,
    run_cenc_args, select, tool_path, windows_candidates, AudioRecord, DecryptStep, Tool,
};
use audible_commands::download::license::{persist_license, License};
use audible_commands::download::options::{archived_note, DecryptBackend};
use audible_commands::download::orphans::{
    db_dirs, enters, is_account_db, is_account_db_artifact, orphan_rows, same_dir, scan_files,
    scan_line, standing, DbDir, FoundFile, References, Standing,
};
use audible_commands::download::widevine::{
    decrypted_ext, spatial_allowed, wvkey_fields, wvkey_from_fields, ContentKey, WidevineEvent,
    WidevineJob, WidevinePlan, WidevineStage,
};
use audible_commands::paths::{extension, sidecar_path};

fn strings(list: &[&str]) -> Vec<String> {
    list.iter().map(|s| (*s).to_owned()).collect()
}

#[test]
fn candidates_are_the_bare_name_on_unix() {
    assert_eq!(
        executable_candidates("/usr/bin", "ffmpeg"),
        vec!["/usr/bin/ffmpeg".to_owned()]
    );
}

#[test]
fn candidates_apply_pathext_on_windows() {
    let cands = windows_candidates(r"C:\bin", "ffmpeg", None);
    assert!(
        cands.iter().any(|c| c.to_ascii_lowercase().ends_with(".exe")),
        "{cands:?} should include an .exe candidate"
    );
    assert!(
        cands.iter().all(|c| c.starts_with(r"C:\bin")),
        "candidates stay in the given dir"
    );
    assert_eq!(
        windows_candidates(r"C:\bin", "ffmpeg.exe", None),
        vec![r"C:\bin\ffmpeg.exe".to_owned()],
        "an explicit extension is used as-is"
    );
    assert_eq!(
        windows_candidates(r"C:\bin\", "ffmpeg", Some(".A;;.B")),
        [r"C:\bin\ffmpeg.A", r"C:\bin\ffmpeg.B"]
    );
}

#[test]
fn ffmpeg_version_parses_release_and_git_strings() {
    assert_eq!(
        parse_ffmpeg_version("ffmpeg version 5.1.9-0+deb12u1 x"),
        Some((5, 1))
    );
    assert_eq!(parse_ffmpeg_version("ffmpeg version 4.4 x"), Some((4, 4)));
    assert_eq!(
        parse_ffmpeg_version("ffmpeg version n4.3.2 x"),
        Some((4, 3))
    );
    assert_eq!(parse_ffmpeg_version("ffmpeg version N-109592-gd6 x"), None);
}

#[test]
fn error_detail_prefers_stderr_and_is_brief() {
    assert_eq!(pick_error("boom", "noise"), ": boom");
    assert_eq!(pick_error("", "only stdout"), ": only stdout");
    assert_eq!(pick_error("", ""), "");
    assert_eq!(pick_error("a\nb\nc\nd", ""), ": a; b; c");
}

#[test]
fn lines_end_where_they_do() {
    assert_eq!(pick_error("a\r\nb\n", ""), ": a; b");
    assert_eq!(pick_error("a\r", ""), ": a\r");
    assert_eq!(pick_error("\n\n", ""), ": ; ");
}

fn record(path: &str, format: &str, request_kind: &str, on_disk: bool) -> AudioRecord {
    AudioRecord {
        file_path: path.to_owned(),
        content_format: format.to_owned(),
        request_kind: request_kind.to_owned(),
        on_disk,
    }
}

#[test]
fn first_on_disk_returns_the_existing_files_record() {
    let records = vec![
        record("/t/A1.AAC_44_131.cenc", "AAC_44_131", "widevine-aac-normal", false),
        record("/t/A1.AAX_44_128.aaxc", "AAX_44_128", "adrm-high", true),
    ];
    let found = &records[first_on_disk(&records).expect("the on-disk record")];
    assert_eq!(found.file_path, "/t/A1.AAX_44_128.aaxc");
    assert_eq!(found.request_kind, "adrm-high");
    assert_eq!(found.content_format, "AAX_44_128");
}

#[test]
fn first_on_disk_none_when_no_file_exists() {
    assert!(first_on_disk(&vec![record(
        "/t/A1.AAX_44_128.aaxc",
        "AAX_44_128",
        "adrm-high",
        false
    )])
    .is_none());
    assert!(first_on_disk(&Vec::new()).is_none());
}

#[test]
fn first_on_disk_prefers_the_aaxc() {
    let records = vec![
        record("/t/A1.AAC_44_131.cenc", "AAC_44_131", "widevine-aac-high", true),
        record("/t/A1.AAX_44_128.aaxc", "AAX_44_128", "adrm-high", true),
    ];
    let found = first_on_disk(&records).expect("the aaxc record");
    assert_eq!(records[found].file_path, "/t/A1.AAX_44_128.aaxc");

    // Without any aaxc the first on-disk record still wins.
    let records = vec![
        record("/t/A1.MPEG.mp3", "MPEG", "mpeg", true),
        record("/t/A1.AAC_44_131.cenc", "AAC_44_131", "widevine-aac-high", true),
    ];
    let found = first_on_disk(&records).expect("the mp3 record");
    assert_eq!(records[found].file_path, "/t/A1.MPEG.mp3");
}

#[test]
fn tools_are_selected_by_backend() {
    let tool = |backend, aaxclean: Option<&str>, ffmpeg: Option<&str>, version| {
        match select(backend, aaxclean, ffmpeg, version) {
            Ok(tool) => Ok(tool.label()),
            Err(error) => Err(error.message("")),
        }
    };
    assert_eq!(
        tool(DecryptBackend::Auto, Some("/a"), Some("/f"), None),
        Ok("aaxclean-cli")
    );
    assert_eq!(tool(DecryptBackend::Auto, None, Some("/f"), Some((4, 4))), Ok("ffmpeg"));
    assert_eq!(tool(DecryptBackend::Ffmpeg, Some("/a"), Some("/f"), None), Ok("ffmpeg"));
    assert_eq!(
        tool(DecryptBackend::Ffmpeg, None, Some("/f"), Some((4, 3))),
        Err("ffmpeg 4.3 is too old for aaxc (needs ≥ 4.4 for -audible_key/-audible_iv); use aaxclean-cli or a newer ffmpeg".to_owned())
    );
    assert!(tool(DecryptBackend::Ffmpeg, None, None, None)
        .unwrap_err()
        .starts_with("ffmpeg not found"));
    assert!(tool(DecryptBackend::Aaxclean, None, Some("/f"), None)
        .unwrap_err()
        .starts_with("aaxclean-cli not found"));
    assert!(tool(DecryptBackend::Auto, None, None, None)
        .unwrap_err()
        .starts_with("no decrypt tool found"));
    assert!(tool(DecryptBackend::Auto, None, Some("/f"), Some((5, 0))).is_ok());
    assert_eq!(tool_path(Some("/x"), &strings(&["/a"]), "t"), ["/x"]);
    assert_eq!(tool_path(None, &strings(&["/a", "/b/"]), "t"), ["/a/t", "/b/t"]);
}

#[test]
fn tools_get_their_arguments() {
    assert_eq!(
        run_args(&Tool::Aaxclean("/a".into()), "in", "k", "i", "out").join(" "),
        "-f in --audible_key k --audible_iv i --moov_faststart -o out"
    );
    assert_eq!(
        run_args(&Tool::Ffmpeg("/f".into()), "in", "k", "i", "out").join(" "),
        "-y -nostdin -loglevel error -audible_key k -audible_iv i -i in -c copy -map_metadata 0 -movflags +faststart out"
    );
    assert_eq!(
        run_cenc_args(&Tool::Aaxclean("/a".into()), "in", "id", "k", "out").join(" "),
        "-f in --encryption_kid id --encryption_key k --moov_faststart -o out"
    );
    assert_eq!(
        run_cenc_args(&Tool::Ffmpeg("/f".into()), "in", "id", "k", "out").join(" "),
        "-y -nostdin -loglevel error -decryption_key k -i in -c copy -map_metadata 0 -movflags +faststart out"
    );
}

#[test]
fn the_format_is_in_the_name() {
    assert_eq!(aaxc_format("/t/Book.AAX_44_128.aaxc"), "AAX_44_128");
    assert_eq!(aaxc_format("/t/Book.aaxc"), "");
    assert_eq!(aaxc_format("/t.d/Book"), "");
}

#[test]
fn records_are_heeded_only_by_runs_that_leave_a_trace() {
    let row = record("/t/a.F.aaxc", "F", "adrm-high", true);
    let source = decrypt_source(Some("/t/b.G.aaxc"), "mpeg", Some(&row), false).unwrap();
    assert_eq!(source.audio, "/t/b.G.aaxc");
    assert_eq!(source.request_kind, "mpeg");
    assert_eq!(decrypt_format(&source, None), "G");
    assert_eq!(decrypt_format(&source, Some("H")), "H");
    let source = decrypt_source(None, "mpeg", Some(&row), false).unwrap();
    assert_eq!(source.request_kind, "adrm-high");
    assert_eq!(decrypt_format(&source, Some("H")), "F");
    assert!(decrypt_source(None, "mpeg", Some(&row), true).is_none());
    assert!(decrypt_source(None, "mpeg", None, false).is_none());
}

#[test]
fn only_the_portable_format_is_decrypted() {
    assert!(decrypt_step("/a.aaxc", false, true, false, true) == DecryptStep::NotOnDisk);
    assert!(decrypt_step("/a.aaxc", true, true, true, true) == DecryptStep::AlreadyDecrypted);
    assert!(decrypt_step("/a.aaxc", true, false, true, true) == DecryptStep::Decrypt);
    assert!(decrypt_step("/a.aaxc", true, true, false, false) == DecryptStep::NoKey);
    assert!(decrypt_step("/a.mp3", true, true, false, false) == DecryptStep::Playable);
    assert!(decrypt_step("/a.cenc", true, true, false, true) == DecryptStep::Ignored);
    let note = |step| decrypt_note(step, "A", "/d/a.aaxc", "F");
    assert_eq!(
        note(DecryptStep::NoKey).unwrap(),
        "A: cannot decrypt — no key/iv sidecar at /d/a.voucher (re-run with --kind audio)"
    );
    assert_eq!(
        note(DecryptStep::AlreadyDecrypted).unwrap(),
        "skipping decrypt — F already decrypted (use --force)"
    );
    assert!(note(DecryptStep::Decrypt).is_none());
    assert_eq!(
        decrypt_note(DecryptStep::Playable, "A", "/a.mp3", "F").unwrap(),
        "A: audio is already a playable mp3 — no decryption needed"
    );
    assert_eq!(
        decrypt_paths("/d.x/a.aaxc"),
        ("/d.x/a.m4b".to_owned(), "/d.x/a.voucher".to_owned())
    );
}

#[test]
fn account_db_names() {
    let db = "account_0f1e2d3c4b5a6978.sqlite";
    assert!(is_account_db(db));
    assert!(is_account_db_artifact(&format!("{db}-wal")));
    assert!(is_account_db_artifact(&format!("{db}-shm")));
    assert!(!is_account_db(&format!("{db}-wal")));
    assert!(!is_account_db("account_notahexstring1.sqlite"));
    assert!(!is_account_db("account_0123456789abcdef.sqlite.bak"));
    assert!(!is_account_db("library.sqlite"));
}

fn found(name: &str) -> FoundFile {
    FoundFile {
        path: format!("/dl/{name}"),
        name: name.to_owned(),
        canonical: Some(format!("/dl/{name}")),
        size: Some(1),
    }
}

/// Recorded paths and the derived key are referenced; everything else under
/// the directory is an orphan, `.part` files are listed separately.
#[test]
fn scan_classifies_orphans_parts_and_sidecars() {
    let mut refs = References::new();
    refs.refer("/dl/Book.AAX_44_128.aaxc", None, None);
    refs.refer("/dl/Book.annot", None, None);
    let files: Vec<FoundFile> = [
        "Book.AAX_44_128.aaxc",
        "Book.AAX_44_128.voucher", // owned by the audio record
        "Book.annot",
        "Stray.m4b",              // orphan
        "Stray.AAC_44_131.wvkey", // key without a record → orphan
        "Resume.aaxc.part",       // in progress, never cleaned
    ]
    .iter()
    .map(|name| found(name))
    .collect();
    let scan = scan_files(&refs, &files);

    let orphans: Vec<&str> = scan
        .orphans
        .iter()
        .map(|file| file.path.trim_start_matches("/dl/"))
        .collect();
    assert_eq!(orphans, ["Stray.AAC_44_131.wvkey", "Stray.m4b"]);
    assert_eq!(scan.parts.len(), 1);
    assert!(scan.parts[0].path.ends_with("Resume.aaxc.part"));
    assert_eq!(scan.total, 6);

    assert_eq!(orphan_rows(&scan)[0], ["1 B", "/dl/Stray.AAC_44_131.wvkey"]);
    assert_eq!(
        scan_line(&scan, "/dl", 1),
        "2 of 6 file(s) under /dl have no download or annotation record (1 account database(s) checked)"
    );
    let clean = scan_files(&refs, &vec![found("Book.annot")]);
    assert_eq!(
        scan_line(&clean, "/dl", 2),
        "no orphans: every file under /dl is referenced (1 file(s) checked against 2 account database(s))"
    );
}

#[test]
fn links_and_databases_are_no_orphans() {
    let mut refs = References::new();
    refs.refer("/link/a.m4b", Some("/dl/a.m4b"), None);
    assert!(standing(&refs, &found("a.m4b")) == Standing::Owned);
    assert!(refs.contains("/link//./a.m4b"));
    let mut elsewhere = found("b.m4b");
    elsewhere.canonical = Some("/dl/a.m4b".to_owned());
    assert!(standing(&refs, &elsewhere) == Standing::Owned);
    assert!(standing(&refs, &found("account_0123456789abcdef.sqlite-wal")) == Standing::Database);
    assert!(standing(&refs, &found("c.part")) == Standing::Part);
    assert!(standing(&refs, &found("c.m4b")) == Standing::Orphan);
}

#[test]
fn orphans_are_sorted_by_the_parts_of_their_paths() {
    let refs = References::new();
    let files: Vec<FoundFile> = ["b/x", "a/z", "a-b/y", "a/b/c"].iter().map(|n| found(n)).collect();
    let paths: Vec<String> =
        scan_files(&refs, &files).orphans.into_iter().map(|file| file.path).collect();
    assert_eq!(paths, ["/dl/a/b/c", "/dl/a/z", "/dl/a-b/y", "/dl/b/x"]);
}

#[test]
fn database_directories_are_left_alone() {
    assert_eq!(
        db_dirs("/data/db", &strings(&["/x", "/data//db", "/x/", "/y"])),
        ["/data/db", "/x", "/y"]
    );
    assert!(same_dir("/a", Some("/real"), "/b", Some("/real")));
    assert!(!same_dir("/a", Some("/a"), "/a", Some("/real")));
    assert!(same_dir("/a/", None, "/a", Some("/real")));
    let dirs = vec![DbDir { path: "/dl/db".into(), canonical: Some("/dl/db".into()) }];
    assert!(!enters(&dirs, "/dl/link", Some("/dl/db")));
    assert!(enters(&dirs, "/dl/other", Some("/dl/other")));
}

/// Resolves a path against the directories that are there.
fn resolve(path: &str, there: &[&str]) -> String {
    let mut walk = Walk::begin(path);
    loop {
        let ancestor = walk.ancestor();
        let canonical = there.iter().find(|dir| **dir == ancestor).copied();
        match walk.advance(canonical) {
            WalkStep::Resolved(result) => return result,
            WalkStep::Again => {}
        }
    }
}

#[test]
fn no_db_write_dir_must_lie_outside_the_download_dir() {
    let managed = "/tmp/downloads";
    let inside = "/tmp/downloads/grab";
    let sibling = "/tmp/grab";
    let there = ["/", "/tmp", managed, inside, sibling];
    let check = |dir: &str, managed: &str| {
        let managed = there.iter().find(|d| **d == managed).copied();
        ensure_outside_download_dir(&resolve(dir, &there), managed)
    };

    // The download_dir itself and anything nested inside are rejected —
    // including a target that does not exist yet.
    assert!(check(managed, managed).is_err());
    assert!(check(inside, managed).is_err());
    assert!(check("/tmp/downloads/not-yet-created", managed).is_err());
    // A sibling passes (existing or not), as does a nonexistent
    // download_dir (no collision possible).
    assert!(check(sibling, managed).is_ok());
    assert!(check("/tmp/nope", managed).is_ok());
    assert!(check(sibling, "/tmp/missing").is_ok());
}

#[test]
fn paths_resolve_as_far_as_they_are_there() {
    assert_eq!(resolve("/tmp/a/b/c", &["/", "/tmp"]), "/tmp/a/b/c");
    assert_eq!(resolve("/tmp/a/../b", &["/", "/tmp"]), "/tmp/a/../b");
    assert_eq!(resolve("/x", &[]), "/x");
    let mut walk = Walk::begin("/tmp/link/new");
    assert_eq!(walk.ancestor(), "/tmp/link/new");
    assert!(matches!(walk.advance(None), WalkStep::Again));
    assert_eq!(walk.ancestor(), "/tmp/link");
    match walk.advance(Some("/real")) {
        WalkStep::Resolved(path) => assert_eq!(path, "/real/new"),
        WalkStep::Again => panic!("it resolves"),
    }
}

#[test]
fn decrypted_ext_by_codec() {
    assert_eq!(decrypted_ext("mp4a.40.2"), "m4b"); // AAC-LC
    assert_eq!(decrypted_ext("mp4a.40.42"), "m4b"); // xHE-AAC
    assert_eq!(decrypted_ext("ec+3"), "mp4"); // E-AC-3 JOC
    assert_eq!(decrypted_ext("ac-4"), "mp4"); // AC-4
}

#[test]
fn wvkey_sidecar_roundtrips() {
    let key = ContentKey { kid: vec![0xABu8; 16], key: vec![0xCDu8; 16] };
    let (kid, content) = wvkey_fields(&key);
    assert_eq!(kid, "ab".repeat(16));
    let back = wvkey_from_fields(&kid, &content).unwrap();
    assert_eq!(back.kid, key.kid);
    assert_eq!(back.key, key.key);
    assert!(wvkey_from_fields("ab", &content).is_none());
    assert!(wvkey_from_fields(&kid, "zz").is_none());
    assert!(spatial_allowed(true, 1) && !spatial_allowed(true, 3) && !spatial_allowed(false, 1));
}

#[test]
fn widevine_audio_is_never_lost() {
    let plan = WidevinePlan { force: false, no_db_write: false, decrypt: true, keep_source: false };
    let mut job = WidevineJob::begin(plan);
    job.advance(WidevineEvent::Widevine);
    job.advance(WidevineEvent::KeyFile(false));
    job.advance(WidevineEvent::KeyGranted);
    job.advance(WidevineEvent::File("/a.cenc".into()));
    job.advance(WidevineEvent::Recorded(false));
    assert!(job.stage == WidevineStage::Decrypt);
    job.advance(WidevineEvent::File("/a.m4b".into()));
    job.advance(WidevineEvent::Removed);
    assert!(job.stage == WidevineStage::Done);
    assert_eq!(job.files(), [("audio".to_owned(), "/a.m4b".to_owned())]);

    let mut job = WidevineJob::begin(plan);
    job.advance(WidevineEvent::Plain);
    job.advance(WidevineEvent::File("/a.mp3".into()));
    assert_eq!(job.files(), [("audio".to_owned(), "/a.mp3".to_owned())]);
    let mut job = WidevineJob::begin(plan);
    job.advance(WidevineEvent::Failed);
    assert!(job.stage == WidevineStage::Failed);
}

#[test]
fn artifacts_are_passed_over_once_recorded() {
    assert!(passes_over(true, false, false));
    assert!(!passes_over(true, true, false) && !passes_over(true, false, true));
    assert!(!passes_over(false, false, false));
    assert_eq!(
        chapters_note("flat"),
        "skipping chapter (flat) — already recorded (use --force)"
    );
    assert_eq!(
        archived_note(5, 3).unwrap(),
        "skipped 2 archived title(s) (as of the last library sync); use --include-archived to fetch them"
    );
    assert!(archived_note(3, 3).is_none());
}

#[test]
fn licenses_are_stored_unless_no_trace_is_left() {
    let license = License {
        asin: "A".into(),
        status_code: "Granted".into(),
        granted: true,
        denial_message: None,
        drm_type: None,
        content_format: None,
        content_size: None,
        has_voucher: false,
        pdf_url: false,
        offline_url: true,
    };
    let grant = persist_license(&license, "adrm-high", Some("then"), "{}", false).unwrap();
    assert_eq!(grant.asin, "A");
    assert_eq!(grant.content_format, "");
    assert_eq!(grant.valid_until.as_deref(), Some("then"));
    assert!(persist_license(&license, "adrm-high", None, "{}", true).is_none());
}

#[test]
fn a_slash_behind_a_name_does_not_hide_its_extension() {
    assert_eq!(extension("x.aaxc/"), "aaxc");
    assert_eq!(extension("dir/x.aaxc/./"), "aaxc");
    assert_eq!(extension("dir/.aaxc/"), "");
    assert_eq!(extension("dir.aaxc/.."), "");
    assert_eq!(sidecar_path("/d/x.aaxc/").as_deref(), Some("/d/x.voucher"));
    assert_eq!(
        decrypt_paths("/d/x.aaxc/"),
        ("/d/x.m4b".to_owned(), "/d/x.voucher".to_owned())
    );
    assert_eq!(aaxc_format("/d/x.AAX_44.aaxc/"), "AAX_44");
}
