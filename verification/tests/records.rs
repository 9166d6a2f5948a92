use audible_commands::agent::{
    audit_rows, revoke_line, status_rows, token_rows, AuditEntry, TokenRecord,
};
use audible_commands::annotations::{
    fetch_outcome, inventory_rows, record_row, refresh_outcome, select, show, tally_line,
    FetchOutcome, InventoryItem, Selection, ShowOutcome,
};
use audible_commands::completions::{completion_target, xdg_dir, Shell};
use audible_commands::db::{
    check_backup, check_request_kind, check_restore, classify_downloads, delete_files,
    download_record, download_rows, downloads_add, downloads_check, filter_downloads, info_rows,
    integrity, is_sqlite, items_prompt, keys_of, lock_path, paths_of, problem_rows, prune_notes,
    prune_prompt, removal, removal_line, removal_prompt, reset_files, same_file, show_format,
    sidecar, CheckOutcome, DownloadEntry, DownloadFilter, LicensedContent, Stat, Stats,
};
use audible_commands::hosts::{allow_notes, host_rows, no_hosts_note, removed_note, AllowedHost};
use audible_commands::json::Json;
use audible_commands::units::human_size;

fn strings(list: &[&str]) -> Vec<String> {
    list.iter().map(|s| (*s).to_owned()).collect()
}

fn entry(file_path: &str, file_size: Option<u64>) -> DownloadEntry {
    DownloadEntry {
        asin: "B0TEST".into(),
        marketplace: "de".into(),
        kind: "audio".into(),
        content_format: "AAX_44_128".into(),
        variant: "original".into(),
        file_path: file_path.to_owned(),
        file_size,
    }
}

fn stat(file_path: &str, size: Option<u64>, found: Option<u64>, has_key: bool) -> Stat {
    Stat { entry: entry(file_path, size), found, has_key }
}

/// Missing file, size mismatch, matching size, and a recorded size that is not
/// there (never a mismatch).
#[test]
fn classify_partitions_missing_and_size_mismatch() {
    let report = classify_downloads(&vec![
        stat("/t/ok.aaxc", Some(4), Some(4), true),
        stat("/t/truncated.aaxc", Some(4), Some(2), true),
        stat("/t/no_size.aaxc", None, Some(8), true),
        stat("/t/gone.aaxc", Some(4), None, false),
    ]);

    assert_eq!(report.total, 4);
    assert_eq!(report.missing.len(), 1);
    assert!(report.missing[0].file_path.ends_with("gone.aaxc"));
    assert_eq!(report.mismatched.len(), 1);
    assert!(report.mismatched[0]
        .entry
        .file_path
        .ends_with("truncated.aaxc"));
    assert_eq!(report.mismatched[0].found, 2);
    assert!(report.sidecar_missing.is_empty());
}

/// An encrypted original without its key is flagged; files without a key never
/// are, and a record can have both problems.
#[test]
fn classify_flags_missing_key_sidecars() {
    let report = classify_downloads(&vec![
        stat("/t/with_key.aaxc", Some(4), Some(4), true),
        stat("/t/keyless.aaxc", Some(4), Some(4), false),
        stat("/t/keyless.AAC_44_131.cenc", Some(4), Some(4), false),
        stat("/t/decrypted.m4b", Some(4), Some(4), false),
        stat("/t/truncated_keyless.aaxc", Some(4), Some(2), false),
    ]);

    assert!(report.missing.is_empty());
    let flagged: Vec<String> = report
        .sidecar_missing
        .iter()
        .map(|item| item.sidecar.trim_start_matches("/t/").to_owned())
        .collect();
    assert_eq!(
        flagged,
        [
            "keyless.voucher",
            "keyless.AAC_44_131.wvkey",
            "truncated_keyless.voucher"
        ]
    );
    // The truncated keyless record carries both problems.
    assert_eq!(report.mismatched.len(), 1);
    assert!(report.mismatched[0]
        .entry
        .file_path
        .ends_with("truncated_keyless.aaxc"));
}

#[test]
fn problems_are_tabled_and_told() {
    let report = classify_downloads(&vec![
        stat("/t/gone.aaxc", Some(4), None, false),
        stat("/t/odd.aaxc", Some(4), Some(2), true),
        stat("/t/bare.aaxc", None, Some(2), false),
    ]);
    let rows = problem_rows(&report);
    assert_eq!(
        rows[0],
        ["B0TEST", "audio", "original", "AAX_44_128", "missing", "4 B", "-", "/t/gone.aaxc"]
    );
    assert_eq!(rows[1][4..], ["size mismatch", "4 B", "2 B", "/t/odd.aaxc"]);
    assert_eq!(rows[2][4..], ["sidecar missing", "-", "-", "/t/bare.voucher"]);
    match downloads_check(&report) {
        CheckOutcome::Problems { rows: shown, notes } => {
            assert_eq!(shown, rows);
            assert_eq!(notes.len(), 3);
            assert_eq!(
                notes[0],
                "1 of 3 tracked downloads reference missing files (remove with `audible db downloads prune`)"
            );
        }
        CheckOutcome::Fine(_) => panic!("there are problems"),
    }
    assert_eq!(
        prune_notes(&report),
        [
            "note: 1 size mismatch(es) left untouched (see `audible db downloads check`)",
            "note: 1 missing key sidecar(s) left untouched (see `audible db downloads check`)"
        ]
    );
    match downloads_check(&classify_downloads(&vec![stat("/t/a.m4b", None, Some(1), false)])) {
        CheckOutcome::Fine(text) => assert_eq!(
            text,
            "all 1 tracked downloads check out (files present, sizes match, key sidecars in place)"
        ),
        CheckOutcome::Problems { .. } => panic!("there are no problems"),
    }
}

fn any() -> DownloadFilter {
    DownloadFilter { asins: None, kind: None, format: None, variant: None }
}

#[test]
fn records_are_picked_by_all_that_is_given() {
    let mut other = entry("/t/b.pdf", None);
    other.kind = "pdf".into();
    other.content_format = String::new();
    other.asin = "B0OTHER".into();
    let list = vec![entry("/t/a.aaxc", Some(1)), other];
    assert_eq!(filter_downloads(&list, &any()).len(), 2);
    let pdf = DownloadFilter { kind: Some("pdf".into()), ..any() };
    assert_eq!(filter_downloads(&list, &pdf)[0].asin, "B0OTHER");
    let both = DownloadFilter {
        asins: Some(strings(&["B0TEST"])),
        kind: Some("pdf".into()),
        ..any()
    };
    assert!(filter_downloads(&list, &both).is_empty());
    assert_eq!(removal(&list, &pdf).unwrap().len(), 1);
    assert!(removal(&list, &any())
        .unwrap_err()
        .message()
        .starts_with("specify at least one of --asin/--title/--kind/--format/--variant"));

    assert_eq!(
        download_rows(&list)[1],
        ["B0OTHER", "pdf", "original", "-", "-", "/t/b.pdf"]
    );
    let keys = keys_of(&list);
    assert_eq!(keys[1].kind, "pdf");
    assert_eq!(keys[0].content_format, "AAX_44_128");
    assert_eq!(paths_of(&list), ["/t/a.aaxc", "/t/b.pdf"]);
    assert_eq!(show_format(""), "-");
}

#[test]
fn keys_go_with_their_audio() {
    assert_eq!(
        delete_files(&strings(&["/t/a.aaxc", "/t/b.pdf", "/t/c.cenc"])),
        ["/t/a.aaxc", "/t/a.voucher", "/t/b.pdf", "/t/c.cenc", "/t/c.wvkey"]
    );
}

#[test]
fn questions_before_removals() {
    assert_eq!(removal_prompt(2, false), "Remove 2 download records?");
    assert_eq!(
        removal_prompt(2, true),
        "Remove 2 download records AND delete their files?"
    );
    assert_eq!(items_prompt(1, false), "Remove 1 item(s)?");
    assert_eq!(
        items_prompt(1, true),
        "Remove 1 item(s) AND delete their downloaded files?"
    );
    assert_eq!(
        prune_prompt(3),
        "Remove 3 download records? Their artifacts will be re-fetched on the next run."
    );
    assert_eq!(
        removal_line(1, 2, 3, 4),
        "removed 1 item(s), 2 episode(s), 3 download record(s), 4 license(s)"
    );
}

#[test]
fn files_are_recorded_by_hand() {
    let record = downloads_add("A", "audio", "/f", None, "original", Some("mpeg"), Some(9), true)
        .unwrap();
    assert_eq!(record.request_kind, "mpeg");
    assert_eq!(record.content_format, "");
    assert_eq!(record.file_size, Some(9));
    assert!(record.acr.is_none() && record.sku.is_none() && record.version.is_none());
    assert!(downloads_add("A", "pdf", "/f", Some("x"), "original", None, None, false).is_ok());
    assert_eq!(
        downloads_add("A", "pdf", "/f", None, "original", None, None, true)
            .unwrap_err()
            .message(),
        "/f does not exist (drop --require-file to record it anyway)"
    );
    assert_eq!(
        check_request_kind("pdf", Some("mpeg")).unwrap_err().message(),
        "--request-kind only applies to --kind audio"
    );
}

#[test]
fn runs_without_a_trace_record_nothing() {
    let content = LicensedContent {
        acr: Some("CR!".into()),
        version: None,
        sku: Some("BK".into()),
    };
    let record = download_record(
        "A", Some(&content), "audio", "F", "original", "mpeg", "/f", Some(1), false,
    )
    .unwrap();
    assert_eq!(record.acr.as_deref(), Some("CR!"));
    assert_eq!(record.sku.as_deref(), Some("BK"));
    assert!(record.version.is_none());
    assert!(download_record("A", None, "pdf", "", "original", "", "/f", None, true).is_none());
}

#[test]
fn databases_are_told_and_kept_apart() {
    assert!(is_sqlite(&b"SQLite format 3\0".to_vec()));
    assert!(!is_sqlite(&b"SQLite format 3".to_vec()));
    assert!(!is_sqlite(&b"not a sqlite file".to_vec()));
    assert!(same_file(Some("/a/b"), Some("/a//b")));
    assert!(!same_file(Some("/a/b"), None));
    assert!(check_backup("/x", false).is_ok());
    assert_eq!(
        check_backup("/x", true).unwrap_err().message(),
        "/x already exists (choose another path or remove it first)"
    );
    let header = b"SQLite format 3\0".to_vec();
    assert!(check_restore("/x", &header, Some("/x"), Some("/y")).is_ok());
    assert_eq!(
        check_restore("/x", &header, Some("/x"), Some("/x")).unwrap_err().message(),
        "/x is the current database"
    );
    assert_eq!(
        check_restore("/x", &Vec::new(), Some("/x"), Some("/x")).unwrap_err().message(),
        "/x is not a SQLite database"
    );
    assert!(integrity(&strings(&["ok"])).is_ok());
    assert_eq!(
        integrity(&strings(&["a", "b"])).unwrap_err().message(),
        "integrity check found 2 problem(s)"
    );
}

#[test]
fn a_database_goes_with_its_files() {
    assert_eq!(sidecar("/d/a.sqlite", "-wal"), "/d/a.sqlite-wal");
    assert_eq!(
        reset_files("/d/a.sqlite"),
        ["/d/a.sqlite", "/d/a.sqlite-wal", "/d/a.sqlite-shm", "/d/a.lock"]
    );
    assert_eq!(lock_path("/d/a"), "/d/a.lock");
    assert_eq!(lock_path("/d/.hidden"), "/d/.hidden.lock");
    assert_eq!(lock_path("/d/.."), "/d/..");
    assert_eq!(lock_path("/d/a.b/"), "/d/a.lock");
}

#[test]
fn databases_are_described() {
    let stats = Stats {
        schema_version: 7,
        items_active: 3,
        items_deleted: 1,
        episodes_active: 4,
        series: 2,
        downloads: 5,
        licenses: 6,
        last_sync_utc: None,
    };
    let rows = info_rows("/d/a", Some(2048), None, Some(1), &stats);
    assert_eq!(rows[1], ["size", "2.00 KiB"]);
    assert_eq!(rows[2], ["wal / shm", "- / 1 B"]);
    assert_eq!(rows[3], ["schema", "v7"]);
    assert_eq!(rows[4], ["items", "3 active, 1 deleted"]);
    assert_eq!(rows[9], ["last sync", "never"]);
    assert_eq!(human_size(None), "-");
}

#[test]
fn record_row_maps_fields() {
    let last_heard = Json::parse(
        br#"{"type": "audible.last_heard", "startPosition": "123",
             "creationTime": "2026-06-19 07:25:41.0"}"#,
    )
    .unwrap();
    assert_eq!(
        record_row(&last_heard),
        vec!["last_heard", "123", "2026-06-19 07:25:41.0", ""]
    );

    // Clips span a range; notes carry text; the `audible.` prefix is stripped.
    let clip = Json::parse(
        br#"{"type": "audible.clip", "startPosition": "10", "endPosition": "20", "text": "hi"}"#,
    )
    .unwrap();
    assert_eq!(record_row(&clip), vec!["clip", "10–20", "", "hi"]);
}

#[test]
fn a_text_hides_a_note() {
    let row = |text: &[u8]| record_row(&Json::parse(text).unwrap())[3].clone();
    assert_eq!(row(br#"{"note": "n"}"#), "n");
    assert_eq!(row(br#"{"text": "t", "note": "n"}"#), "t");
    assert_eq!(row(br#"{"text": 5, "note": "n"}"#), "");
    let plain = Json::parse(br#"{"type": "bookmark", "endPosition": ""}"#).unwrap();
    assert_eq!(record_row(&plain), ["bookmark", "", "", ""]);
}

#[test]
fn annotations_are_selected_and_tallied() {
    let none = Vec::new();
    let one = strings(&["A"]);
    assert!(select(&one, &none, false, false).unwrap() == Selection::Named);
    assert!(select(&none, &none, true, false).unwrap() == Selection::All);
    assert!(select(&none, &none, false, true).unwrap() == Selection::Missing);
    assert_eq!(
        select(&none, &none, false, false).unwrap_err().message(),
        "select items with --asin/--title, or --all / --missing"
    );
    assert!(fetch_outcome(Some(true), true) == FetchOutcome::Synced);
    assert!(fetch_outcome(Some(false), true) == FetchOutcome::Empty);
    assert!(fetch_outcome(Some(true), false) == FetchOutcome::Failed);
    assert!(fetch_outcome(None, true) == FetchOutcome::Failed);
    assert_eq!(
        tally_line(&vec![FetchOutcome::Synced, FetchOutcome::Failed, FetchOutcome::Synced]),
        "annotations: 2 synced · 0 none · 1 failed"
    );
    assert!(refresh_outcome("A", Some(FetchOutcome::Empty)).is_ok());
    assert_eq!(
        refresh_outcome("A", None).unwrap_err().message(),
        "A is not in the library for the selected marketplace(s)"
    );
    assert_eq!(
        refresh_outcome("A", Some(FetchOutcome::Failed)).unwrap_err().message(),
        "could not refresh annotations for A"
    );
}

#[test]
fn the_inventory_can_hide_items_without_annotations() {
    let item = |asin: &str, status: Option<&str>| InventoryItem {
        marketplace: "de".into(),
        asin: asin.into(),
        full_title: "T".into(),
        status: status.map(str::to_owned),
        fetched_utc: None,
    };
    let items = vec![item("A", Some("ok")), item("B", Some("none")), item("C", None)];
    let rows = inventory_rows(&items, false);
    assert_eq!(rows[0], ["de", "A", "T", "synced", ""]);
    assert_eq!(rows[1][3], "none");
    assert_eq!(rows[2][3], "never");
    assert_eq!(inventory_rows(&items, true).len(), 2);
}

#[test]
fn stored_annotations_are_shown() {
    match show("A", "none", "then", None).unwrap() {
        ShowOutcome::Note(text) => assert_eq!(text, "no annotations for A (last synced then)"),
        ShowOutcome::Rows { .. } => panic!("there are none"),
    }
    match show("A", "ok", "then", Some(r#"{"payload": {"records": [{"type": "x"}]}}"#)).unwrap() {
        ShowOutcome::Rows { rows, note } => {
            assert_eq!(rows, [["x", "", "", ""]]);
            assert!(note.is_none());
        }
        ShowOutcome::Note(_) => panic!("there are some"),
    }
    match show("A", "ok", "then", None).unwrap() {
        ShowOutcome::Rows { rows, note } => {
            assert!(rows.is_empty());
            assert_eq!(note.as_deref(), Some("no annotation records for A"));
        }
        ShowOutcome::Note(_) => panic!("there is a table"),
    }
    assert_eq!(
        show("A", "ok", "then", Some("{")).unwrap_err().message(),
        "EOF while parsing an object at line 1 column 1"
    );
}

fn audit(caller: &str, path: &str) -> AuditEntry {
    AuditEntry {
        time: "t".into(),
        caller: caller.into(),
        method: "GET".into(),
        path: path.into(),
        status: 200,
        detail: None,
    }
}

#[test]
fn the_audit_log_is_filtered_before_it_is_cut() {
    let log = vec![audit("a", "/1"), audit("b", "/2"), audit("a", "/3"), audit("b", "/4")];
    let paths = |tail, caller| -> Vec<String> {
        audit_rows(&log, tail, caller).into_iter().map(|row| row[3].clone()).collect()
    };
    assert_eq!(paths(None, None), ["/1", "/2", "/3", "/4"]);
    assert_eq!(paths(Some(1), Some("a")), ["/3"]);
    assert_eq!(paths(Some(3), None), ["/2", "/3", "/4"]);
    assert_eq!(paths(Some(9), Some("b")), ["/2", "/4"]);
    assert_eq!(audit_rows(&log, None, None)[0], ["t", "a", "GET", "/1", "200", ""]);
}

#[test]
fn tokens_are_listed_without_the_token() {
    let record = TokenRecord {
        label: "l".into(),
        scopes: strings(&["read", "write"]),
        account: None,
        expires: None,
        created: "c".into(),
    };
    assert_eq!(token_rows(&vec![record]), [["l", "read,write", "-", "never", "c"]]);
    assert_eq!(revoke_line("l", true), Ok("revoked token \"l\"".to_owned()));
    assert_eq!(revoke_line("l", false), Err("no token named \"l\"".to_owned()));
}

#[test]
fn the_agent_tells_its_state_while_it_runs() {
    let answer = Json::parse(br#"{"unlocked_accounts": ["a", 5, "b"]}"#).unwrap();
    let rows = status_rows(true, Some(7), "/s", Some(&answer));
    assert_eq!(rows[1], ["pid", "7"]);
    assert_eq!(rows[3], ["unlocked accounts", "a, b"]);
    let rows = status_rows(false, Some(7), "/s", Some(&answer));
    assert_eq!(rows.len(), 3);
    assert_eq!(rows[0], ["status", "stopped"]);
    assert_eq!(rows[1], ["pid", "-"]);
    let empty = Json::parse(b"{}").unwrap();
    assert_eq!(status_rows(true, None, "/s", Some(&empty))[3][1], "-");
}

#[test]
fn outside_hosts() {
    assert_eq!(
        allow_notes("h", "signing"),
        ["approved external host \"h\" (auth: signing)"]
    );
    assert_eq!(allow_notes("h", "token").len(), 2);
    let hosts = vec![AllowedHost { host: "h".into(), auth: "auto".into() }];
    assert_eq!(host_rows(&hosts), [["h", "auto"]]);
    assert_eq!(
        no_hosts_note("agent"),
        "no approved external hosts (add one with `audible agent allow-host <host>`)"
    );
    assert_eq!(removed_note("h"), "removed external host \"h\"");
}

#[test]
fn install_targets_follow_xdg_conventions() {
    let data = "/d";
    let config = "/c";
    assert_eq!(
        completion_target(Shell::Bash, data, config).unwrap().path,
        "/d/bash-completion/completions/audible"
    );
    assert_eq!(
        completion_target(Shell::Zsh, data, config).unwrap().path,
        "/d/zsh/site-functions/_audible"
    );
    assert_eq!(
        completion_target(Shell::Fish, data, config).unwrap().path,
        "/c/fish/completions/audible.fish"
    );
    // No simple auto-load dir → --install refuses, print-and-redirect only.
    assert!(completion_target(Shell::PowerShell, data, config).is_err());
}

#[test]
fn base_directories_fall_back_to_home() {
    assert_eq!(xdg_dir(Some("/x"), None, ".config").unwrap(), "/x");
    assert_eq!(xdg_dir(Some(""), Some("/h"), ".config").unwrap(), "/h/.config");
    assert_eq!(xdg_dir(None, None, ".config"), Err("HOME is not set"));
    assert!(completion_target(Shell::Zsh, "/d", "/c").unwrap().hint.is_some());
    assert_eq!(
        completion_target(Shell::Elvish, "/d", "/c").unwrap_err(),
        "--install supports bash, zsh and fish; for elvish redirect the script yourself: audible completions elvish > <file>"
    );
}
