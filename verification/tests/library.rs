use audible_commands::catalog::Eligibility;
use audible_commands::json::{document_text, Json};
use audible_commands::library::changes::{
    add_section, change_json, change_rows, format_change_fields, no_changes_note, normalize_since, prune_days,
    pruned_note, settle_since, shorten, show_field, ApplyOutcome, ChangeRecord, ChangedItem,
};
use audible_commands::library::episodes::{
    episode_rows, pick_show, show_line, EpisodeRow, PodcastRow,
};
use audible_commands::library::error::LibraryError;
use audible_commands::library::list::{
    borrowed_rows, check_query, csv_field, csv_row, empty_list_notes, export_csv, export_json,
    kind_passes, missing_rows, mp_book_rows, needs_query, none_missing_note, page_outcome,
    remote_page, remote_row, BookRow, BorrowedRow, ExportBook, MissingRow, PageOutcome,
};
use audible_commands::library::membership::{
    add_step, removal_path, removal_question, remove_step, AddStep, Kind, RemoveStep,
};
use audible_commands::library::sync::{
    page_size, poll_begin, poll_next, sync_options, sync_report, PollStep, SyncResult, SyncSummary,
};

fn strings(list: &[&str]) -> Vec<String> {
    list.iter().map(|s| (*s).to_owned()).collect()
}

#[test]
fn since_is_validated_and_normalized() {
    assert_eq!(
        normalize_since("2026-06-26").unwrap(),
        "2026-06-26T00:00:00Z"
    );
    assert_eq!(
        normalize_since(" 2026-06-26T12:00:00Z ").unwrap(),
        "2026-06-26T12:00:00Z"
    );
    for invalid in ["2026-6-26", "26.06.2026", "yesterday", ""] {
        assert!(normalize_since(invalid).is_err(), "{invalid:?}");
    }
}

#[test]
fn a_since_is_a_time_a_day_or_a_fault() {
    assert_eq!(settle_since("x", true, false).unwrap(), "x");
    assert_eq!(settle_since("x", false, true).unwrap(), "xT00:00:00Z");
    assert_eq!(
        settle_since("x", false, false).unwrap_err().message(),
        "--since \"x\" is not a recognized time — use YYYY-MM-DD or YYYY-MM-DDTHH:MM:SSZ"
    );
    assert!(normalize_since("2026-02-30").is_err());
}

#[test]
fn csv_field_quoting() {
    assert_eq!(csv_field("plain"), "plain");
    assert_eq!(csv_field("a,b"), "\"a,b\"");
    assert_eq!(csv_field("say \"hi\""), "\"say \"\"hi\"\"\"");
    assert_eq!(csv_field("line\nbreak"), "\"line\nbreak\"");
}

#[test]
fn csv_lines_hold_all_fields() {
    assert_eq!(csv_row(&strings(&["a", "", "b,c", "\""])), "a,,\"b,c\",\"\"\"\"");
    let book = ExportBook {
        marketplace: "de".into(),
        asin: "A".into(),
        kind: "book".into(),
        title: "T, or U".into(),
        subtitle: None,
        full_title: "T, or U".into(),
        purchase_date: Some("2020".into()),
        runtime_min: None,
        language: Some("german".into()),
    };
    assert_eq!(
        export_csv(&vec![book]),
        "mp,asin,kind,title,subtitle,full_title,purchase_date,runtime_min,language\n\
         de,A,book,\"T, or U\",,\"T, or U\",2020,,german\n"
    );
}

#[test]
fn changed_fields_are_shown_by_name_or_value() {
    let raw = r#"[{"key": "title", "old": "a  b", "new": null}, {"old": 1}, {"key": "n", "new": {"x": [1]}}]"#;
    assert_eq!(format_change_fields(Some(raw), false), "title, ?, n");
    assert_eq!(
        format_change_fields(Some(raw), true),
        "title: a b → null; ?: 1 → null; n: null → {\"x\":[1]}"
    );
    assert_eq!(format_change_fields(None, true), "—");
    assert_eq!(format_change_fields(Some("{}"), true), "—");
    assert_eq!(format_change_fields(Some("nonsense"), false), "—");
    assert_eq!(show_field(None, "a", "b", false), "?");
}

#[test]
fn long_values_are_cut() {
    let sixty = "x".repeat(60);
    assert_eq!(shorten(&sixty), sixty);
    assert_eq!(shorten(&"x".repeat(61)), format!("{}…", "x".repeat(57)));
    assert_eq!(shorten(" a \n b "), "a b");
}

#[test]
fn the_log_is_tabled() {
    let record = ChangeRecord {
        recorded_utc: "t".into(),
        marketplace: "de".into(),
        change: "changed".into(),
        item_kind: "book".into(),
        asin: "A".into(),
        full_title: "T".into(),
        changed: Some(r#"[{"key": "k"}]"#.into()),
    };
    assert_eq!(
        change_rows(&vec![record], false),
        [["t", "de", "changed", "book", "A", "T", "k"]]
    );
    assert!(no_changes_note(false).ends_with("pass --show-volatile"));
    assert!(no_changes_note(true).ends_with("`record_changes` is on)"));
    assert_eq!(prune_days(None, 30), Some(30));
    assert_eq!(prune_days(Some(0), 30), None);
    assert_eq!(prune_days(None, 0), None);
    assert_eq!(pruned_note(1, 7), "pruned 1 change-log entry older than 7 days");
    assert_eq!(pruned_note(2, 7), "pruned 2 change-log entries older than 7 days");
}

fn changed(asin: &str) -> Vec<ChangedItem> {
    vec![ChangedItem { asin: asin.to_owned(), full_title: format!("T{asin}") }]
}

fn outcome(added: &str, volatile: &str) -> ApplyOutcome {
    let list = |s: &str| if s.is_empty() { Vec::new() } else { changed(s) };
    ApplyOutcome {
        added: list(added),
        changed: Vec::new(),
        changed_volatile: list(volatile),
        removed: Vec::new(),
    }
}

#[test]
fn changes_are_listed_by_group() {
    let mut lines = Vec::new();
    add_section(&mut lines, "de", &outcome("A", "V"), true, true);
    assert_eq!(
        lines,
        [
            "changes (de):",
            "  + added (1)",
            "      A  TA",
            "  ~ changed (volatile) (1)",
            "      V  TV"
        ]
    );
    let mut lines = Vec::new();
    add_section(&mut lines, "de", &outcome("", "V"), false, false);
    assert!(lines.is_empty());
    add_section(&mut lines, "de", &outcome("A", "V"), false, false);
    assert_eq!(lines, ["changes:", "  + added (1)", "      A  TA"]);
}

fn synced(marketplace: &str, initial: bool, changes: ApplyOutcome) -> SyncResult {
    SyncResult {
        marketplace: marketplace.to_owned(),
        outcome: Ok(SyncSummary {
            mode: "full".to_owned(),
            pages: 2,
            initial,
            changes,
            podcasts_resolved: 1,
            episodes_upserted: 3,
            episodes_deleted: 0,
        }),
    }
}

#[test]
fn a_sync_is_summed_up_and_failures_hide_nothing() {
    let results = vec![
        synced("us", false, outcome("A", "")),
        SyncResult { marketplace: "fr".into(), outcome: Err("down".into()) },
        synced("de", true, outcome("B", "")),
    ];
    let report = sync_report(results, &strings(&["us", "fr", "de"]), "/db", false);
    assert_eq!(
        report.progress,
        [
            "de: full mode, +1 ~0 -0",
            "fr: sync failed: down",
            "us: full mode, +1 ~0 -0"
        ]
    );
    assert_eq!(report.changes, ["changes (us):", "  + added (1)", "      A  TA"]);
    let cell = |name: &str| {
        report.rows.iter().find(|row| row[0] == name).unwrap()[1].clone()
    };
    assert_eq!(cell("marketplaces"), "us,fr,de");
    assert_eq!(cell("mode"), "full");
    assert_eq!(cell("pages"), "4");
    assert_eq!(cell("added"), "2");
    assert_eq!(cell("podcasts_resolved"), "2");
    assert_eq!(cell("episodes_upserted"), "6");
    assert_eq!(cell("database"), "/db");
    assert_eq!(
        report.fault.unwrap().message(),
        "1 of 3 marketplace(s) failed to sync"
    );

    let report = sync_report(Vec::new(), &strings(&["us"]), "/db", false);
    assert!(report.fault.is_none() && report.progress.is_empty());
    assert_eq!(report.rows[1], ["mode", "delta"]);
}

#[test]
fn options_keep_to_what_the_server_takes() {
    assert_eq!(page_size(1), 10);
    assert_eq!(page_size(50), 50);
    assert_eq!(page_size(5000), 1000);
    let options = sync_options(true, true, 5000, true, true, 7);
    assert!(options.full && !options.resolve_podcasts && options.record_changes);
    assert_eq!(options.page_size, 1000);
    assert_eq!(options.change_retention_days, 7);
}

#[test]
fn a_change_is_waited_for_three_times() {
    assert!(matches!(poll_begin(false), PollStep::Hint(_)));
    let mut delays = Vec::new();
    let mut step = poll_begin(true);
    while let PollStep::Attempt { attempt, delay_secs, note } = step {
        assert_eq!(note.is_some(), attempt > 0);
        delays.push(delay_secs);
        step = poll_next(attempt, false, "the change");
    }
    assert_eq!(delays, [2, 5, 10]);
    match step {
        PollStep::GiveUp(text) => assert_eq!(
            text,
            "warning: the change has not reached the library view yet — run `audible library sync` again in a moment"
        ),
        _ => panic!("expected to give up"),
    }
    assert!(matches!(poll_next(0, true, "x"), PollStep::Done));
}

fn podcast(asin: &str, title: &str) -> PodcastRow {
    PodcastRow {
        asin: asin.to_owned(),
        full_title: title.to_owned(),
        marketplace: "de".to_owned(),
        stored_episodes: 3,
        announced_episodes: None,
    }
}

#[test]
fn a_show_has_to_be_unique() {
    let rows = vec![podcast("A", "Lage der Nation"), podcast("B", "Nation of Sleep")];
    assert_eq!(pick_show(&rows, "LAGE").unwrap(), 0);
    assert_eq!(pick_show(&rows, "B").unwrap(), 1);
    assert_eq!(
        pick_show(&rows, "nation").unwrap_err().message(),
        "\"nation\" is ambiguous: Lage der Nation (A, de), Nation of Sleep (B, de)"
    );
    assert_eq!(
        pick_show(&rows, "xyz").unwrap_err().message(),
        "no followed podcast matches \"xyz\""
    );
    assert_eq!(
        show_line(&rows[0]),
        "Lage der Nation — 3 stored / ? announced episode(s)"
    );
    let episode = EpisodeRow {
        asin: "E".into(),
        full_title: "T".into(),
        release_date: None,
        last: Some("12".into()),
    };
    assert_eq!(episode_rows(&vec![episode]), [["E", "T", "", "12"]]);
}

#[test]
fn pages_end() {
    assert!(needs_query(0, 1) && needs_query(10, 3) && !needs_query(0, 2));
    assert!(page_outcome(1, 3) == PageOutcome::Rows);
    assert!(page_outcome(0, 3) == PageOutcome::PastTheEnd);
    assert!(page_outcome(0, 1) == PageOutcome::Nothing);
}

#[test]
fn empty_lists_are_explained() {
    assert_eq!(
        empty_list_notes(&Vec::new()),
        ["library database is empty — run `audible library sync`"]
    );
    assert_eq!(empty_list_notes(&strings(&["book"])), ["no items of kind book"]);
    assert_eq!(empty_list_notes(&strings(&["book", "episode"])).len(), 2);
    assert_eq!(
        none_missing_note("items", &strings(&["audio", "pdf"])),
        "no items lacking audio/pdf downloads"
    );
}

#[test]
fn rows_of_the_library() {
    let book = BookRow {
        marketplace: "de".into(),
        asin: "A".into(),
        kind: "book".into(),
        full_title: "T".into(),
        purchase_date: None,
        runtime_min: Some("9".into()),
        language: None,
    };
    assert_eq!(mp_book_rows(&vec![book]), [["de", "A", "book", "T", "", "9", ""]]);
    let missing = MissingRow {
        marketplace: "de".into(),
        asin: "A".into(),
        full_title: "T".into(),
        missing: "pdf".into(),
    };
    assert_eq!(missing_rows(&vec![missing]), [["de", "A", "T", "pdf"]]);
    let borrowed = vec![BorrowedRow {
        marketplace: "de".into(),
        asin: "A".into(),
        full_title: "T".into(),
        eligible: String::new(),
        not_eligible: String::new(),
    }];
    assert_eq!(borrowed_rows(&borrowed, true), [["de", "A", "T", "none", "—"]]);
    assert_eq!(borrowed_rows(&borrowed, false), [["de", "A", "T", "", ""]]);
}

#[test]
fn remote_pages_fill_up_to_the_limit() {
    let item = |asin: &str| {
        let text = format!("{{\"asin\": \"{asin}\"}}");
        (serde_json::from_str(&text).unwrap(), asin.to_lowercase())
    };
    let page = vec![item("A"), item("B"), item("C")];
    let mut rows = Vec::new();
    assert!(!remote_page(&mut rows, &page, 4));
    assert_eq!(rows.len(), 3);
    assert_eq!(rows[2], ["C", "c", "", "", ""]);
    assert!(remote_page(&mut rows, &page, 4));
    assert_eq!(rows.len(), 4);
    assert_eq!(rows[3][0], "A");
    assert!(!remote_page(&mut rows, &Vec::new(), 4));
}

#[test]
fn remote_rows_show_any_value() {
    let item: serde_json::Value =
        serde_json::from_str(r#"{"asin": "A", "purchase_date": "p", "runtime_length_min": 12}"#)
            .unwrap();
    assert_eq!(remote_row(&item, "T"), ["A", "T", "p", "12", ""]);
    let odd: serde_json::Value = serde_json::from_str(r#"{"asin": 7, "language": ["x"]}"#).unwrap();
    assert_eq!(remote_row(&odd, "T"), ["", "T", "", "", "[\"x\"]"]);
}

#[test]
fn there_has_to_be_something_to_search_for() {
    assert!(check_query(" x ").is_ok());
    assert!(matches!(check_query("  "), Err(LibraryError::EmptyQuery)));
    assert_eq!(check_query("").unwrap_err().message(), "the search query is empty");
    assert!(kind_passes("book", &Vec::new()));
    assert!(kind_passes("book", &strings(&["episode", "book"])));
    assert!(!kind_passes("book", &strings(&["episode"])));
}

fn rights(consumable: bool, for_good: bool, delivery: Option<&str>) -> Eligibility {
    Eligibility {
        full_title: "T".into(),
        is_consumable: Some(consumable),
        is_consumable_indefinitely: Some(for_good),
        content_delivery_type: delivery.map(str::to_owned),
    }
}

fn added(step: AddStep) -> Result<String, String> {
    match step {
        AddStep::Add(text) => Ok(text),
        AddStep::Skip(text) => Err(text),
    }
}

#[test]
fn only_loans_are_added() {
    let none = Vec::new();
    assert_eq!(
        added(add_step("A", true, Some(&rights(true, false, None)), &none)),
        Err("A is already in your library; skipping".to_owned())
    );
    assert_eq!(
        added(add_step("A", false, Some(&rights(true, false, None)), &none)),
        Ok("borrowed A (T)".to_owned())
    );
    assert_eq!(
        added(add_step("A", false, Some(&rights(true, false, Some("Periodical"))), &none)),
        Ok("now following A (T)".to_owned())
    );
    assert_eq!(
        added(add_step(
            "A",
            false,
            Some(&rights(true, false, Some("PodcastEpisode"))),
            &strings(&["book"])
        )),
        Err("A (T) is a episode — skipped by --kind book".to_owned())
    );
    assert_eq!(
        added(add_step("A", false, Some(&rights(true, true, None)), &none)),
        Err("A (T) is already owned — a purchase can't be added this way".to_owned())
    );
    assert_eq!(
        added(add_step("A", false, None, &none)),
        Err("A isn't available to borrow — it's purchase-only".to_owned())
    );
}

fn removed(step: RemoveStep) -> Result<(String, Kind), String> {
    match step {
        RemoveStep::Target { named, kind } => Ok((named, kind)),
        RemoveStep::Skip(text) => Err(text),
    }
}

#[test]
fn purchases_stay() {
    let none = Vec::new();
    assert_eq!(
        removed(remove_step("A", None, &none)).unwrap_err(),
        "A is not in your library; skipping"
    );
    let loan = r#"{"title": "T", "is_removable": true, "origin_type": "AudibleComplimentary"}"#;
    let (named, kind) = removed(remove_step("A", Some(loan), &none)).unwrap();
    assert_eq!(named, "A (T)");
    assert!(kind == Kind::Audiobook);
    for owned in [
        r#"{"title": "T", "is_removable": true, "origin_type": "Purchase"}"#,
        r#"{"title": "T", "is_removable": false}"#,
        r#"{"title": "T"}"#,
    ] {
        assert_eq!(
            removed(remove_step("A", Some(owned), &none)).unwrap_err(),
            "A (T) is a purchase — it can't be removed from the library"
        );
    }
    assert_eq!(
        removed(remove_step("A", Some("nonsense"), &none)).unwrap_err(),
        "A is a purchase — it can't be removed from the library"
    );
    assert_eq!(
        removed(remove_step("A", Some(loan), &strings(&["podcast", "episode"]))).unwrap_err(),
        "A (T) is a book — skipped by --kind podcast,episode"
    );
}

#[test]
fn kinds_choose_the_words() {
    assert!(Kind::classify(Some("PodcastParent")) == Kind::Podcast);
    assert!(Kind::classify(Some("SinglePartBook")) == Kind::Audiobook);
    assert!(Kind::classify(None) == Kind::Audiobook);
    assert_eq!(Kind::Podcast.removed("P"), "unfollowed P");
    assert_eq!(Kind::Episode.added("E"), "added episode E");
    assert_eq!(Kind::Podcast.unavailable("P"), "P isn't available to follow");
    assert_eq!(Kind::Episode.as_filter(), "episode");
    assert_eq!(
        removal_question(&strings(&["A", "B"])),
        "Remove 2 item(s) from your library (downloaded files are kept): A, B?"
    );
    assert_eq!(removal_path("A"), "/1.0/library/item/A/default_loan_ID");
}

#[test]
fn json_is_read_as_it_stands() {
    let doc = Json::parse(br#"{"a": 1}"#).unwrap();
    assert_eq!(doc.get_u64("a"), Some(1));
    assert!(Json::parse(b"{").is_none());
    assert!(matches!(Json::parse(b"1.50"), Some(Json::Number(n)) if n == "1.5"));
}

fn names(json: &Json) -> Vec<&str> {
    json.as_object().unwrap().iter().map(|(name, _)| name.as_str()).collect()
}

#[test]
fn changes_are_shown_whole_as_json() {
    let record = |changed: Option<&str>| ChangeRecord {
        recorded_utc: "t".into(),
        marketplace: "de".into(),
        change: "changed".into(),
        item_kind: "book".into(),
        asin: "A".into(),
        full_title: "T".into(),
        changed: changed.map(str::to_owned),
    };
    let json = change_json(&record(Some(r#"[{"key": "k"}]"#)));
    assert_eq!(
        names(&json),
        ["recorded", "mp", "change", "kind", "asin", "title", "fields"]
    );
    assert_eq!(json.get_str("mp"), Some("de"));
    assert_eq!(json.get_array("fields").unwrap()[0].get_str("key"), Some("k"));
    for none in [None, Some("{")] {
        assert!(matches!(change_json(&record(none)).get("fields"), Some(Json::Null)));
    }
}

#[test]
fn exports_hold_the_kinds_asked_for() {
    let item = |kind: &str, text: &str| (kind.to_owned(), Json::Text(text.to_owned()));
    let items = || vec![item("book", "a"), item("podcast", "b"), item("book", "c")];
    let json = export_json("now", &strings(&["de", "us"]), "media", items(), &strings(&["book"]));
    assert_eq!(
        names(&json),
        [
            "format",
            "version",
            "exported_utc",
            "marketplaces",
            "response_groups",
            "count",
            "items"
        ]
    );
    assert_eq!(json.get_str("format"), Some("audible-rs-library-export"));
    assert_eq!(json.get_u64("version"), Some(1));
    assert_eq!(json.get_u64("count"), Some(2));
    let kept: Vec<&str> =
        json.get_array("items").unwrap().iter().map(|doc| doc.as_str().unwrap()).collect();
    assert_eq!(kept, ["a", "c"]);
    let all = export_json("now", &strings(&[]), "media", items(), &strings(&[]));
    assert_eq!(all.get_u64("count"), Some(3));
}

#[test]
fn documents_are_written_over_lines() {
    let doc: serde_json::Value = serde_json::from_str("{\"a\":[1]}").unwrap();
    assert_eq!(document_text(&doc), "{\n  \"a\": [\n    1\n  ]\n}");
}
