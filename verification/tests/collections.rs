use audible_commands::catalog::{ByAsin, CatalogDetails};
use audible_commands::collections::{
    absent_note, added_note, archive_reflected, archived_in_doc, date_only, item_rows, lists_rows,
    parse_items_page, part_by_presence, present_note, resolve_removals, state_token,
    AddTitleSource, CollectionItem, Noun,
};
use audible_commands::json::Json;

fn json(text: &str) -> Json {
    Json::parse(text.as_bytes()).unwrap()
}

fn item(asin: &str) -> CollectionItem {
    CollectionItem {
        asin: asin.to_owned(),
        added: Some("2026-06-19T09:20:50.749Z".to_owned()),
    }
}

fn detail(title: &str) -> CatalogDetails {
    CatalogDetails {
        title: title.to_owned(),
        subtitle: None,
        publication: None,
        authors: String::new(),
        runtime_min: None,
    }
}

#[test]
fn parses_items_page_and_continuation() {
    let body = json(
        r#"{
            "continuation_token": "NEXT",
            "items": [
                {"asin": "B0A", "addition_date": "2026-06-19T09:20:50.749Z"},
                {"asin": "B0B", "addition_date": null},
                {"title": "no asin — skipped"}
            ]
        }"#,
    );
    let (items, next) = parse_items_page(&body);
    assert_eq!(next.as_deref(), Some("NEXT"));
    assert_eq!(items.len(), 2);
    assert_eq!(items[0].asin, "B0A");
    assert_eq!(items[0].added.as_deref(), Some("2026-06-19T09:20:50.749Z"));
    assert_eq!(items[1].added, None);

    // Both null and empty-string tokens end the pagination.
    let done = json(r#"{"continuation_token": null, "items": []}"#);
    assert_eq!(parse_items_page(&done).1, None);
    let empty = json(r#"{"continuation_token": "", "items": []}"#);
    assert_eq!(parse_items_page(&empty).1, None);
}

#[test]
fn lists_rows_extracts_all_lists() {
    let body = json(
        r#"{"lists": [
            {"list_id": "__WISHLIST", "name": "User Wishlist", "list_type": "WISHLIST",
             "list_section": "YOUR_LISTS", "item_count": 5},
            {"list_id": "__SERIES", "name": "Serien", "list_type": "SERIES",
             "list_section": "LISTS_FROM_LIBRARY", "item_count": null}
        ]}"#,
    );
    let rows = lists_rows(&body);
    assert_eq!(rows.len(), 2);
    assert_eq!(
        rows[0],
        ["__WISHLIST", "User Wishlist", "WISHLIST", "YOUR_LISTS", "5"]
    );
    assert_eq!(rows[1][4], "-");
    assert!(lists_rows(&json("{}")).is_empty());
}

#[test]
fn removals_resolve_asins_titles_and_dedupe() {
    let items = vec![item("B0A"), item("B0B"), item("B0C")];
    let mut details = ByAsin::new();
    details.insert("B0A".to_owned(), detail("Der Hobbit"));
    details.insert("B0B".to_owned(), detail("Der Herr der Ringe 1"));
    details.insert("B0C".to_owned(), detail("Der Herr der Ringe 2"));

    // ASIN off the list is skipped with a warning, not an error.
    let targets = resolve_removals(
        &items,
        &details,
        &vec!["B0A".into(), "B0NOTLISTED".into()],
        &vec!["hobbit".into()],
        "the wishlist",
    )
    .unwrap();
    // "B0A" arrives via ASIN and title — deleted once.
    assert_eq!(targets, ["B0A"]);

    // Ambiguous title query fails and names the candidates.
    let error = resolve_removals(
        &items,
        &details,
        &Vec::new(),
        &vec!["herr der ringe".into()],
        "the archive",
    )
    .unwrap_err()
    .message();
    assert!(error.contains("2 titles in the archive"), "{error}");
    assert!(error.contains("B0B") && error.contains("B0C"), "{error}");

    // No match at all fails too.
    assert!(resolve_removals(
        &items,
        &details,
        &Vec::new(),
        &vec!["narnia".into()],
        "the archive"
    )
    .is_err());

    // The subtitle is matching surface (full title): "Outlander 7"
    // finds "Echo der Hoffnung: Outlander 7".
    let items = vec![item("B0S")];
    let mut with_subtitle = ByAsin::new();
    let mut d = detail("Echo der Hoffnung");
    d.subtitle = Some("Outlander 7".to_owned());
    with_subtitle.insert("B0S".to_owned(), d);
    let targets = resolve_removals(
        &items,
        &with_subtitle,
        &Vec::new(),
        &vec!["outlander 7".into()],
        "the wishlist",
    )
    .unwrap();
    assert_eq!(targets, ["B0S"]);
}

#[test]
fn removal_titles_tolerate_trailing_wildcards() {
    let items = vec![item("B0A")];
    let mut details = ByAsin::new();
    details.insert("B0A".to_owned(), detail("Waffenbrüder: Band 11"));

    let targets = resolve_removals(
        &items,
        &details,
        &Vec::new(),
        &vec!["Waffen*".into()],
        "the archive",
    )
    .unwrap();
    assert_eq!(targets, ["B0A"]);

    let error = resolve_removals(
        &items,
        &details,
        &Vec::new(),
        &vec!["Waf*fen".into()],
        "the archive",
    )
    .unwrap_err()
    .message();
    assert!(error.contains("plain substring"), "{error}");

    // A pure-wildcard query is rejected instead of matching everything.
    let error = resolve_removals(
        &items,
        &details,
        &Vec::new(),
        &vec!["*".into()],
        "the archive",
    )
    .unwrap_err()
    .message();
    assert!(error.contains("empty title query"), "{error}");
}

#[test]
fn ambiguous_removals_are_listed_in_the_order_of_ids() {
    let items = vec![item("B2"), item("B1"), item("B2")];
    let mut details = ByAsin::new();
    details.insert("B2".to_owned(), detail("Same two"));
    details.insert("B1".to_owned(), detail("Same one"));
    details.insert("B0".to_owned(), detail("Same, but not listed"));
    let error = resolve_removals(&items, &details, &Vec::new(), &vec!["same".into()], "the archive")
        .unwrap_err();
    assert_eq!(
        error.message(),
        "\"same\" matches 2 titles in the archive — narrow the query or use --asin:\n  B1  Same one\n  B2  Same two"
    );
    let error = resolve_removals(&items, &details, &Vec::new(), &vec!["x".into()], "the archive")
        .unwrap_err();
    assert_eq!(error.message(), "no title in the archive matches \"x\"");
}

#[test]
fn archived_flag_parses_from_doc() {
    assert_eq!(archived_in_doc(r#"{"is_archived": true}"#), Some(true));
    assert_eq!(archived_in_doc(r#"{"is_archived": false}"#), Some(false));
    assert_eq!(archived_in_doc(r#"{"title": "x"}"#), None);
    assert_eq!(archived_in_doc("not json"), None);
}

#[test]
fn date_formatting() {
    assert_eq!(date_only("2026-06-19T09:20:50.749Z"), "2026-06-19");
    assert_eq!(date_only("short"), "short");
}

#[test]
fn days_are_cut_at_whole_characters() {
    assert_eq!(date_only("2026-06-19"), "2026-06-19");
    // The tenth byte falls inside a character.
    assert_eq!(date_only("2026-06-1é more"), "2026-06-1é more");
    assert_eq!(date_only("2026-06-é more"), "2026-06-é");
    assert_eq!(date_only(""), "");
}

#[test]
fn reflection_needs_the_expected_flag() {
    assert!(archive_reflected(None, true));
    assert!(archive_reflected(Some(Some(true)), true));
    assert!(!archive_reflected(Some(Some(true)), false));
    assert!(!archive_reflected(Some(None), false));
}

#[test]
fn rows_join_items_and_details() {
    let items = vec![item("A"), CollectionItem { asin: "B".into(), added: None }];
    let mut details = ByAsin::new();
    let mut d = detail("T");
    d.publication = Some("P".into());
    d.authors = "W".into();
    d.runtime_min = Some(61);
    details.insert("A".to_owned(), d);
    let rows = item_rows("de", &items, &details);
    assert_eq!(rows[0], ["de", "A", "2026-06-19", "T", "P", "W", "1h 1m"]);
    assert_eq!(rows[1], ["de", "B", "-", "", "-", "", "-"]);
}

#[test]
fn what_is_there_is_not_added_again() {
    let items = vec![item("A"), item("C")];
    let parted = part_by_presence(&vec!["A".into(), "B".into(), "C".into(), "B".into()], &items);
    assert_eq!(parted.present, ["A", "C"]);
    assert_eq!(parted.missing, ["B", "B"]);
    assert_eq!(
        present_note("A", "the archive"),
        "A is already in the archive; skipping"
    );
    assert_eq!(absent_note("A", "the archive"), "A is not in the archive; skipping");
    assert_eq!(
        added_note(&json(r#"{"num_items_added": 1}"#), 2, "the wishlist"),
        "added 1 of 2 title(s) to the wishlist"
    );
    assert_eq!(
        added_note(&json("{}"), 2, "the wishlist"),
        "added ? of 2 title(s) to the wishlist"
    );
}

#[test]
fn changes_need_a_token() {
    assert_eq!(state_token(&json(r#"{"state_token": "T"}"#)).unwrap(), "T");
    assert_eq!(
        state_token(&json("{}")).unwrap_err().message(),
        "the collection response carries no state_token"
    );
}

#[test]
fn the_lists_with_commands() {
    assert_eq!(Noun::Wishlist.name(), "wishlist");
    assert_eq!(Noun::Archive.collection_id(), "__ARCHIVE");
    assert_eq!(Noun::Wishlist.phrase(), "the wishlist");
    assert!(Noun::Wishlist.add_title_source() == AddTitleSource::Catalog);
    assert!(Noun::Archive.sync_flag() && !Noun::Wishlist.sync_flag());
}
