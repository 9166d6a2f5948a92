use audible_commands::catalog::{
    batches, choose_hits, documents, format_runtime, hit_label, hit_labels, is_consumable,
    parse_catalog_details, parse_catalog_hits, parse_eligibility, parse_product, pick_prompt,
    picked_note, resolve_catalog_titles, resolve_checked, search_notes, verbatim_title_shortlist, ByAsin,
    CatalogDetails, CatalogHit, CatalogQuery, Eligibility,
};
use audible_commands::json::Json;

fn json(text: &str) -> Json {
    Json::parse(text.as_bytes()).unwrap()
}

fn hit(asin: &str, title: &str, subtitle: Option<&str>) -> CatalogHit {
    CatalogHit {
        asin: asin.to_owned(),
        details: CatalogDetails {
            title: title.to_owned(),
            subtitle: subtitle.map(str::to_owned),
            publication: None,
            authors: String::new(),
            runtime_min: None,
        },
    }
}

#[test]
fn borrowable_only_for_consumable_loans() {
    let case = |consumable, indefinitely| Eligibility {
        full_title: "t".into(),
        is_consumable: consumable,
        is_consumable_indefinitely: indefinitely,
        content_delivery_type: None,
    };
    // Consumable + not-indefinitely = a loan → borrowable.
    assert!(case(Some(true), Some(false)).is_borrowable());
    // Consumable + indefinitely = already a purchase → not "borrowable".
    assert!(!case(Some(true), Some(true)).is_borrowable());
    // Not consumable = buy-only.
    assert!(!case(Some(false), Some(false)).is_borrowable());
    assert!(!case(None, None).is_borrowable());
}

#[test]
fn format_runtime_splits_hours() {
    assert_eq!(format_runtime(45), "45m");
    assert_eq!(format_runtime(60), "1h 0m");
    assert_eq!(format_runtime(754), "12h 34m");
}

#[test]
fn parses_catalog_details_with_authors() {
    let body = json(
        r#"{"products": [
            {"asin": "B0A", "title": "Book One",
             "authors": [{"name": "Alice"}, {"name": "Bob"}],
             "runtime_length_min": 754}
        ]}"#,
    );
    let mut details = ByAsin::new();
    parse_catalog_details(&body, &mut details);
    let one: &CatalogDetails = details.get("B0A").unwrap();
    assert_eq!(one.title, "Book One");
    assert_eq!(one.authors, "Alice, Bob");
    assert_eq!(one.runtime_min, Some(754));
    assert!(details.get("B0B").is_none());
}

#[test]
fn catalog_hits_parse_in_order_with_display_fields() {
    let body = json(
        r#"{"products": [
            {"asin": "B0B", "title": "Echo der Hoffnung", "subtitle": "Outlander 7",
             "publication_name": "Outlander [German Edition]",
             "authors": [{"name": "Diana Gabaldon"}], "runtime_length_min": 3255},
            {"asin": "B0A", "title": "Der Hobbit"},
            {"title": "no asin — skipped"}
        ]}"#,
    );
    let hits = parse_catalog_hits(&body);
    // Server ranking order is preserved (no map re-sorting).
    assert_eq!(hits.len(), 2);
    assert_eq!(hits[0].asin, "B0B");
    assert_eq!(
        hits[0].details.full_title(),
        "Echo der Hoffnung: Outlander 7"
    );
    // The publication is shown when the full title does not carry it…
    assert_eq!(
        hit_label(&hits[0]),
        "B0B  Echo der Hoffnung: Outlander 7  [Outlander [German Edition] · Diana Gabaldon · 54h 15m]"
    );
    // …and missing extras degrade gracefully.
    assert_eq!(hit_label(&hits[1]), "B0A  Der Hobbit");

    // A publication already contained in the full title is not repeated.
    let body = json(
        r#"{"products": [
            {"asin": "B0C", "title": "Outlander", "subtitle": "Outlander, Book 1",
             "publication_name": "Outlander"}
        ]}"#,
    );
    let hits = parse_catalog_hits(&body);
    assert_eq!(hit_label(&hits[0]), "B0C  Outlander: Outlander, Book 1");
}

#[test]
fn verbatim_matches_shortlist_the_hits() {
    // Searching "Outlander" offers every volume whose full title contains the
    // query, not the one volume literally titled that.
    let hits = vec![
        hit("B0EN", "Outlander", Some("Outlander, Book 1")),
        hit("B0DE", "Feuer und Stein", Some("Die Outlander-Saga 1")),
        hit("B0XX", "Cross Stitch", None),
    ];
    let shortlisted = verbatim_title_shortlist(&hits, "outlander");
    assert_eq!(shortlisted.len(), 2);
    assert_eq!(shortlisted[0].asin, "B0EN");
    assert_eq!(shortlisted[1].asin, "B0DE");

    // No hit contains the query verbatim: everything stays.
    let hits = vec![
        hit("B0A", "Der Hobbit", None),
        hit("B0B", "Der kleine Hobbit", None),
    ];
    assert_eq!(verbatim_title_shortlist(&hits, "hobit").len(), 2);

    // The publication counts as matching surface too.
    let mut with_publication = hit("B0P", "Feuer und Stein", None);
    with_publication.details.publication = Some("Outlander [German Edition]".to_owned());
    let hits = vec![
        hit("B0EN", "Outlander", Some("Outlander, Book 1")),
        with_publication,
    ];
    assert_eq!(verbatim_title_shortlist(&hits, "outlander").len(), 2);
}

#[test]
fn a_product_without_an_id_is_none() {
    assert!(parse_product(&json(r#"{"title": "x"}"#)).is_none());
    let (asin, details) = parse_product(&json(r#"{"asin": "A", "subtitle": ""}"#)).unwrap();
    assert_eq!(asin, "A");
    assert_eq!(details.title, "");
    assert_eq!(details.subtitle, None);
    assert_eq!(details.full_title(), "");
    assert!(parse_catalog_hits(&json("{}")).is_empty());
}

#[test]
fn the_latest_details_of_an_id_count() {
    let mut details = ByAsin::new();
    parse_catalog_details(&json(r#"{"products": [{"asin": "A", "title": "one"}]}"#), &mut details);
    parse_catalog_details(&json(r#"{"products": [{"asin": "A", "title": "two"}]}"#), &mut details);
    let found: &CatalogDetails = details.get("A").unwrap();
    assert_eq!(found.title, "two");
    parse_catalog_details(&json("{}"), &mut details);
    assert!(details.get("A").is_some());
}

#[test]
fn echoes_of_unknown_ids_are_no_documents() {
    let body = json(
        r#"{"products": [{"asin": "REAL", "title": "T"}, {"asin": "ECHO"},
            {"asin": "BLANK", "title": "  "}, {"title": "no id"}, {"asin": "TOO", "title": "U"}]}"#,
    );
    assert_eq!(documents(&body), [("REAL".to_owned(), 0), ("TOO".to_owned(), 4)]);
    assert!(documents(&json("[]")).is_empty());
}

#[test]
fn rights_come_from_the_account() {
    let body = json(
        r#"{"products": [{"asin": "A", "title": "T", "subtitle": "S",
            "content_delivery_type": "PodcastParent",
            "customer_rights": {"is_consumable": true, "is_consumable_indefinitely": false}},
            {"asin": "B", "title": "U"}]}"#,
    );
    let mut map = ByAsin::new();
    parse_eligibility(&body, &mut map);
    let a: &Eligibility = map.get("A").unwrap();
    assert_eq!(a.full_title, "T: S");
    assert!(a.is_borrowable());
    assert_eq!(a.content_delivery_type.as_deref(), Some("PodcastParent"));
    assert!(!map.get("B").unwrap().is_borrowable());
    assert_eq!(
        is_consumable(&json(r#"{"customer_rights": {"is_consumable": false}}"#)),
        Some(false)
    );
    assert_eq!(is_consumable(&json("{}")), None);
}

#[test]
fn ids_are_asked_for_in_batches() {
    let asins: Vec<String> = (0..101).map(|n| format!("A{n}")).collect();
    let list = batches(&asins);
    assert_eq!(list.len(), 3);
    assert!(list[0].starts_with("A0,A1,") && list[0].ends_with(",A49"));
    assert!(list[1].starts_with("A50,") && list[1].ends_with(",A99"));
    assert_eq!(list[2], "A100");
    assert!(batches(&Vec::new()).is_empty());
}

#[test]
fn titles_resolve_without_repeats() {
    let query = |words: &str, hits: Vec<CatalogHit>, picked: Option<Vec<usize>>| CatalogQuery {
        query: words.to_owned(),
        hits,
        picked,
    };
    let asins = vec![" B0A ".to_owned(), "".to_owned(), "B0A".to_owned()];
    let queries = vec![
        query("  ", vec![hit("B0Z", "x", None)], None),
        query("one", vec![hit("B0B", "one", None)], None),
        query("two", vec![hit("B0A", "two", None), hit("B0C", "two too", None)], Some(vec![1, 0])),
        query("none", Vec::new(), None),
    ];
    assert_eq!(
        resolve_catalog_titles(&asins, &queries).unwrap(),
        ["B0A", "B0B", "B0C"]
    );

    let error = resolve_catalog_titles(
        &Vec::new(),
        &vec![query("two", vec![hit("B0A", "two", None), hit("B0C", "two too", None)], None)],
    )
    .unwrap_err();
    assert_eq!(
        error.message(),
        "2 catalog titles match \"two\"; pass --asin or run interactively:\n  B0A  two\n  B0C  two too"
    );
}

#[test]
fn picks_have_to_be_among_what_was_offered() {
    let query = |picked: Vec<usize>| {
        vec![CatalogQuery {
            query: "two".to_owned(),
            hits: vec![hit("B0A", "two", None), hit("B0B", "two too", None), hit("B0C", "x", None)],
            picked: Some(picked),
        }]
    };
    let none = Vec::new();
    assert_eq!(resolve_checked(&none, &query(vec![1])).unwrap().unwrap(), ["B0B"]);
    // The third result was not offered: it does not hold what was searched for.
    assert!(resolve_checked(&none, &query(vec![2])).is_none());
}

#[test]
fn picks_choose_among_hits() {
    let hits = vec![hit("B0A", "a", None), hit("B0B", "b", None)];
    assert_eq!(choose_hits("q", &hits, Some(&vec![1])).unwrap(), ["B0B"]);
    assert!(choose_hits("q", &hits, Some(&Vec::new())).unwrap().is_empty());
    assert!(choose_hits("q", &hits, None).is_err());
    assert!(choose_hits("q", &Vec::new(), None).unwrap().is_empty());
    assert_eq!(hit_labels(&hits), ["B0A  a", "B0B  b"]);
}

#[test]
fn searches_are_commented() {
    let hits = vec![hit("B0A", "a", None)];
    assert_eq!(
        search_notes("q", 3, &hits),
        [
            "(1 of 3 catalog results contain \"q\" verbatim; the rest are hidden)",
            "\"q\" → B0A  a"
        ]
    );
    assert_eq!(
        search_notes("q", 0, &Vec::new()),
        ["no catalog title matches \"q\""]
    );
    assert_eq!(
        pick_prompt("q"),
        "Catalog matches for \"q\" — space toggles · a all · enter confirms"
    );
    assert_eq!(picked_note("q", 0, 2), "no titles selected for \"q\"");
    assert_eq!(picked_note("q", 1, 2), "selected 1 of 2 for \"q\"");
}
