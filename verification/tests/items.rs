use audible_commands::items::{
    classify_asin, parse_title_arg, resolve_asins, resolve_checked, title_candidates, AsinClass,
    FoundEpisode, FoundItem, GivenAsin, GivenTitle, ItemKind, PodcastMode, ShowEpisode,
};

fn found(asin: &str, kind: &str, title: &str, episodes: &[(&str, &str)]) -> FoundItem {
    FoundItem {
        asin: asin.into(),
        kind: kind.into(),
        full_title: title.into(),
        episodes: episodes
            .iter()
            .map(|(asin, title)| ShowEpisode {
                asin: (*asin).into(),
                full_title: (*title).into(),
            })
            .collect(),
    }
}

fn hit(asin: &str, title: &str, parent: &str) -> FoundEpisode {
    FoundEpisode {
        asin: asin.into(),
        full_title: title.into(),
        parent_title: parent.into(),
    }
}

fn given(asin: &str) -> GivenAsin {
    GivenAsin {
        asin: asin.into(),
        class: AsinClass::Other,
    }
}

#[test]
fn parse_title_plain() {
    let tq = parse_title_arg("star wars").unwrap();
    assert_eq!(tq.query, "star wars");
    assert_eq!(tq.cap, 15);
}

#[test]
fn parse_title_with_cap() {
    let tq = parse_title_arg("jedi~5").unwrap();
    assert_eq!(tq.query, "jedi");
    assert_eq!(tq.cap, 5);
}

#[test]
fn parse_title_cap_zero_is_err() {
    assert!(parse_title_arg("jedi~0").is_err());
}

#[test]
fn parse_title_cap_non_numeric_is_err() {
    assert!(parse_title_arg("jedi~x").is_err());
}

#[test]
fn parse_title_takes_the_last_tilde() {
    let tq = parse_title_arg(" a~b ~ 7 ").unwrap();
    assert_eq!(tq.query, "a~b");
    assert_eq!(tq.cap, 7);
    assert_eq!(
        parse_title_arg("a~").unwrap_err().message(),
        "invalid --title cap in \"a~\": expected \"query~N\" with N >= 1"
    );
}

/// Explicit ids pass through once, single matches are taken, no match is
/// skipped, several matches need somebody to ask.
#[test]
fn resolve_asins_verbatim_and_dedupe() {
    let mode = PodcastMode::ItemsOnly;
    let result = resolve_asins(
        &vec![given("A1"), given(" A1 "), given(""), given("ZZ")],
        &vec![],
        mode,
    )
    .unwrap();
    assert_eq!(result, vec!["A1", "ZZ"]);

    let one = title_candidates(&vec![found("A1", "book", "Jedi Quest", &[])], &vec![], mode);
    let title = |candidates, selection| GivenTitle {
        raw: "jedi".into(),
        candidates,
        selection,
    };
    let result = resolve_asins(&vec![given("A1")], &vec![title(one, None)], mode).unwrap();
    assert_eq!(result, vec!["A1"]);
    let result = resolve_asins(&vec![], &vec![title(vec![], None)], mode).unwrap();
    assert!(result.is_empty());

    let both = || {
        title_candidates(
            &vec![
                found("A1", "book", "Jedi Quest", &[]),
                found("A2", "book", "Star Wars", &[]),
            ],
            &vec![],
            mode,
        )
    };
    let error = resolve_asins(&vec![], &vec![title(both(), None)], mode).unwrap_err();
    assert_eq!(
        error.message(),
        "2 titles match \"jedi\"; pass --asin or run interactively:\n  A1  Jedi Quest\n  A2  Star Wars"
    );
    let result = resolve_asins(&vec![], &vec![title(both(), Some(vec![1]))], mode).unwrap();
    assert_eq!(result, vec!["A2"]);
    let result = resolve_asins(&vec![], &vec![title(both(), Some(vec![]))], mode).unwrap();
    assert!(result.is_empty());
}

/// Episodes are found only where they are surfaced; one that is an item too is
/// offered once.
#[test]
fn resolve_asins_episode_scope() {
    let hits = vec![hit("E1", "Folge Eins: Anfang", "Mein Podcast")];
    assert!(title_candidates(&vec![], &hits, PodcastMode::ItemsOnly).is_empty());
    let rows = title_candidates(&vec![], &hits, PodcastMode::Episodes);
    assert_eq!(rows.len(), 1);
    assert_eq!(rows[0].label, "E1  Folge Eins: Anfang  (episode of Mein Podcast)");
    let rows = title_candidates(
        &vec![found("E9", "episode", "Sonderfolge Neun", &[])],
        &vec![hit("E9", "Sonderfolge Neun", "Mein Podcast")],
        PodcastMode::Episodes,
    );
    assert_eq!(rows.len(), 1);
    assert_eq!(rows[0].label, "E9  Sonderfolge Neun");
}

/// A show stands for its episodes in a download, and podcast content can be
/// left out.
#[test]
fn resolve_asins_download_podcast_expansion() {
    let show = || GivenAsin {
        asin: "P1".into(),
        class: classify_asin(Some("podcast"), vec!["E1".into(), "E2".into()], false),
    };
    let episode = || GivenAsin {
        asin: "E1".into(),
        class: classify_asin(None, vec![], true),
    };
    let with = PodcastMode::Download { podcasts: true };
    let without = PodcastMode::Download { podcasts: false };
    assert_eq!(
        resolve_asins(&vec![show()], &vec![], with).unwrap(),
        vec!["E1", "E2"]
    );
    assert!(resolve_asins(&vec![show()], &vec![], without).unwrap().is_empty());
    assert!(resolve_asins(&vec![episode()], &vec![], without).unwrap().is_empty());
    assert_eq!(
        resolve_asins(&vec![given("B1"), show(), episode()], &vec![], with).unwrap(),
        vec!["B1", "E1", "E2"]
    );
    assert_eq!(
        resolve_asins(&vec![show()], &vec![], PodcastMode::Episodes).unwrap(),
        vec!["P1"]
    );
}

#[test]
fn a_lone_show_has_its_episodes_beneath_it() {
    let with = PodcastMode::Download { podcasts: true };
    let episodes = [("E1", "Eins"), ("E2", "Zwei")];
    let rows = title_candidates(
        &vec![
            found("P1", "podcast", "Show", &episodes),
            found("B1", "anything", "Book", &[]),
        ],
        &vec![hit("E2", "Zwei", "Show"), hit("E3", "Drei", "Other")],
        with,
    );
    let labels: Vec<&str> = rows.iter().map(|row| row.label.as_str()).collect();
    assert_eq!(
        labels,
        vec![
            "podcast  P1  Show  (2 episodes)",
            "  episode E1  Eins",
            "  episode E2  Zwei",
            "book     B1  Book",
            "episode  E3  Drei  (episode of Other)",
        ]
    );
    assert_eq!(rows[0].expand, Some(vec!["E1".to_owned(), "E2".to_owned()]));
    // Two shows stay collapsed.
    let rows = title_candidates(
        &vec![
            found("P1", "podcast", "Show", &episodes),
            found("P2", "podcast", "Other", &[]),
        ],
        &vec![],
        with,
    );
    assert_eq!(rows.len(), 2);
    let error = resolve_asins(
        &vec![],
        &vec![GivenTitle {
            raw: "s".into(),
            candidates: rows,
            selection: None,
        }],
        with,
    )
    .unwrap_err();
    assert!(error.message().contains("a podcast show is among them"));
    // Without podcasts only books are left.
    let rows = title_candidates(
        &vec![
            found("P1", "podcast", "Show", &episodes),
            found("B1", "book", "Book", &[]),
        ],
        &vec![hit("E2", "Zwei", "Show")],
        PodcastMode::Download { podcasts: false },
    );
    assert_eq!(rows.len(), 1);
    assert_eq!(rows[0].kind, ItemKind::Book);
}

#[test]
fn a_long_ambiguity_is_cut() {
    let items: Vec<FoundItem> = (0..23)
        .map(|i| found(&format!("A{i}"), "book", "T", &[]))
        .collect();
    let rows = title_candidates(&items, &vec![], PodcastMode::ItemsOnly);
    let error = resolve_asins(
        &vec![],
        &vec![GivenTitle {
            raw: "t".into(),
            candidates: rows,
            selection: None,
        }],
        PodcastMode::ItemsOnly,
    )
    .unwrap_err();
    assert!(error.message().starts_with("23 titles match \"t\""));
    assert!(error.message().ends_with("  A19  T\n  … and 3 more"));
}

#[test]
fn picks_outside_the_rows_resolve_to_nothing() {
    let mode = PodcastMode::ItemsOnly;
    let items = vec![found("A", "book", "One", &[]), found("B", "book", "Two", &[])];
    let title = |selection| GivenTitle {
        raw: "o".into(),
        candidates: title_candidates(&items, &vec![], mode),
        selection,
    };
    assert!(resolve_checked(&vec![], &vec![title(Some(vec![2]))], mode).is_none());
    assert_eq!(
        resolve_checked(&vec![], &vec![title(Some(vec![1]))], mode).unwrap().unwrap(),
        ["B"]
    );
    assert!(resolve_checked(&vec![], &vec![title(None)], mode).unwrap().is_err());
}
