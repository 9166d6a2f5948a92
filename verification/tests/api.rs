use audible_commands::api::query::merge_query;
use audible_commands::api::request::{
    classify_body, compose, dry_run_text, finalize_body, offer_header, offer_query, parse_header,
    parse_method, prepare, render_request, request_file_from_parts, request_market,
    resolve_body_path, response_head, response_payload, saved_request, send_target, ApiArgs, Market, Offer, Rendered,
    ResolvedBody,
};
use audible_commands::api::request_file::{
    collect_vars, parse_header_strings, parse_query_strings, RequestFile, Templater,
};
use audible_commands::api::{
    auth_mode_str, normalize_api_path, parse_auth_mode, path_without_query, AuthMode,
};
use audible_commands::text_map::TextMap;

fn vars(pairs: &[(&str, &str)]) -> TextMap {
    let mut map = TextMap::new();
    for (k, v) in pairs {
        map.insert((*k).to_owned(), (*v).to_owned());
    }
    map
}

fn args() -> ApiArgs {
    ApiArgs {
        method: None,
        path: None,
        auth: AuthMode::Auto,
        query: Vec::new(),
        var: Vec::new(),
        header: Vec::new(),
        content_type: None,
        body: None,
        body_file: None,
    }
}

#[test]
fn normalize_adds_default_version() {
    assert_eq!(normalize_api_path("/library"), "/1.0/library");
    assert_eq!(normalize_api_path("/wishlist"), "/1.0/wishlist");
    // Missing leading slash is tolerated.
    assert_eq!(normalize_api_path("library"), "/1.0/library");
}

#[test]
fn normalize_keeps_explicit_version() {
    assert_eq!(normalize_api_path("/1.0/library"), "/1.0/library");
    assert_eq!(normalize_api_path("/2.0/foo"), "/2.0/foo");
}

#[test]
fn normalize_preserves_query() {
    assert_eq!(
        normalize_api_path("/library?num_results=5"),
        "/1.0/library?num_results=5"
    );
    assert_eq!(
        normalize_api_path("/1.0/library?a=b&c=d"),
        "/1.0/library?a=b&c=d"
    );
}

#[test]
fn normalize_is_stable_and_wants_a_dot() {
    assert_eq!(normalize_api_path("/123/x"), "/1.0/123/x");
    assert_eq!(normalize_api_path("///2.1/x?y=/"), "/2.1/x?y=/");
    assert_eq!(normalize_api_path(""), "/1.0/");
    let once = normalize_api_path("a/b?c");
    assert_eq!(normalize_api_path(&once), once);
    assert_eq!(path_without_query(&once), "/1.0/a/b");
}

#[test]
fn header_accepts_normal() {
    let (name, value) = parse_header("Accept: application/json").unwrap();
    assert_eq!(name, "Accept");
    assert_eq!(value, "application/json");
}

#[test]
fn header_rejects_auth_managed() {
    assert!(parse_header("x-amz-access-token: secret").is_err());
    assert!(parse_header("Cookie: a=b").is_err());
    assert!(parse_header("x-adp-token: t").is_err());
    assert!(parse_header("Authorization: Bearer x").is_err());
}

#[test]
fn header_rejects_content_type() {
    assert!(parse_header("Content-Type: application/xml").is_err());
}

#[test]
fn header_rejects_malformed() {
    assert!(parse_header("no-colon").is_err());
    assert!(parse_header(": empty-name").is_err());
}

#[test]
fn header_syntax_is_http() {
    assert_eq!(
        parse_header("a b: c").unwrap_err().message(),
        "invalid header name \"a b\""
    );
    assert_eq!(
        parse_header("X-A: b\u{7f}c").unwrap_err().message(),
        "invalid value for header \"X-A\""
    );
    assert!(parse_header("X-A: b\tc").is_ok());
    assert!(parse_header("X-A: größe").is_ok());
    assert!(parse_header("X~|^: ").is_ok());
}

#[test]
fn methods_are_tokens_in_capitals() {
    assert_eq!(parse_method("get").unwrap(), "GET");
    assert_eq!(parse_method("PROPfind").unwrap(), "PROPFIND");
    assert_eq!(
        parse_method("GE T").unwrap_err().message(),
        "invalid HTTP method \"GE T\""
    );
    assert!(parse_method("").is_err());
}

#[test]
fn query_merges_path_and_extra() {
    let merged = merge_query("/1.0/library?a=1", &["b=2".to_owned()]).unwrap();
    assert_eq!(
        merged,
        vec![
            ("a".to_owned(), "1".to_owned()),
            ("b".to_owned(), "2".to_owned())
        ]
    );
}

#[test]
fn query_collapses_identical_repeat() {
    let merged = merge_query("/x?a=1", &["a=1".to_owned()]).unwrap();
    assert_eq!(merged, vec![("a".to_owned(), "1".to_owned())]);
}

#[test]
fn query_keeps_repeated_keys() {
    // Repeated keys with different values are preserved in order and sent
    // as repeated params (e.g. `asins=A&asins=B`), not collapsed or rejected.
    let repeated = vec![
        ("a".to_owned(), "1".to_owned()),
        ("a".to_owned(), "2".to_owned()),
    ];
    assert_eq!(
        merge_query("/x?a=1", &["a=2".to_owned()]).unwrap(),
        repeated
    );
    assert_eq!(
        merge_query("/x", &["a=1".to_owned(), "a=2".to_owned()]).unwrap(),
        repeated
    );
    // The real motivating case: the library endpoint's repeated asins.
    assert_eq!(
        merge_query("/1.0/library?asins=A&asins=B", &[]).unwrap(),
        vec![
            ("asins".to_owned(), "A".to_owned()),
            ("asins".to_owned(), "B".to_owned())
        ]
    );
}

#[test]
fn query_segments_without_value() {
    assert_eq!(
        merge_query("/x?&flag&&a=b=c&", &[]).unwrap(),
        vec![
            ("flag".to_owned(), "".to_owned()),
            ("a".to_owned(), "b=c".to_owned())
        ]
    );
    assert_eq!(
        merge_query("/x", &["flag".to_owned()]).unwrap_err().message(),
        "query parameter \"flag\" is not KEY=VALUE"
    );
}

#[test]
fn body_inline_json_ok() {
    let resolved = finalize_body(Some(b"{\"x\":1}".to_vec()), None).unwrap();
    assert!(matches!(resolved, Some(ResolvedBody::Json(_))));
}

#[test]
fn body_invalid_json_without_content_type_errs() {
    assert!(finalize_body(Some(b"<xml/>".to_vec()), None).is_err());
}

#[test]
fn body_raw_with_content_type_ok() {
    let resolved =
        finalize_body(Some(b"<xml/>".to_vec()), Some("application/xml".to_owned())).unwrap();
    assert!(matches!(resolved, Some(ResolvedBody::Raw { .. })));
}

#[test]
fn body_content_type_without_body_errs() {
    assert!(finalize_body(None, Some("application/xml".to_owned())).is_err());
}

#[test]
fn body_absent_is_none() {
    assert!(finalize_body(None, None).unwrap().is_none());
}

#[test]
fn body_content_type_must_be_a_header_value() {
    let error = classify_body(b"x".to_vec(), Some("a\nb".to_owned())).unwrap_err();
    assert_eq!(error.message(), "invalid content type \"a\\nb\"");
}

#[test]
fn body_path_resolves_relative_to_file_dir() {
    let base = "/cfg/reqs";
    assert_eq!(
        resolve_body_path("payload.xml", Some(base)),
        "/cfg/reqs/payload.xml"
    );
    assert_eq!(resolve_body_path("/abs/p.xml", Some(base)), "/abs/p.xml");
    assert_eq!(resolve_body_path("-", Some(base)), "-");
    assert_eq!(resolve_body_path("rel.xml", None), "rel.xml");
}

#[test]
fn auth_mode_str_round_trips() {
    for label in ["auto", "signing", "token", "cookies"] {
        let mode: AuthMode = parse_auth_mode(label).unwrap();
        assert_eq!(auth_mode_str(mode), label);
    }
}

/// The saved file must describe the request that was sent — repeated keys with
/// different values (kept as repeated parameters by the send path) and headers
/// the send would refuse fail the save instead of silently saving something
/// else.
#[test]
fn save_parsers_match_the_send_contract() {
    // Identical repeats collapse, like the send path …
    let map = parse_query_strings(&["asins=A".into(), "asins=A".into()]).unwrap();
    assert_eq!(map.get("asins").map(String::as_str), Some("A"));
    // … but different values cannot be represented: loud error.
    let error = parse_query_strings(&["asins=A".into(), "asins=B".into()]).unwrap_err();
    assert!(error.message().contains("repeated"));

    let error = parse_header_strings(&["authorization: x".into()]).unwrap_err();
    assert!(error.message().contains("--auth"));
    let error = parse_header_strings(&["Content-Type: text/xml".into()]).unwrap_err();
    assert!(error.message().contains("content_type"));
    let error = parse_header_strings(&["Accept: a".into(), "Accept: b".into()]).unwrap_err();
    assert!(error.message().contains("different values"));
    // Templated values pass — only the post-substitution send
    // validates header syntax.
    let map = parse_header_strings(&["Accept-Language: {{lang}}".into()]).unwrap();
    assert_eq!(
        map.get("Accept-Language").map(String::as_str),
        Some("{{lang}}")
    );
}

#[test]
fn collect_vars_cli_overrides_file_defaults() {
    let file = RequestFile {
        vars: vars(&[("size", "500"), ("fmt", "json")]),
        ..Default::default()
    };
    let merged = collect_vars(Some(&file), &["size=900".to_owned()]).unwrap();
    assert_eq!(merged.get("size").map(String::as_str), Some("900"));
    assert_eq!(merged.get("fmt").map(String::as_str), Some("json"));
    assert_eq!(
        collect_vars(None, &["size".to_owned()]).unwrap_err().message(),
        "--var \"size\" is not KEY=VALUE"
    );
}

#[test]
fn renders_variables() {
    let v = vars(&[("asin", "B01"), ("size", "500")]);
    let mut t = Templater::new(&v);
    assert_eq!(
        t.render("/catalog/products/{{asin}}"),
        "/catalog/products/B01"
    );
    assert_eq!(t.render("size={{ size }}"), "size=500");
    t.finish().unwrap();
}

#[test]
fn undefined_variable_errors() {
    let v = vars(&[]);
    let mut t = Templater::new(&v);
    let _ = t.render("{{missing}}");
    assert!(t.finish().is_err());
}

#[test]
fn undefined_variables_are_named_in_order_and_once() {
    let v = vars(&[("b", "x")]);
    let mut t = Templater::new(&v);
    assert_eq!(t.render("{{z}}{{b}}{{a}}{{ z }}"), "x");
    assert_eq!(
        t.finish().unwrap_err().message(),
        "undefined template variable(s): a, z (set them with --var or [vars])"
    );
}

#[test]
fn escapes_braces() {
    let v = vars(&[("asin", "B01")]);
    let mut t = Templater::new(&v);
    // \{\{ and \}\} become literal {{ }} and are not placeholders.
    assert_eq!(t.render("\\{\\{asin\\}\\}"), "{{asin}}");
    // single braces (JSON) untouched; real placeholder still expands.
    assert_eq!(t.render("{\"asin\":\"{{asin}}\"}"), "{\"asin\":\"B01\"}");
    t.finish().unwrap();
}

#[test]
fn unterminated_placeholders_stay() {
    let v = vars(&[("a", "1")]);
    let mut t = Templater::new(&v);
    assert_eq!(t.render("x{{a"), "x{{a");
    assert_eq!(t.render("{{a}"), "{{a}");
    assert_eq!(t.render("{{{a}}"), "");
    assert_eq!(t.render("\\x\\"), "\\x\\");
    assert!(t.finish().is_err());
}

#[test]
fn a_request_is_merged_rendered_and_prepared() {
    let mut file = RequestFile {
        method: Some("post".into()),
        path: Some("/catalog/{{asin}}?a=1".into()),
        auth: Some("signing".into()),
        marketplace: Some("{{mp}}".into()),
        body_file: Some("b.json".into()),
        ..Default::default()
    };
    file.query.insert("n".into(), "{{n}}".into());
    file.headers.insert("Accept".into(), "*/*".into());
    file.vars.insert("mp".into(), "de".into());
    let mut cli = args();
    cli.query = vec!["a=1".into(), "a=2".into()];
    cli.var = vec!["asin=B0".into(), "n=5".into()];
    let composed = compose(&cli, false, Some(&file), Some("/req")).unwrap();
    assert_eq!(composed.auth, AuthMode::Signing);
    assert_eq!(composed.body_file.as_deref(), Some("/req/b.json"));
    assert_eq!(composed.query, vec!["n={{n}}", "a=1", "a=2"]);
    let rendered = render_request(&composed, Some(b"{\"x\": \"{{asin}}\"}".to_vec())).unwrap();
    assert_eq!(rendered.marketplace.as_deref(), Some("de"));
    assert_eq!(rendered.body.as_deref(), Some(&b"{\"x\": \"B0\"}"[..]));
    let prepared = prepare(rendered, false).unwrap();
    assert_eq!(prepared.method, "POST");
    assert_eq!(prepared.display_path, "/1.0/catalog/B0?a=1");
    assert_eq!(prepared.query.len(), 3);
    assert_eq!(
        dry_run_text(
            &prepared.method,
            &prepared.display_path,
            composed.auth,
            &prepared.query,
            &prepared.headers,
            prepared.body.as_ref(),
            Some("de"),
        ),
        "POST /1.0/catalog/B0?a=1&n=5&a=2\nauth: signing\nmarketplace: de\n\
         header: Accept: */*\nbody (application/json):\n{\n  \"x\": \"B0\"\n}\n"
    );
}

#[test]
fn command_line_wins_over_the_file() {
    let file = RequestFile {
        method: Some("GET".into()),
        path: Some("/a".into()),
        auth: Some("token".into()),
        body: Some("1".into()),
        ..Default::default()
    };
    let mut cli = args();
    cli.method = Some("PUT".into());
    cli.auth = AuthMode::Cookies;
    cli.content_type = Some("text/plain".into());
    let composed = compose(&cli, true, Some(&file), None).unwrap();
    assert_eq!(composed.method, "PUT");
    assert_eq!(composed.auth, AuthMode::Cookies);
    // Any body input of the command line replaces all that the file says.
    assert_eq!(composed.body, None);
    assert_eq!(composed.content_type.as_deref(), Some("text/plain"));
    assert_eq!(
        compose(&args(), false, None, None).unwrap_err().message(),
        "a method is required (positional or in the request file)"
    );
    let bad = RequestFile {
        method: Some("GET".into()),
        path: Some("/a".into()),
        auth: Some("magic".into()),
        ..Default::default()
    };
    assert!(compose(&args(), false, Some(&bad), None).is_err());
    assert!(compose(&args(), true, Some(&bad), None).is_ok());
    let pathless = RequestFile {
        method: Some("GET".into()),
        ..Default::default()
    };
    assert_eq!(
        compose(&args(), false, Some(&pathless), None).unwrap_err().message(),
        "a path is required (positional or in the request file)"
    );
}

#[test]
fn a_composed_request_is_stored_and_read_back() {
    let mut cli = args();
    cli.method = Some("GET".into());
    cli.path = Some("/x".into());
    cli.auth = AuthMode::Token;
    cli.query = vec![" b = 1 ".into(), "a=2".into()];
    cli.header = vec!["X-B:  y ".into()];
    let file = saved_request(compose(&cli, true, None, None).unwrap()).unwrap();
    assert_eq!(file.auth.as_deref(), Some("token"));
    assert_eq!(file.query_as_strings(), vec!["a=2", "b= 1 "]);
    assert_eq!(file.headers_as_strings(), vec!["X-B: y"]);
    let again = parse_query_strings(&file.query_as_strings()).unwrap();
    assert_eq!(again.get("b").map(String::as_str), Some(" 1 "));
    cli.query.push("b=3".into());
    assert!(saved_request(compose(&cli, true, None, None).unwrap()).is_err());
}

#[test]
fn foreign_hosts_take_https_urls_only() {
    let rendered = |path: &str| Rendered {
        method: "GET".into(),
        path: path.into(),
        query: Vec::new(),
        headers: Vec::new(),
        content_type: None,
        marketplace: None,
        body: None,
    };
    let prepared = prepare(rendered("https://www.amazon.de/x?y=1"), true).unwrap();
    assert_eq!(prepared.display_path, "https://www.amazon.de/x?y=1");
    assert_eq!(prepared.query, vec![("y".to_owned(), "1".to_owned())]);
    assert_eq!(
        prepare(rendered("http://www.amazon.de/"), true).unwrap_err().message(),
        "--foreign-host requires an https URL (got \"http\")"
    );
    assert_eq!(
        prepare(rendered("/library"), true).unwrap_err().message(),
        "invalid URL \"/library\""
    );
    assert!(matches!(request_market(Some("us".into()), true), Market::Named(_)));
    assert!(matches!(request_market(None, true), Market::Unset));
    assert!(matches!(request_market(None, false), Market::Current));
}

#[test]
fn interactive_parts_are_offered_and_stored() {
    let mut extra = Vec::new();
    assert!(matches!(offer_query("/1.0/x", &mut extra, " ".into()), Offer::Finished));
    assert!(matches!(offer_query("/1.0/x", &mut extra, "a=1".into()), Offer::Taken));
    assert!(matches!(offer_query("/1.0/x", &mut extra, "a".into()), Offer::Refused(_)));
    assert_eq!(extra, vec!["a=1"]);
    let mut headers = Vec::new();
    assert!(matches!(offer_header(&mut headers, ""), Offer::Finished));
    assert!(matches!(offer_header(&mut headers, "A: b"), Offer::Taken));
    assert!(matches!(offer_header(&mut headers, "Cookie: b"), Offer::Refused(_)));
    assert_eq!(headers, vec![("A".to_owned(), "b".to_owned())]);
    let body = classify_body(b"{ \"k\" : [1, 2] }".to_vec(), None).unwrap();
    let pairs = merge_query("/1.0/x", &extra).unwrap();
    let file =
        request_file_from_parts("get", "/1.0/x?a=1", AuthMode::Auto, &pairs, &headers, Some(&body))
            .unwrap();
    assert_eq!(file.method.as_deref(), Some("GET"));
    assert_eq!(file.path.as_deref(), Some("/1.0/x"));
    assert_eq!(file.auth, None);
    assert_eq!(file.body.as_deref(), Some("{\"k\":[1,2]}"));
    let raw = classify_body(vec![0xff], Some("image/png".into())).unwrap();
    let error =
        request_file_from_parts("get", "/x", AuthMode::Auto, &pairs, &headers, Some(&raw))
            .unwrap_err();
    assert_eq!(error.message(), "cannot save a binary body to a request file");
    assert!(
        dry_run_text("get", "/x", AuthMode::Auto, &pairs, &headers, Some(&raw), None)
            .ends_with("body (image/png): <1 bytes>\n")
    );
}

#[test]
fn answers_are_laid_out_for_a_terminal_only() {
    let (bytes, withheld) = response_payload("H: 1\n", b"{\"a\":1}", true, false);
    assert_eq!(bytes, b"H: 1\n\n{\"a\":1}");
    assert!(!withheld);
    let (bytes, _) = response_payload("H: 1\n", b"{\"a\":1}", false, true);
    assert_eq!(bytes, b"{\n  \"a\": 1\n}\n");
    let (bytes, withheld) = response_payload("H: 1\n", &[0xff, 0xfe], true, true);
    assert_eq!(bytes, b"H: 1\n\n");
    assert!(withheld);
    let (bytes, withheld) = response_payload("", b"plain", false, true);
    assert_eq!(bytes, b"plain\n");
    assert!(!withheld);
}

#[test]
fn the_head_of_an_answer_has_a_line_for_each_header() {
    let headers = vec![
        ("date".to_owned(), Some("today".to_owned())),
        ("x-odd".to_owned(), None),
    ];
    assert_eq!(
        response_head("HTTP/1.1", "200 OK", &headers),
        "HTTP/1.1 200 OK\ndate: today\nx-odd: <binary>\n"
    );
    assert_eq!(response_head("HTTP/2.0", "404 Not Found", &vec![]), "HTTP/2.0 404 Not Found\n");
}

#[test]
fn requests_are_sent_without_the_query_of_their_path() {
    assert_eq!(send_target("/1.0/library?a=b", false).unwrap(), "/1.0/library");
    assert_eq!(
        send_target("https://WWW.amazon.de?a=b#part", true).unwrap(),
        "https://www.amazon.de/#part"
    );
    assert_eq!(send_target("/library", true), None);
}
