use audible_commands::account::error::AccountError;
use audible_commands::account::login::{
    challenge_answer, check_marketplace, check_username, device_lines, inline_image,
    iterm2_inline_supported, labels, mfa_choice, offered_marketplace, picture, qr_text,
    registered_note, server_notes, set_off, waiting_note, MfaDevice, Reach,
};
use audible_commands::account::manage::{
    account_rows, check_export, check_rename, deregistered_note, export_format, export_notes,
    lock_line, logout_notes, marketplaces_add, marketplaces_remove, marketplaces_set_default,
    removal_notes, rename_notes, set_default, unlock_line, AccountRow, Axis, ExportFormat,
};
use audible_commands::account::material::{
    cookie_rows, ensure_android, fetched_note, format_secs, format_unix_utc, information_url,
    refreshed_note, refreshed_token_note, removed_note, session_cell, set_widevine_cdm, show_end,
    token_row, CookieSummary, SessionEnd,
};
use audible_commands::account::password::{
    after_open, after_password_remove, after_plain_open, check_password_remove, first_password,
    password_set_note, password_source, OpenOutcome, OpenStep, PasswordSource, PasswordStep,
    SourceChange,
};
use audible_commands::account::register::{
    auth_file_state, derive_name, document_state, env_current_password, judge_password,
    name_from_stem, parse_marketplaces, password_variable, plan_registration, NewPassword,
    Registration,
};
use audible_commands::account::status::{date_only, Money, SubscriptionDetail};
use audible_commands::config::{
    fresh_content, get_value, pick_editor, remove_account, set_note, Edit,
};
use audible_commands::json::Json;

fn strings(list: &[&str]) -> Vec<String> {
    list.iter().map(|s| (*s).to_owned()).collect()
}

fn known() -> Vec<String> {
    strings(&["de", "us", "uk", "fr"])
}

/// A change in one line.
fn edit_line(edit: &Edit) -> String {
    match edit {
        Edit::Assign(key, value) => format!("{key} = {value}"),
        Edit::AssignList(key, values) => format!("{key} = [{}]", values.join(",")),
        Edit::Unset(key) => format!("unset {key}"),
        Edit::Clear(key) => format!("clear {key}"),
    }
}

fn edit_lines(edits: &[Edit]) -> Vec<String> {
    edits.iter().map(edit_line).collect()
}

/// The end of a session at `expiry`, seen at `now`.
fn end(expiry: f64, now: f64) -> Option<SessionEnd> {
    Some(SessionEnd {
        at: expiry as i64,
        lapsed: now >= expiry,
        remaining: (expiry - now) as i64,
    })
}

#[test]
fn session_cell_states() {
    // No recorded TTL → registration/import marker.
    assert_eq!(session_cell(None), "no ttl (exchanges next use)");
    // TTL in the past → lapsed.
    assert!(session_cell(end(500.0, 1_000.0)).ends_with("(lapsed)"));
    // TTL in the future → end time + remaining.
    let cell = session_cell(end(1_000.0 + 86_400.0, 1_000.0));
    assert!(cell.contains("(in 1d 0h)"), "{cell}");
}

#[test]
fn format_unix_utc_is_iso_like() {
    // 2001-09-09 01:46:40 UTC, rendered to minute precision.
    assert_eq!(format_unix_utc(1_000_000_000), "2001-09-09 01:46 UTC");
}

#[test]
fn times_out_of_range_are_marked() {
    assert_eq!(format_unix_utc(i64::MAX), "?");
    assert_eq!(format_unix_utc(0), "1970-01-01 00:00 UTC");
    assert_eq!(show_end(true, 0, "then"), "then (lapsed)");
    assert_eq!(show_end(false, 61, "then"), "then (in 1m)");
}

#[test]
fn spans_are_shown_in_two_units() {
    assert_eq!(format_secs(-5), "0s");
    assert_eq!(format_secs(45), "45s");
    assert_eq!(format_secs(42 * 60 + 10), "42m");
    assert_eq!(format_secs(3 * 3600 + 5 * 60), "3h 5m");
    assert_eq!(format_secs(2 * 86_400 + 4 * 3600), "2d 4h");
}

// Made-up values that mirror the shape of an answer.
fn sample() -> SubscriptionDetail {
    SubscriptionDetail {
        status: Some("Active".to_owned()),
        auto_renew_enabled: Some(false),
        subscription_start_date: Some("2019-04-01T10:00:00.000Z".to_owned()),
        expected_status_end_date: Some("2026-07-14T07:12:02.000Z".to_owned()),
        next_bill_date: Some("2026-07-14T07:12:02.000Z".to_owned()),
        next_bill_amount: Some(Money {
            amount: Some(format!("{:.2}", 9.949999809)),
            currency: Some("EUR".to_owned()),
        }),
        plan_title: Some("Audible-Abo".to_owned()),
    }
}

#[test]
fn renders_a_cancelled_membership_row() {
    let row = sample().into_row("de", "CreditAL");
    assert_eq!(
        row,
        vec![
            "de",
            "Audible-Abo",
            "Active",
            "no",         // auto_renew_enabled = false
            "-",          // cancelled → no next bill
            "2026-07-14", // ends (date only)
            "2019-04-01", // member since
            "CreditAL",
        ]
    );
}

#[test]
fn renders_next_bill_only_when_renewing() {
    let mut sub = sample();
    sub.auto_renew_enabled = Some(true);
    let row = sub.into_row("de", "CreditAL");
    assert_eq!(row[3], "yes");
    assert_eq!(row[4], "2026-07-14 9.95 EUR"); // amount rounded to 2 dp
}

#[test]
fn memberships_may_lack_anything() {
    let bare = SubscriptionDetail {
        status: None,
        auto_renew_enabled: None,
        subscription_start_date: None,
        expected_status_end_date: None,
        next_bill_date: None,
        next_bill_amount: None,
        plan_title: Some(String::new()),
    };
    assert_eq!(bare.into_row("de", ""), ["de", "-", "-", "-", "-", "-", "-", "-"]);
    let mut renewing = sample();
    renewing.auto_renew_enabled = Some(true);
    renewing.next_bill_amount = None;
    assert_eq!(renewing.into_row("de", "x")[4], "2026-07-14");
    renewing.next_bill_date = None;
    assert_eq!(renewing.into_row("de", "x")[4], "-");
    let money = Money { amount: Some("1.00".into()), currency: None };
    assert_eq!(money.display(), "1.00");
    assert_eq!(date_only("no time"), "no time");
}

#[test]
fn marketplaces_are_known_and_once() {
    assert_eq!(
        parse_marketplaces(" DE,us ,,de", &known()).unwrap(),
        ["de", "us"]
    );
    assert_eq!(
        parse_marketplaces("de,xx", &known()).unwrap_err().message(),
        "unknown marketplace \"xx\" (e.g. de, us, uk, fr, ca, it, au, in, jp, es, br)"
    );
    assert_eq!(
        parse_marketplaces(" , ", &known()).unwrap_err().message(),
        "no marketplace given"
    );
}

#[test]
fn names_come_from_files() {
    assert_eq!(derive_name("/tmp/Alice.json"), "alice");
    assert_eq!(derive_name("my file.v2.json"), "my-file-v2");
    assert_eq!(derive_name("dir/Bob_1/"), "bob_1");
    assert_eq!(derive_name(".."), "main");
    assert_eq!(derive_name("/"), "main");
    assert_eq!(name_from_stem(""), "main");
    assert_eq!(name_from_stem("a.b c"), "a-b-c");
}

fn registration() -> Registration {
    Registration {
        name: "alice".into(),
        account_exists: false,
        target: "/c/alice.auth".into(),
        target_exists: false,
        marketplaces: None,
        default_marketplaces: None,
        registered: "de".into(),
        force: false,
        has_default: false,
    }
}

#[test]
fn accounts_are_registered_with_sound_marketplaces() {
    let plan = plan_registration(&registration(), &known()).unwrap();
    assert_eq!(plan.auth_file, "alice.auth");
    assert_eq!(
        edit_lines(&plan.edits),
        [
            "accounts.alice.auth_file = alice.auth",
            "accounts.alice.marketplaces = [de]",
            "accounts.alice.default_marketplaces = [de]",
            "default_account = alice"
        ]
    );
    assert_eq!(
        plan.note,
        "Registered account \"alice\" (marketplaces de; default de), set as default account."
    );

    let mut several = registration();
    several.marketplaces = Some("us,de".into());
    several.default_marketplaces = Some("de".into());
    several.has_default = true;
    let plan = plan_registration(&several, &known()).unwrap();
    assert_eq!(plan.edits.len(), 3);
    assert_eq!(
        plan.note,
        "Registered account \"alice\" (marketplaces us, de; default de)."
    );

    several.default_marketplaces = Some("de,fr".into());
    assert_eq!(
        plan_registration(&several, &known()).unwrap_err().message(),
        "--default-marketplaces entry \"fr\" is not in --marketplaces (us,de)"
    );
}

#[test]
fn registration_replaces_nothing_unasked() {
    let mut reg = registration();
    reg.target_exists = true;
    assert_eq!(
        plan_registration(&reg, &known()).unwrap_err().message(),
        "/c/alice.auth already exists (use --force to overwrite)"
    );
    reg.account_exists = true;
    assert_eq!(
        plan_registration(&reg, &known()).unwrap_err().message(),
        "account \"alice\" already exists (use --force to replace it)"
    );
    reg.force = true;
    assert!(plan_registration(&reg, &known()).is_ok());
}

#[test]
fn auth_files_are_told_by_their_marks() {
    let state = |text: &str| auth_file_state(Some(&text.as_bytes().to_vec()));
    assert_eq!(auth_file_state(None), "MISSING");
    assert_eq!(state(r#"{"ciphertext": "x", "data": 1}"#), "encrypted");
    assert_eq!(state(r#"{"data": {}}"#), "plain");
    assert_eq!(state("{}"), "INVALID");
    assert_eq!(state("no json"), "INVALID");
    assert_eq!(document_state(&Json::parse(b"[]").unwrap()), "INVALID");
}

#[test]
fn passwords_in_the_environment() {
    assert_eq!(password_variable("my-acc"), "AUDIBLE_AUTH_PASSWORD_MY_ACC");
    assert_eq!(
        env_current_password(Some("own".into()), Some("all".into())).as_deref(),
        Some("own")
    );
    assert_eq!(
        env_current_password(None, Some("all".into())).as_deref(),
        Some("all")
    );
    assert!(judge_password("", "") == NewPassword::Empty);
    assert!(judge_password("a", "b") == NewPassword::Mismatch);
    assert!(judge_password("a", "a") == NewPassword::Taken);
}

#[test]
fn accounts_are_listed() {
    let row = AccountRow {
        name: "a".into(),
        state: "plain".into(),
        password_source: "prompt".into(),
        marketplaces: strings(&["de", "us"]),
        default_marketplaces: strings(&["de"]),
    };
    let rows = vec![row];
    assert_eq!(
        account_rows(&rows, Some("a")),
        [["a", "plain", "prompt", "de,us", "de", "*"]]
    );
    assert_eq!(account_rows(&rows, None)[0][5], "");
}

#[test]
fn accounts_are_renamed_with_care() {
    let accounts = strings(&["a", "b"]);
    assert!(check_rename(&accounts, "a", "c", None).is_ok());
    let fault = |old: &str, new: &str, invalid: Option<&str>| {
        check_rename(&accounts, old, new, invalid).unwrap_err().message()
    };
    assert_eq!(fault("x", "c", None), "unknown account \"x\"");
    assert_eq!(fault("a", "C!", Some("bad name")), "bad name");
    assert_eq!(fault("a", "a", None), "account is already named \"a\"");
    assert_eq!(fault("a", "b", None), "account \"b\" already exists");
    assert_eq!(
        rename_notes("a", "c", Some("a")),
        ["renamed account \"a\" to \"c\"", "default_account now points to \"c\""]
    );
    assert_eq!(rename_notes("a", "c", Some("b")).len(), 1);
    assert_eq!(
        edit_line(&set_default(&accounts, "b").unwrap()),
        "default_account = b"
    );
    assert!(matches!(set_default(&accounts, "x"), Err(AccountError::Unknown(_))));
    assert_eq!(
        edit_lines(&remove_account("a", true)),
        ["unset default_account", "unset accounts.a"]
    );
    assert_eq!(edit_lines(&remove_account("a", false)), ["unset accounts.a"]);
}

fn axis(marketplaces: &[&str], defaults: &[&str]) -> Axis {
    Axis { marketplaces: strings(marketplaces), defaults: strings(defaults) }
}

#[test]
fn marketplaces_are_added() {
    let plan = marketplaces_add("a", &axis(&["de"], &["de"]), "US", false);
    assert_eq!(edit_lines(&plan.edits), ["accounts.a.marketplaces = [de,us]"]);
    assert_eq!(plan.notes[0], "added marketplace \"us\" to account \"a\"");
    assert!(plan.notes[1].starts_with("note: \"us\" is not in the account's default marketplaces"));

    let plan = marketplaces_add("a", &axis(&["de"], &["de"]), "us", true);
    assert_eq!(
        edit_lines(&plan.edits),
        [
            "accounts.a.marketplaces = [de,us]",
            "accounts.a.default_marketplaces = [de,us]"
        ]
    );
    assert_eq!(
        plan.notes,
        ["added marketplace \"us\" to account \"a\" (and to its default set)"]
    );

    let plan = marketplaces_add("a", &axis(&["de", "us"], &["de"]), "us", true);
    assert_eq!(
        edit_lines(&plan.edits),
        ["accounts.a.default_marketplaces = [de,us]"]
    );
    let plan = marketplaces_add("a", &axis(&["de"], &["de"]), "de", true);
    assert!(plan.edits.is_empty());
    assert_eq!(plan.notes, ["account \"a\" already lists marketplace \"de\""]);
    let plan = marketplaces_add("a", &axis(&["de", "us"], &["de"]), "us", false);
    assert!(plan.edits.is_empty());
    assert_eq!(plan.notes.len(), 2);
}

#[test]
fn marketplaces_are_removed_from_the_defaults_first() {
    let plan = marketplaces_remove("a", &axis(&["de", "us"], &["us", "de"]), "US").unwrap();
    assert_eq!(
        edit_lines(&plan.edits),
        [
            "accounts.a.default_marketplaces = [de]",
            "accounts.a.marketplaces = [de]"
        ]
    );
    assert_eq!(plan.notes, ["removed marketplace \"us\" from account \"a\""]);
    assert_eq!(
        marketplaces_remove("a", &axis(&["de"], &["de"]), "fr")
            .unwrap_err()
            .message(),
        "account \"a\" does not list marketplace \"fr\""
    );
    let plan = marketplaces_set_default("a", "us,de", &known()).unwrap();
    assert_eq!(
        edit_lines(&plan.edits),
        ["accounts.a.default_marketplaces = [us,de]"]
    );
    assert_eq!(plan.notes, ["default marketplaces of account \"a\" are now us, de"]);
    assert!(marketplaces_set_default("a", "", &known()).is_err());
}

#[test]
fn leaving_is_announced() {
    assert_eq!(removal_notes("a", false, false).len(), 2);
    assert_eq!(removal_notes("a", true, true).len(), 4);
    assert_eq!(logout_notes("a", true, false).len(), 2);
    assert!(logout_notes("a", false, true)[0].contains("serial number"));
    assert_eq!(
        deregistered_note(Some("iPhone")),
        "deregistered device \"iPhone\" with Amazon"
    );
    assert_eq!(deregistered_note(None), "deregistered the device with Amazon");
}

#[test]
fn exports_warn_of_plain_material() {
    assert!(check_export("f", true, true).is_ok());
    assert_eq!(
        check_export("f", true, false).unwrap_err().message(),
        "f already exists (use --force to overwrite)"
    );
    assert!(export_format("encrypted") == ExportFormat::Encrypted);
    assert!(export_format("plain") == ExportFormat::Plain);
    assert!(export_format("python") == ExportFormat::Python);
    let dropped = strings(&["amazon.de", "audible.de"]);
    assert!(export_notes(ExportFormat::Encrypted, &dropped).is_empty());
    assert_eq!(export_notes(ExportFormat::Plain, &dropped).len(), 1);
    let notes = export_notes(ExportFormat::Python, &dropped);
    assert!(notes[1].ends_with("cookies for amazon.de, audible.de were not exported"));
}

#[test]
fn the_agent_answers() {
    let reply = Json::parse(br#"{"locked": 2, "error": "no"}"#).unwrap();
    let empty = Json::parse(b"{}").unwrap();
    assert_eq!(
        unlock_line("a", true, &reply),
        Ok("unlocked account \"a\" in the agent".to_owned())
    );
    assert_eq!(unlock_line("a", false, &reply), Err("unlock failed: no".to_owned()));
    assert_eq!(lock_line(true, &reply), Ok("locked 2 session(s)".to_owned()));
    assert_eq!(lock_line(true, &empty), Ok("locked 0 session(s)".to_owned()));
    assert_eq!(lock_line(false, &empty), Err("lock failed: error".to_owned()));
}

fn change(mode: PasswordSource, command: Option<&str>, file: Option<&str>, was_file: bool) -> SourceChange {
    SourceChange {
        name: "a".into(),
        mode,
        command: command.map(str::to_owned),
        file: file.map(str::to_owned),
        target: file.unwrap_or("/c/passwords").to_owned(),
        was_file,
        old_file: "/c/passwords".to_owned(),
    }
}

#[test]
fn password_sources_replace_each_other() {
    let plan = password_source(&change(PasswordSource::Env, None, None, true)).unwrap();
    assert_eq!(
        edit_lines(&plan.edits),
        [
            "accounts.a.password_source = env",
            "clear accounts.a.password_command",
            "clear accounts.a.password_file"
        ]
    );
    assert!(plan.forget && plan.verify.is_none() && plan.store.is_none());
    assert_eq!(plan.note, "account \"a\": password_source = env");

    let plan = password_source(&change(PasswordSource::Command, Some("pass"), None, false)).unwrap();
    assert_eq!(plan.verify.as_deref(), Some("pass"));
    assert_eq!(plan.edits.len(), 3);
    assert!(!plan.forget);
    assert_eq!(plan.note, "account \"a\": password_source = command (verified)");
    assert_eq!(
        password_source(&change(PasswordSource::Command, None, None, false))
            .unwrap_err()
            .message(),
        "mode 'command' requires --command <CMD>"
    );

    // The entry of the old file goes only where another file is used.
    let plan = password_source(&change(PasswordSource::File, None, None, true)).unwrap();
    assert!(!plan.forget);
    assert_eq!(plan.store.as_deref(), Some("/c/passwords"));
    let plan = password_source(&change(PasswordSource::File, None, Some("/d/pw"), true)).unwrap();
    assert!(plan.forget);
    assert_eq!(
        edit_lines(&plan.edits),
        [
            "accounts.a.password_source = file",
            "accounts.a.password_file = /d/pw",
            "clear accounts.a.password_command"
        ]
    );
    assert_eq!(plan.note, "account \"a\": password_source = file (/d/pw)");
    assert!(PasswordSource::parse("file") == Some(PasswordSource::File));
    assert!(PasswordSource::parse("x").is_none());
}

#[test]
fn auth_files_are_opened_in_steps() {
    assert!(first_password(true, true, true) == PasswordStep::TryFound);
    assert!(first_password(false, true, true) == PasswordStep::TryEnv);
    assert!(first_password(false, false, true) == PasswordStep::TryPlain);
    assert!(after_open(OpenOutcome::Opened, false) == OpenStep::Use);
    assert!(after_open(OpenOutcome::NeedsPassword, true) == OpenStep::Ask);
    assert!(after_open(OpenOutcome::NeedsPassword, false) == OpenStep::Fail);
    assert_eq!(
        after_plain_open("a", OpenOutcome::Opened).unwrap_err().message(),
        "auth file of \"a\" is unencrypted — encrypt it first with `account password set a` before using password_source = file"
    );
    assert!(after_plain_open("a", OpenOutcome::NeedsPassword).unwrap() == OpenStep::Ask);
    assert_eq!(password_set_note("a", true), "auth file of \"a\" is now encrypted");
    assert_eq!(password_set_note("a", false), "password of \"a\" changed");
    assert!(check_password_remove("a", "encrypted").unwrap().contains("UNENCRYPTED"));
    assert_eq!(
        check_password_remove("a", "plain").unwrap_err().message(),
        "auth file of \"a\" is already unencrypted"
    );
    assert_eq!(
        edit_line(&after_password_remove("a", PasswordSource::File).unwrap()),
        "accounts.a.password_source = prompt"
    );
    assert!(after_password_remove("a", PasswordSource::Env).is_none());
}

#[test]
fn cookies_are_summed_up() {
    let item = |total, expired, unknown| CookieSummary {
        domain: "audible.de".into(),
        total,
        expired,
        unknown,
        end: None,
    };
    let state = |total, expired, unknown| {
        cookie_rows(&vec![item(total, expired, unknown)])[0][4].clone()
    };
    assert_eq!(state(2, 2, 0), "expired");
    assert_eq!(state(2, 1, 1), "1 expired");
    assert_eq!(state(2, 0, 2), "unknown");
    assert_eq!(state(2, 0, 1), "valid (1 unknown)");
    assert_eq!(state(2, 0, 0), "valid");
    assert_eq!(
        refreshed_note("de", &strings(&["a", "b"])),
        "refreshed website cookies for de: a, b"
    );
    assert_eq!(refreshed_note("de", &Vec::new()), "no cookies returned for \"de\"");
    assert_eq!(removed_note(&Vec::new()), "no matching cookies to remove");
    assert_eq!(removed_note(&strings(&["a"])), "removed website cookies for: a");
}

#[test]
fn tokens_are_never_shown() {
    assert_eq!(token_row(true, Some(61), false), ["present", "valid for 1m", "absent"]);
    assert_eq!(token_row(false, Some(-61), true), ["absent", "expired 1m ago", "present"]);
    assert_eq!(token_row(false, None, true)[1], "-");
    assert_eq!(
        refreshed_token_note(Some(30)),
        "access token refreshed; valid for 30s"
    );
    assert_eq!(refreshed_token_note(Some(0)), "access token refreshed");
}

#[test]
fn widevine_needs_an_android_device() {
    assert!(ensure_android(Some("A10KISP2GWF0E4")).is_ok());
    assert!(ensure_android(Some("X")).unwrap_err().message().contains("registered as \"X\""));
    assert!(ensure_android(None).unwrap_err().message().contains("\"unknown\""));
    assert_eq!(
        edit_line(&set_widevine_cdm("a", "/x.wvd")),
        "accounts.a.widevine_cdm = /x.wvd"
    );
    assert_eq!(
        information_url("de"),
        "https://api.audible.de/1.0/account/information"
    );
    assert_eq!(
        fetched_note(3, "/x.wvd"),
        "fetched Widevine CDM (3 bytes) → /x.wvd and set widevine_cdm"
    );
}

#[test]
fn one_marketplace_is_registered_in() {
    assert_eq!(check_marketplace(Some("de"), &known()).unwrap(), "de");
    let fault = |selector: Option<&str>| check_marketplace(selector, &known()).unwrap_err().message();
    assert!(fault(None).starts_with("specify the registration marketplace"));
    assert!(fault(Some("de,us")).starts_with("account login registers in a single marketplace"));
    assert!(fault(Some("ALL")).starts_with("account login registers in a single marketplace"));
    assert_eq!(fault(Some("xx")), "unknown marketplace \"xx\" (e.g. de, us, uk, fr)");
    assert_eq!(offered_marketplace(Some("xx")).as_deref(), Some("xx"));
    assert_eq!(offered_marketplace(Some("All")), None);
    assert!(check_username(true, false).is_err() && check_username(true, true).is_ok());
    assert_eq!(labels(true).id, "Audible username");
    assert_eq!(labels(false).password, "Amazon password");
}

#[test]
fn the_server_tells_how_it_is_reached() {
    let notes = server_notes("0.0.0.0", "0.0.0.0", 80, "/x", Reach::Wildcard);
    assert_eq!(notes.lines[0], "Sign-in server listening on 0.0.0.0:80.");
    assert!(notes.lines[1].contains("http://<this-host-ip>:80/x\n"));
    assert!(notes.code.is_none());
    let notes = server_notes("127.0.0.1", "127.0.0.1", 81, "/x", Reach::Loopback);
    assert!(notes.lines[1].contains("\n\n  http://127.0.0.1:81/x\n"));
    assert!(notes.lines[2].contains("ssh -L 81:localhost:81 "));
    let notes = server_notes("10.0.0.1", "10.0.0.1", 82, "/x", Reach::Network);
    assert_eq!(notes.code.as_deref(), Some("http://10.0.0.1:82/x"));
    assert_eq!(
        waiting_note(300),
        "Waiting up to 300s for the sign-in to complete… (press Ctrl-C to abort)"
    );
    assert_eq!(
        registered_note("a", "de"),
        "Logged in and registered account \"a\" (de)."
    );
}

#[test]
fn codes_are_drawn_for_cameras() {
    let drawing = qr_text("http://10.0.0.1:82/x").unwrap();
    assert!(drawing.lines().count() > 10);
    assert!(drawing.contains('█') && drawing.ends_with('\n'));
    assert!(qr_text(&"x".repeat(10_000)).is_none());
    assert_eq!(set_off(Some("d".into())).as_deref(), Some("d\n"));
}

#[test]
fn devices_are_chosen_by_number() {
    let devices = vec![
        MfaDevice { label: "phone".into(), method: "SMS".into() },
        MfaDevice { label: String::new(), method: "TOTP".into() },
    ];
    assert_eq!(device_lines(&devices), ["  1) phone [SMS]", "  2) TOTP [TOTP]"]);
    assert_eq!(mfa_choice(" 2 ", 2), Some(1));
    for again in ["0", "3", "x", ""] {
        assert_eq!(mfa_choice(again, 2), None);
    }
    assert_eq!(challenge_answer(" 123 \n").as_deref(), Some("123"));
    assert_eq!(challenge_answer("  "), None);
}

#[test]
fn pictures_are_shown_where_they_can_be() {
    assert!(iterm2_inline_supported(Some("WezTerm"), None));
    assert!(iterm2_inline_supported(None, Some("iTerm2")));
    assert!(!iterm2_inline_supported(Some("xterm"), Some("x")));
    let image = inline_image(&vec![1, 2, 3, 4]);
    assert_eq!(image, picture(4, "AQIDBA=="));
    assert!(image.starts_with("\u{1b}]1337;File=inline=1;size=4;") && image.ends_with("\u{7}\n"));
}

#[test]
fn configuration_texts() {
    assert_eq!(fresh_content(2), "version = 2\n");
    assert_eq!(get_value("k", Some("v")), Ok("v".to_owned()));
    assert_eq!(get_value("k", None), Err("k is not set".to_owned()));
    assert_eq!(set_note("k", "v"), "set k = v");
    assert_eq!(pick_editor(Some("emacs"), Some("nano")), "emacs");
    assert_eq!(pick_editor(None, Some("nano")), "nano");
    assert_eq!(pick_editor(None, None), "vi");
}
