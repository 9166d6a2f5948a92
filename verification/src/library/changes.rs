//! The log of changes: which of them are asked for and how they are shown.

use vstd::prelude::*;
use vstd::string::StrSliceExecFns;
use vstd::string::StringExecFns;
use super::error::LibraryError;
use crate::json::Json;
use crate::json::JsonView;
use crate::json::compact;
use crate::json::compact_text;
use crate::json::document;
use crate::json::field;
use crate::json::held;
use crate::json::held_all;
use crate::json::items;
use crate::json::json_of;
use crate::json::member_views;
use crate::json::object_of;
use crate::json::push_member;
use crate::json::push_text_member;
use crate::json::text_field;
use crate::json::value_field;
use crate::json::value_from_bytes;
use crate::json::value_items;
use crate::lists::push_text;
use crate::tables::cells;
use crate::tables::push_row;
use crate::tables::row5;
use crate::text::cat2;
use crate::text::cat3;
use crate::text::cat4;
use crate::text::cat5;
use crate::text::chars_of;
use crate::text::decimal;
use crate::text::join;
use crate::text::joined;
use crate::text::number;
use crate::text::opt_str;
use crate::text::slice_text;
use crate::text::split_words;
use crate::text::texts;
use crate::text::trim;
use crate::text::trimmed;
use crate::text::words;

verus! {

/// Whether `time::Date::parse` takes a text by a format description.
pub uninterp spec fn date_parses(text: Seq<char>, format: Seq<char>) -> bool;

/// `time::Date::parse` with the format that `time::format_description::parse`
/// reads out of a text: whether the text is taken depends on the two texts
/// alone and is named `date_parses`.
#[verifier::external_body]
pub(crate) fn date_accepted(text: &str, format: &str) -> (yes: bool)
    ensures
        yes == date_parses(text@, format@),
{
    match time::format_description::parse(format) {
        Ok(items) => time::Date::parse(text, &items).is_ok(),
        Err(_) => false,
    }
}

/// Whether `time::PrimitiveDateTime::parse` takes a text by a format
/// description.
pub uninterp spec fn time_parses(text: Seq<char>, format: Seq<char>) -> bool;

/// `time::PrimitiveDateTime::parse` with the format that
/// `time::format_description::parse` reads out of a text: whether the text is
/// taken depends on the two texts alone and is named `time_parses`.
#[verifier::external_body]
pub(crate) fn time_accepted(text: &str, format: &str) -> (yes: bool)
    ensures
        yes == time_parses(text@, format@),
{
    match time::format_description::parse(format) {
        Ok(items) => time::PrimitiveDateTime::parse(text, &items).is_ok(),
        Err(_) => false,
    }
}

/// Whether a text is a day, as `2026-06-26`.
pub open spec fn is_day(text: Seq<char>) -> bool {
    date_parses(text, "[year]-[month]-[day]"@)
}

/// Whether a text is a time, as `2026-06-26T12:00:00Z`.
pub open spec fn is_time(text: Seq<char>) -> bool {
    time_parses(text, "[year]-[month]-[day]T[hour]:[minute]:[second]Z"@)
}

/// The time that a `--since` stands for, given whether it is a time or a day.
pub open spec fn since_of(raw: Seq<char>, time: bool, day: bool) -> Result<
    Seq<char>,
    LibraryError<Seq<char>>,
> {
    if time {
        Ok(raw)
    } else if day {
        Ok(raw + "T00:00:00Z"@)
    } else {
        Err(LibraryError::Since(raw))
    }
}

/// Settles a `--since` once it is known whether it is a time or a day.
pub fn settle_since(raw: &str, time: bool, day: bool) -> (since: Result<
    String,
    LibraryError<String>,
>)
    ensures
        match since {
            Ok(text) => since_of(raw@, time, day) == Ok::<Seq<char>, LibraryError<Seq<char>>>(
                text@,
            ),
            Err(e) => since_of(raw@, time, day) == Err::<Seq<char>, LibraryError<Seq<char>>>(e@),
        },
{
    if time {
        Ok(String::from_str(raw))
    } else if day {
        Ok(cat2(raw, "T00:00:00Z"))
    } else {
        Err(LibraryError::Since(String::from_str(raw)))
    }
}

/// Reads a `--since`: a time as it is, or a day, which stands for its midnight.
/// Times are compared as texts, so nothing else may pass.
pub fn normalize_since(raw: &str) -> (since: Result<String, LibraryError<String>>)
    ensures
        ({
            let inner = trimmed(raw@);
            let want = since_of(inner, is_time(inner), is_day(inner));
            match since {
                Ok(text) => want == Ok::<Seq<char>, LibraryError<Seq<char>>>(text@),
                Err(e) => want == Err::<Seq<char>, LibraryError<Seq<char>>>(e@),
            }
        }),
{
    let inner = trim(raw);
    let time = time_accepted(inner.as_str(), "[year]-[month]-[day]T[hour]:[minute]:[second]Z");
    let day = date_accepted(inner.as_str(), "[year]-[month]-[day]");
    settle_since(inner.as_str(), time, day)
}

/// A text on one line, cut short where it is long.
pub open spec fn shortened(text: Seq<char>) -> Seq<char> {
    let line = joined(words(text), " "@);
    if line.len() > 60 {
        line.subrange(0, 57) + "…"@
    } else {
        line
    }
}

/// Puts a text on one line, and cuts it short where it is long.
pub fn shorten(text: &str) -> (line: String)
    ensures
        line@ == shortened(text@),
{
    let line = join(&split_words(text), " ");
    let chars = chars_of(line.as_str());
    if chars.len() > 60 {
        cat2(slice_text(&chars, 0, 57).as_str(), "…")
    } else {
        line
    }
}

/// What a value is shown as before it is shortened.
pub open spec fn value_text(value: Option<JsonView>) -> Seq<char> {
    match value {
        Some(JsonView::Text(text)) => text,
        Some(other) => compact_text(other),
        None => "null"@,
    }
}

fn show_value(value: Option<serde_json::Value>) -> (text: String)
    ensures
        text@ == value_text(
            match value {
                Some(v) => Some(held(v)),
                None => None,
            },
        ),
{
    match value {
        Some(v) => {
            let shown = compact(&v);
            match json_of(v) {
                Json::Text(text) => text,
                _ => shown,
            }
        },
        None => String::from_str("null"),
    }
}

/// How a changed field is shown: its name alone, or with what it was and is.
pub open spec fn field_text(
    key: Option<Seq<char>>,
    old_value: Seq<char>,
    new_value: Seq<char>,
    values: bool,
) -> Seq<char> {
    let name = match key {
        Some(k) => k,
        None => "?"@,
    };
    if values {
        name + ": "@ + shortened(old_value) + " → "@ + shortened(new_value)
    } else {
        name
    }
}

/// Shows a changed field.
pub fn show_field(key: Option<&str>, old_value: &str, new_value: &str, values: bool) -> (text: String)
    ensures
        text@ == field_text(opt_str(key), old_value@, new_value@, values),
{
    let name = match key {
        Some(k) => k,
        None => "?",
    };
    if values {
        cat5(
            name,
            ": ",
            shorten(old_value).as_str(),
            " → ",
            shorten(new_value).as_str(),
        )
    } else {
        String::from_str(name)
    }
}

/// How the changed fields are shown.
pub open spec fn field_texts(entries: Seq<JsonView>, values: bool) -> Seq<Seq<char>> {
    entries.map_values(
        |entry: JsonView|
            field_text(
                text_field(entry, "key"@),
                value_text(field(entry, "old"@)),
                value_text(field(entry, "new"@)),
                values,
            ),
    )
}

/// How a list of changed fields is shown; a dash where there is no such list.
pub open spec fn fields_text(doc: Option<JsonView>, values: bool) -> Seq<char> {
    match doc {
        Some(json) => match items(json) {
            Some(entries) => joined(
                field_texts(entries, values),
                if values {
                    "; "@
                } else {
                    ", "@
                },
            ),
            None => "—"@,
        },
        None => "—"@,
    }
}

fn show_entry(entry: &serde_json::Value, values: bool) -> (text: String)
    ensures
        text@ == field_text(
            text_field(held(*entry), "key"@),
            value_text(field(held(*entry), "old"@)),
            value_text(field(held(*entry), "new"@)),
            values,
        ),
{
    let old_value = show_value(value_field(entry, "old"));
    let new_value = show_value(value_field(entry, "new"));
    let key = match value_field(entry, "key") {
        Some(v) => Some(json_of(v)),
        None => None,
    };
    let name: Option<&str> = match &key {
        Some(json) => json.as_str(),
        None => None,
    };
    show_field(name, old_value.as_str(), new_value.as_str(), values)
}

/// Shows the changed fields of an entry of the log, which is a list of names
/// with what each was and is.
pub fn format_change_fields(changed: Option<&str>, values: bool) -> (text: String)
    ensures
        text@ == fields_text(
            match changed {
                Some(raw) => document(vstd::utf8::encode_utf8(raw@)),
                None => None,
            },
            values,
        ),
{
    let raw = match changed {
        Some(raw) => raw,
        None => {
            return String::from_str("—");
        },
    };
    let bytes = raw.as_bytes_vec();
    let value = match value_from_bytes(bytes.as_slice()) {
        Ok(value) => value,
        Err(_) => {
            return String::from_str("—");
        },
    };
    let entries = match value_items(value) {
        Some(list) => list,
        None => {
            return String::from_str("—");
        },
    };
    let ghost want = field_texts(held_all(entries@), values);
    let mut parts: Vec<String> = Vec::new();
    let mut i: usize = 0;
    while i < entries.len()
        invariant
            i <= entries@.len(),
            want == field_texts(held_all(entries@), values),
            texts(parts@).len() == i,
            forall|k: int| 0 <= k < i ==> #[trigger] texts(parts@)[k] == want[k],
        decreases entries.len() - i,
    {
        push_text(&mut parts, show_entry(&entries[i], values));
        i = i + 1;
    }
    assert(texts(parts@) =~= want);
    if values {
        join(&parts, "; ")
    } else {
        join(&parts, ", ")
    }
}

/// An entry of the log.
#[derive(Debug)]
pub struct ChangeRecord {
    /// When it was recorded.
    pub recorded_utc: String,
    /// The marketplace of the item.
    pub marketplace: String,
    /// What happened to the item.
    pub change: String,
    /// What the item is.
    pub item_kind: String,
    /// The item.
    pub asin: String,
    /// Its title.
    pub full_title: String,
    /// The changed fields.
    pub changed: Option<String>,
}

/// The document of the changed fields of an entry.
pub open spec fn changed_doc(record: ChangeRecord) -> Option<JsonView> {
    match record.changed {
        Some(raw) => document(vstd::utf8::encode_utf8(raw@)),
        None => None,
    }
}

/// The row of an entry of the log.
pub open spec fn change_cells(record: ChangeRecord, values: bool) -> Seq<Seq<char>> {
    seq![
        record.recorded_utc@,
        record.marketplace@,
        record.change@,
        record.item_kind@,
        record.asin@,
        record.full_title@,
        fields_text(changed_doc(record), values),
    ]
}

/// The rows of the log.
pub fn change_rows(records: &Vec<ChangeRecord>, values: bool) -> (rows: Vec<Vec<String>>)
    ensures
        cells(rows@) == records@.map_values(|record: ChangeRecord| change_cells(record, values)),
{
    let mut rows: Vec<Vec<String>> = Vec::new();
    let ghost want = records@.map_values(|record: ChangeRecord| change_cells(record, values));
    let mut i: usize = 0;
    assert(cells(rows@) =~= want.subrange(0, 0));
    while i < records.len()
        invariant
            i <= records@.len(),
            want == records@.map_values(|record: ChangeRecord| change_cells(record, values)),
            cells(rows@) == want.subrange(0, i as int),
        decreases records.len() - i,
    {
        let record = &records[i];
        let changed: Option<&str> = match &record.changed {
            Some(raw) => Some(raw.as_str()),
            None => None,
        };
        let mut row = row5(
            record.recorded_utc.clone(),
            record.marketplace.clone(),
            record.change.clone(),
            record.item_kind.clone(),
            record.asin.clone(),
        );
        push_text(&mut row, record.full_title.clone());
        push_text(&mut row, format_change_fields(changed, values));
        assert(texts(row@) =~= change_cells(*record, values));
        push_row(&mut rows, row);
        i = i + 1;
        assert(cells(rows@) =~= want.subrange(0, i as int));
    }
    assert(want.subrange(0, i as int) =~= want);
    rows
}

/// An entry of the log as JSON, with all of its changed fields; `null` for them
/// where what is stored of them is no JSON document.
pub open spec fn change_object(record: ChangeRecord) -> JsonView {
    JsonView::Object(
        seq![
            ("recorded"@, JsonView::Text(record.recorded_utc@)),
            ("mp"@, JsonView::Text(record.marketplace@)),
            ("change"@, JsonView::Text(record.change@)),
            ("kind"@, JsonView::Text(record.item_kind@)),
            ("asin"@, JsonView::Text(record.asin@)),
            ("title"@, JsonView::Text(record.full_title@)),
            (
                "fields"@,
                match changed_doc(record) {
                    Some(doc) => doc,
                    None => JsonView::Null,
                },
            ),
        ],
    )
}

/// Shows an entry of the log as JSON.
pub fn change_json(record: &ChangeRecord) -> (json: Json)
    ensures
        json@ == change_object(*record),
{
    let fields = match &record.changed {
        Some(raw) => {
            let bytes = raw.as_str().as_bytes_vec();
            match Json::parse(bytes.as_slice()) {
                Some(doc) => doc,
                None => Json::Null,
            }
        },
        None => Json::Null,
    };
    let mut list: Vec<(String, Json)> = Vec::new();
    assert(member_views(list@) =~= Seq::empty());
    push_text_member(&mut list, "recorded", record.recorded_utc.as_str());
    push_text_member(&mut list, "mp", record.marketplace.as_str());
    push_text_member(&mut list, "change", record.change.as_str());
    push_text_member(&mut list, "kind", record.item_kind.as_str());
    push_text_member(&mut list, "asin", record.asin.as_str());
    push_text_member(&mut list, "title", record.full_title.as_str());
    push_member(&mut list, "fields", fields);
    assert(member_views(list@) =~= change_object(*record)->Object_0);
    object_of(list)
}

/// What is said where the log holds nothing of what was asked for.
pub fn no_changes_note(show_volatile: bool) -> (text: String)
    ensures
        text@
            == "no recorded changes — recording starts after the initial sync (and only if `record_changes` is on)"@
            + (if show_volatile {
            ""@
        } else {
            "; volatile-only changes (rating/progress) are hidden, pass --show-volatile"@
        }),
{
    cat2(
        "no recorded changes — recording starts after the initial sync (and only if `record_changes` is on)",
        if show_volatile {
            ""
        } else {
            "; volatile-only changes (rating/progress) are hidden, pass --show-volatile"
        },
    )
}

/// How many days of changes are kept when the log is pruned; nothing where all are.
pub open spec fn days_to_keep(older_than: Option<u32>, retention: u32) -> Option<u32> {
    let wanted = match older_than {
        Some(n) => n,
        None => retention,
    };
    if wanted == 0 {
        None
    } else {
        Some(wanted)
    }
}

/// The age in days from which entries of the log are pruned: what was asked
/// for, or else what is set; nothing where they are kept for good.
pub fn prune_days(older_than: Option<u32>, retention: u32) -> (days: Option<u32>)
    ensures
        days == days_to_keep(older_than, retention),
{
    let wanted: u32 = match older_than {
        Some(n) => n,
        None => retention,
    };
    if wanted == 0 {
        None
    } else {
        Some(wanted)
    }
}

/// What is said once entries were pruned.
pub fn pruned_note(pruned: u64, days: u32) -> (text: String)
    ensures
        text@ == "pruned "@ + decimal(pruned as int) + " change-log entr"@ + (if pruned == 1 {
            "y"@
        } else {
            "ies"@
        }) + " older than "@ + decimal(days as int) + " days"@,
{
    let mut text = cat5(
        "pruned ",
        number(pruned).as_str(),
        " change-log entr",
        if pruned == 1 {
            "y"
        } else {
            "ies"
        },
        " older than ",
    );
    text.append(number(days as u64).as_str());
    text.append(" days");
    text
}

/// An item that a sync changed.
#[derive(Debug)]
pub struct ChangedItem {
    /// The item.
    pub asin: String,
    /// Its title.
    pub full_title: String,
}

/// What a sync changed.
#[derive(Debug)]
pub struct ApplyOutcome {
    /// What is new.
    pub added: Vec<ChangedItem>,
    /// What changed.
    pub changed: Vec<ChangedItem>,
    /// What changed only in what always changes: ratings, progress.
    pub changed_volatile: Vec<ChangedItem>,
    /// What is gone.
    pub removed: Vec<ChangedItem>,
}

/// The lines of a group of changes; none where the group is empty.
pub open spec fn group_lines(label: Seq<char>, list: Seq<ChangedItem>) -> Seq<Seq<char>> {
    if list.len() == 0 {
        Seq::empty()
    } else {
        seq!["  "@ + label + " ("@ + decimal(list.len() as int) + ")"@] + list.map_values(
            |item: ChangedItem| "      "@ + item.asin@ + "  "@ + item.full_title@,
        )
    }
}

/// Whether there is anything to show of what a sync changed.
pub open spec fn has_changes(changes: ApplyOutcome, show_volatile: bool) -> bool {
    changes.added@.len() > 0 || changes.changed@.len() > 0 || changes.removed@.len() > 0 || (
    show_volatile && changes.changed_volatile@.len() > 0)
}

/// The lines for one marketplace; none where nothing changed.
pub open spec fn section_lines(
    marketplace: Seq<char>,
    changes: ApplyOutcome,
    multi: bool,
    show_volatile: bool,
) -> Seq<Seq<char>> {
    if !has_changes(changes, show_volatile) {
        Seq::empty()
    } else {
        seq![
            if multi {
                "changes ("@ + marketplace + "):"@
            } else {
                "changes:"@
            },
        ] + group_lines("+ added"@, changes.added@) + group_lines("~ changed"@, changes.changed@) + (
        if show_volatile {
            group_lines("~ changed (volatile)"@, changes.changed_volatile@)
        } else {
            Seq::empty()
        }) + group_lines("- removed"@, changes.removed@)
    }
}

fn add_group(lines: &mut Vec<String>, label: &str, list: &Vec<ChangedItem>)
    ensures
        texts(final(lines)@) == texts(old(lines)@) + group_lines(label@, list@),
{
    let ghost start = texts(lines@);
    if list.len() == 0 {
        assert(start + Seq::<Seq<char>>::empty() =~= start);
        return ;
    }
    let ghost want = group_lines(label@, list@);
    push_text(
        lines,
        cat5("  ", label, " (", number(list.len() as u64).as_str(), ")"),
    );
    let mut i: usize = 0;
    assert(texts(lines@) =~= start + want.subrange(0, 1));
    while i < list.len()
        invariant
            i <= list@.len(),
            list@.len() > 0,
            want == group_lines(label@, list@),
            texts(lines@) == start + want.subrange(0, i + 1),
        decreases list.len() - i,
    {
        push_text(
            lines,
            cat4("      ", list[i].asin.as_str(), "  ", list[i].full_title.as_str()),
        );
        i = i + 1;
        assert(texts(lines@) =~= start + want.subrange(0, i + 1));
    }
    assert(want.subrange(0, i + 1) =~= want);
}

/// Adds the lines for one marketplace. It is named only where several were
/// synced.
pub fn add_section(
    lines: &mut Vec<String>,
    marketplace: &str,
    changes: &ApplyOutcome,
    multi: bool,
    show_volatile: bool,
)
    ensures
        texts(final(lines)@) == texts(old(lines)@) + section_lines(
            marketplace@,
            *changes,
            multi,
            show_volatile,
        ),
{
    let ghost start = texts(lines@);
    let volatile = show_volatile && changes.changed_volatile.len() > 0;
    if changes.added.len() == 0 && changes.changed.len() == 0 && changes.removed.len() == 0
        && !volatile {
        assert(start + Seq::<Seq<char>>::empty() =~= start);
        return ;
    }
    if multi {
        push_text(lines, cat3("changes (", marketplace, "):"));
    } else {
        push_text(lines, String::from_str("changes:"));
    }
    add_group(lines, "+ added", &changes.added);
    add_group(lines, "~ changed", &changes.changed);
    if show_volatile {
        add_group(lines, "~ changed (volatile)", &changes.changed_volatile);
    }
    add_group(lines, "- removed", &changes.removed);
    assert(texts(lines@) =~= start + section_lines(marketplace@, *changes, multi, show_volatile));
}

/// A `--since` is a time as it stands, or a day from its midnight; anything else
/// is refused.
pub proof fn law_since_is_a_time(raw: Seq<char>, day: bool)
    ensures
        since_of(raw, true, day) == Ok::<Seq<char>, LibraryError<Seq<char>>>(raw),
        since_of(raw, false, true) == Ok::<Seq<char>, LibraryError<Seq<char>>>(
            raw + "T00:00:00Z"@,
        ),
        since_of(raw, false, false) == Err::<Seq<char>, LibraryError<Seq<char>>>(
            LibraryError::Since(raw),
        ),
{
}

/// A line is the words of the text, cut off behind fifty-seven characters where
/// it would be longer than sixty, with a mark that says so.
pub proof fn law_shortened_lines_are_short(text: Seq<char>)
    ensures
        shortened(text).len() <= 60,
        joined(words(text), " "@).len() <= 60 ==> shortened(text) == joined(words(text), " "@),
        joined(words(text), " "@).len() > 60 ==> shortened(text).subrange(0, 57) == joined(
            words(text),
            " "@,
        ).subrange(0, 57) && shortened(text).len() == 58 && shortened(text)[57] == '…',
{
    reveal_strlit("…");
    let line = joined(words(text), " "@);
    if line.len() > 60 {
        assert(shortened(text).subrange(0, 57) =~= line.subrange(0, 57));
    }
}

/// A changed field is shown by its name, and, where values are asked for, with
/// what it was before what it is.
pub proof fn law_changed_fields_are_named(
    key: Seq<char>,
    old_value: Seq<char>,
    new_value: Seq<char>,
)
    ensures
        field_text(Some(key), old_value, new_value, false) == key,
        field_text(Some(key), old_value, new_value, true) == key + ": "@ + shortened(old_value)
            + " → "@ + shortened(new_value),
        field_text(None, old_value, new_value, false) == "?"@,
{
}

/// Every changed field of a document is shown, in order: its name from `key`, what
/// it was from `old`, and what it is from `new`.
pub proof fn law_every_changed_field_is_shown(entries: Seq<JsonView>, values: bool, i: int)
    requires
        0 <= i < entries.len(),
    ensures
        field_texts(entries, values).len() == entries.len(),
        !values && text_field(entries[i], "key"@) is Some ==> field_texts(entries, values)[i]
            == text_field(entries[i], "key"@)->Some_0,
        values && text_field(entries[i], "key"@) is Some ==> field_texts(entries, values)[i]
            == text_field(entries[i], "key"@)->Some_0 + ": "@ + shortened(
            value_text(field(entries[i], "old"@)),
        ) + " → "@ + shortened(value_text(field(entries[i], "new"@))),
        fields_text(Some(JsonView::Array(entries)), values) == joined(
            field_texts(entries, values),
            if values {
                "; "@
            } else {
                ", "@
            },
        ),
{
}

/// The row and the document of an entry of the log both say when, where, what and
/// of which item it is.
pub proof fn law_entries_say_what_changed(record: ChangeRecord, values: bool)
    ensures
        change_cells(record, values).len() == 7,
        change_cells(record, values)[0] == record.recorded_utc@,
        change_cells(record, values)[1] == record.marketplace@,
        change_cells(record, values)[2] == record.change@,
        change_cells(record, values)[3] == record.item_kind@,
        change_cells(record, values)[4] == record.asin@,
        change_cells(record, values)[5] == record.full_title@,
        change_object(record) matches JsonView::Object(members) && members.len() == 7 && members[0]
            == ("recorded"@, JsonView::Text(record.recorded_utc@)) && members[1] == (
            "mp"@,
            JsonView::Text(record.marketplace@),
        ) && members[2] == ("change"@, JsonView::Text(record.change@)) && members[3] == (
            "kind"@,
            JsonView::Text(record.item_kind@),
        ) && members[4] == ("asin"@, JsonView::Text(record.asin@)) && members[5] == (
            "title"@,
            JsonView::Text(record.full_title@),
        ) && members[6].0 == "fields"@ && (record.changed is None ==> members[6].1 is Null),
{
}

/// Whether a list of lines names an item.
pub open spec fn names_item(lines: Seq<Seq<char>>, item: ChangedItem) -> bool {
    lines.contains("      "@ + item.asin@ + "  "@ + item.full_title@)
}

proof fn lemma_group_names(label: Seq<char>, list: Seq<ChangedItem>, i: int)
    requires
        0 <= i < list.len(),
    ensures
        names_item(group_lines(label, list), list[i]),
{
    let lines = group_lines(label, list);
    assert(lines[i + 1] == "      "@ + list[i].asin@ + "  "@ + list[i].full_title@);
}

/// Every item that was added, changed or removed is shown; one whose changes are
/// volatile only where those are asked for.
pub proof fn law_every_change_is_shown(
    marketplace: Seq<char>,
    changes: ApplyOutcome,
    multi: bool,
    show_volatile: bool,
    i: int,
)
    ensures
        ({
            let lines = section_lines(marketplace, changes, multi, show_volatile);
            &&& 0 <= i < changes.added@.len() ==> names_item(lines, changes.added@[i])
            &&& 0 <= i < changes.changed@.len() ==> names_item(lines, changes.changed@[i])
            &&& 0 <= i < changes.removed@.len() ==> names_item(lines, changes.removed@[i])
            &&& show_volatile && 0 <= i < changes.changed_volatile@.len() ==> names_item(
                lines,
                changes.changed_volatile@[i],
            )
            &&& changes.added@.len() == 0 && changes.changed@.len() == 0 && changes.removed@.len()
                == 0 && (!show_volatile || changes.changed_volatile@.len() == 0) <==> lines.len()
                == 0
            &&& lines.len() > 0 ==> lines[0] == if multi {
                "changes ("@ + marketplace + "):"@
            } else {
                "changes:"@
            }
        }),
{
    let lines = section_lines(marketplace, changes, multi, show_volatile);
    let added = group_lines("+ added"@, changes.added@);
    let changed = group_lines("~ changed"@, changes.changed@);
    let quiet = if show_volatile {
        group_lines("~ changed (volatile)"@, changes.changed_volatile@)
    } else {
        Seq::empty()
    };
    let removed = group_lines("- removed"@, changes.removed@);
    if has_changes(changes, show_volatile) {
        assert forall|line: Seq<char>|
            added.contains(line) || changed.contains(line) || quiet.contains(line)
                || removed.contains(line) implies lines.contains(line) by {
            if added.contains(line) {
                let k = choose|k: int| 0 <= k < added.len() && added[k] == line;
                assert(lines[1 + k] == line);
            } else if changed.contains(line) {
                let k = choose|k: int| 0 <= k < changed.len() && changed[k] == line;
                assert(lines[1 + added.len() + k] == line);
            } else if quiet.contains(line) {
                let k = choose|k: int| 0 <= k < quiet.len() && quiet[k] == line;
                assert(lines[1 + added.len() + changed.len() + k] == line);
            } else {
                let k = choose|k: int| 0 <= k < removed.len() && removed[k] == line;
                assert(lines[1 + added.len() + changed.len() + quiet.len() + k] == line);
            }
        }
    }
    if 0 <= i < changes.added@.len() {
        lemma_group_names("+ added"@, changes.added@, i);
    }
    if 0 <= i < changes.changed@.len() {
        lemma_group_names("~ changed"@, changes.changed@, i);
    }
    if show_volatile && 0 <= i < changes.changed_volatile@.len() {
        lemma_group_names("~ changed (volatile)"@, changes.changed_volatile@, i);
    }
    if 0 <= i < changes.removed@.len() {
        lemma_group_names("- removed"@, changes.removed@, i);
    }
}

/// What is shown of changes does not depend on volatile ones where those are not
/// asked for.
pub proof fn law_volatile_changes_are_hidden(
    marketplace: Seq<char>,
    a: ApplyOutcome,
    b: ApplyOutcome,
    multi: bool,
)
    requires
        a.added == b.added,
        a.changed == b.changed,
        a.removed == b.removed,
    ensures
        section_lines(marketplace, a, multi, false) == section_lines(marketplace, b, multi, false),
{
}

/// What is asked for wins over the settings; zero days keep everything.
pub proof fn law_pruning_keeps_the_days_asked_for(days: u32, retention: u32)
    ensures
        days > 0 ==> days_to_keep(Some(days), retention) == Some(days),
        retention > 0 ==> days_to_keep(None, retention) == Some(retention),
        days_to_keep(Some(0), retention) is None,
        days_to_keep(None, 0) is None,
{
}

} // verus!
