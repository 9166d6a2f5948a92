//! Annotations of items: positions, bookmarks, notes and clips.

use vstd::prelude::*;
use vstd::string::StrSliceExecFns;
use vstd::string::StringExecFns;
use crate::json::Json;
use crate::json::JsonView;
use crate::json::reading;
use crate::json::field;
use crate::json::list_field;
use crate::json::text;
use crate::json::text_field;
use crate::json::views;
use crate::tables::cells;
use crate::tables::push_row;
use crate::tables::row4;
use crate::tables::row5;
use crate::text::cat2;
use crate::text::cat3;
use crate::text::cat5;
use crate::text::chars_of;
use crate::text::decimal;
use crate::text::empty_text;
use crate::text::number;
use crate::text::opt_str;
use crate::text::opt_text;
use crate::text::part_at;
use crate::text::same;
use crate::text::slice_text;
use crate::text::stands_at;
use crate::text::texts;

verus! {

/// What keeps annotations from being fetched or shown; `T` holds the texts that
/// are named.
#[derive(Debug)]
pub enum AnnotationsError<T> {
    /// Nothing says which items are meant.
    NoSelection,
    /// Annotations could not be fetched.
    Refresh(T),
    /// The item is not in the library.
    NotInLibrary(T),
    /// Nothing is recorded for the item.
    NoRecord(T),
    /// What is recorded cannot be read, for this reason.
    Unreadable(T),
}

impl View for AnnotationsError<String> {
    type V = AnnotationsError<Seq<char>>;

    open spec fn view(&self) -> AnnotationsError<Seq<char>> {
        match *self {
            AnnotationsError::NoSelection => AnnotationsError::NoSelection,
            AnnotationsError::Refresh(asin) => AnnotationsError::Refresh(asin@),
            AnnotationsError::NotInLibrary(asin) => AnnotationsError::NotInLibrary(asin@),
            AnnotationsError::NoRecord(asin) => AnnotationsError::NoRecord(asin@),
            AnnotationsError::Unreadable(words) => AnnotationsError::Unreadable(words@),
        }
    }
}

impl AnnotationsError<String> {
    /// The words that tell the user of the fault.
    pub fn message(&self) -> (text: String)
        ensures
            text@ == match self@ {
                AnnotationsError::NoSelection =>
                    "select items with --asin/--title, or --all / --missing"@,
                AnnotationsError::Refresh(asin) => "could not refresh annotations for "@ + asin,
                AnnotationsError::NotInLibrary(asin) => asin
                    + " is not in the library for the selected marketplace(s)"@,
                AnnotationsError::NoRecord(asin) => "no annotation record for "@ + asin
                    + " — run `audible annotations sync --asin "@ + asin + "` first"@,
                AnnotationsError::Unreadable(words) => words,
            },
    {
        match self {
            AnnotationsError::NoSelection => String::from_str(
                "select items with --asin/--title, or --all / --missing",
            ),
            AnnotationsError::Refresh(asin) => cat2(
                "could not refresh annotations for ",
                asin.as_str(),
            ),
            AnnotationsError::NotInLibrary(asin) => cat2(
                asin.as_str(),
                " is not in the library for the selected marketplace(s)",
            ),
            AnnotationsError::NoRecord(asin) => cat5(
                "no annotation record for ",
                asin.as_str(),
                " — run `audible annotations sync --asin ",
                asin.as_str(),
                "` first",
            ),
            AnnotationsError::Unreadable(words) => words.clone(),
        }
    }
}

/// Which items annotations are fetched for.
#[derive(Clone, Copy, Debug, PartialEq, Eq, Structural)]
pub enum Selection {
    /// Every item of the library.
    All,
    /// Those that were never asked for.
    Missing,
    /// Those that were named.
    Named,
}

/// Which items annotations are fetched for; nothing where nothing says so.
pub open spec fn selection_of(named: bool, all: bool, missing: bool) -> Option<Selection> {
    if all {
        Some(Selection::All)
    } else if missing {
        Some(Selection::Missing)
    } else if named {
        Some(Selection::Named)
    } else {
        None
    }
}

/// Tells which items are meant; to name none of these ways is an error.
pub fn select(asins: &Vec<String>, titles: &Vec<String>, all: bool, missing: bool) -> (selection: Result<
    Selection,
    AnnotationsError<String>,
>)
    ensures
        ({
            let want = selection_of(asins@.len() > 0 || titles@.len() > 0, all, missing);
            match selection {
                Ok(s) => want == Some(s),
                Err(e) => want is None && e@ == AnnotationsError::<Seq<char>>::NoSelection,
            }
        }),
{
    if asins.len() == 0 && titles.len() == 0 && !all && !missing {
        return Err(AnnotationsError::NoSelection);
    }
    if all {
        Ok(Selection::All)
    } else if missing {
        Ok(Selection::Missing)
    } else {
        Ok(Selection::Named)
    }
}

/// What came of fetching the annotations of an item.
#[derive(Clone, Copy, Debug, PartialEq, Eq, Structural)]
pub enum FetchOutcome {
    /// They are stored.
    Synced,
    /// It has none, and that is stored.
    Empty,
    /// They could not be fetched or stored.
    Failed,
}

/// What came of fetching the annotations of an item.
pub open spec fn fetched_as(fetched: Option<bool>, stored: bool) -> FetchOutcome {
    match fetched {
        Some(any) => if !stored {
            FetchOutcome::Failed
        } else if any {
            FetchOutcome::Synced
        } else {
            FetchOutcome::Empty
        },
        None => FetchOutcome::Failed,
    }
}

/// Judges a fetch: `fetched` says whether the server answered, and whether it
/// had annotations; `stored` whether the answer could be stored. Whether a file
/// could be written beside it does not count.
pub fn fetch_outcome(fetched: Option<bool>, stored: bool) -> (outcome: FetchOutcome)
    ensures
        outcome == fetched_as(fetched, stored),
{
    match fetched {
        Some(any) => {
            if !stored {
                FetchOutcome::Failed
            } else if any {
                FetchOutcome::Synced
            } else {
                FetchOutcome::Empty
            }
        },
        None => FetchOutcome::Failed,
    }
}

/// How often an outcome stands in a list.
pub open spec fn count_of(outcomes: Seq<FetchOutcome>, outcome: FetchOutcome) -> int
    decreases outcomes.len(),
{
    if outcomes.len() == 0 {
        0
    } else {
        count_of(outcomes.drop_last(), outcome) + if outcomes.last() == outcome {
            1int
        } else {
            0
        }
    }
}

/// What is said once annotations were fetched.
pub fn tally_line(outcomes: &Vec<FetchOutcome>) -> (text: String)
    ensures
        text@ == "annotations: "@ + decimal(count_of(outcomes@, FetchOutcome::Synced))
            + " synced · "@ + decimal(count_of(outcomes@, FetchOutcome::Empty)) + " none · "@
            + decimal(count_of(outcomes@, FetchOutcome::Failed)) + " failed"@,
{
    let mut synced: u64 = 0;
    let mut empty: u64 = 0;
    let mut failed: u64 = 0;
    let mut i: usize = 0;
    while i < outcomes.len()
        invariant
            i <= outcomes@.len(),
            synced == count_of(outcomes@.subrange(0, i as int), FetchOutcome::Synced),
            empty == count_of(outcomes@.subrange(0, i as int), FetchOutcome::Empty),
            failed == count_of(outcomes@.subrange(0, i as int), FetchOutcome::Failed),
            synced + empty + failed == i,
        decreases outcomes.len() - i,
    {
        proof {
            let next = outcomes@.subrange(0, i + 1);
            assert(next.drop_last() =~= outcomes@.subrange(0, i as int));
            assert(next.last() == outcomes@[i as int]);
        }
        match outcomes[i] {
            FetchOutcome::Synced => {
                synced = synced + 1;
            },
            FetchOutcome::Empty => {
                empty = empty + 1;
            },
            FetchOutcome::Failed => {
                failed = failed + 1;
            },
        }
        i = i + 1;
    }
    assert(outcomes@.subrange(0, i as int) =~= outcomes@);
    let mut text = cat5(
        "annotations: ",
        number(synced).as_str(),
        " synced · ",
        number(empty).as_str(),
        " none · ",
    );
    text.append(number(failed).as_str());
    text.append(" failed");
    text
}

/// Every fetch counts once: the three numbers of the tally add up to how many
/// there were.
pub proof fn law_tally_adds_up(outcomes: Seq<FetchOutcome>)
    ensures
        count_of(outcomes, FetchOutcome::Synced) + count_of(outcomes, FetchOutcome::Empty)
            + count_of(outcomes, FetchOutcome::Failed) == outcomes.len(),
    decreases outcomes.len(),
{
    if outcomes.len() > 0 {
        law_tally_adds_up(outcomes.drop_last());
    }
}

/// An item of the inventory.
#[derive(Debug)]
pub struct InventoryItem {
    /// Its marketplace.
    pub marketplace: String,
    /// Its id.
    pub asin: String,
    /// Its title.
    pub full_title: String,
    /// What came of the last fetch: `ok`, `none`, or nothing.
    pub status: Option<String>,
    /// When it was last fetched.
    pub fetched_utc: Option<String>,
}

/// The word for a status.
pub open spec fn state_word(status: Option<Seq<char>>) -> Seq<char> {
    if status == Some("ok"@) {
        "synced"@
    } else if status == Some("none"@) {
        "none"@
    } else {
        "never"@
    }
}

/// The row of an item of the inventory.
pub open spec fn inventory_cells(item: InventoryItem) -> Seq<Seq<char>> {
    seq![
        item.marketplace@,
        item.asin@,
        item.full_title@,
        state_word(opt_text(item.status)),
        match item.fetched_utc {
            Some(time) => time@,
            None => Seq::empty(),
        },
    ]
}

/// The rows of the inventory; those without annotations can be hidden.
pub open spec fn inventory_of(items: Seq<InventoryItem>, hide_none: bool) -> Seq<Seq<Seq<char>>>
    decreases items.len(),
{
    if items.len() == 0 {
        Seq::empty()
    } else if hide_none && opt_text(items.last().status) == Some("none"@) {
        inventory_of(items.drop_last(), hide_none)
    } else {
        inventory_of(items.drop_last(), hide_none).push(inventory_cells(items.last()))
    }
}

fn has_status(status: &Option<String>, word: &str) -> (yes: bool)
    ensures
        yes == (opt_text(*status) == Some(word@)),
{
    match status {
        Some(found) => same(found.as_str(), word),
        None => false,
    }
}

/// The rows of the inventory.
pub fn inventory_rows(items: &Vec<InventoryItem>, hide_none: bool) -> (rows: Vec<Vec<String>>)
    ensures
        cells(rows@) == inventory_of(items@, hide_none),
{
    let mut rows: Vec<Vec<String>> = Vec::new();
    let mut i: usize = 0;
    assert(cells(rows@) =~= inventory_of(items@.subrange(0, 0), hide_none));
    while i < items.len()
        invariant
            i <= items@.len(),
            cells(rows@) == inventory_of(items@.subrange(0, i as int), hide_none),
        decreases items.len() - i,
    {
        proof {
            let next = items@.subrange(0, i + 1);
            assert(next.drop_last() =~= items@.subrange(0, i as int));
            assert(next.last() == items@[i as int]);
        }
        let item = &items[i];
        let none = has_status(&item.status, "none");
        if !(hide_none && none) {
            let state = if has_status(&item.status, "ok") {
                "synced"
            } else if none {
                "none"
            } else {
                "never"
            };
            let fetched = match &item.fetched_utc {
                Some(time) => time.clone(),
                None => empty_text(),
            };
            let row = row5(
                item.marketplace.clone(),
                item.asin.clone(),
                item.full_title.clone(),
                String::from_str(state),
                fetched,
            );
            assert(texts(row@) =~= inventory_cells(*item));
            push_row(&mut rows, row);
        }
        i = i + 1;
    }
    assert(items@.subrange(0, i as int) =~= items@);
    rows
}

/// A text member; empty where there is none.
pub open spec fn text_of(json: JsonView, name: Seq<char>) -> Seq<char> {
    match text_field(json, name) {
        Some(found) => found,
        None => Seq::empty(),
    }
}

fn member_text(json: &Json, name: &str) -> (result: String)
    ensures
        result@ == text_of(json@, name@),
{
    match json.get_str(name) {
        Some(found) => String::from_str(found),
        None => empty_text(),
    }
}

/// A type without the name of the service ahead of it.
pub open spec fn bare_kind(kind: Seq<char>) -> Seq<char> {
    if stands_at(kind, "audible."@, 0) {
        kind.subrange(8, kind.len() as int)
    } else {
        kind
    }
}

/// Where an annotation is: a position, or a range.
pub open spec fn position_of(record: JsonView) -> Seq<char> {
    let start = text_of(record, "startPosition"@);
    let end = text_of(record, "endPosition"@);
    if end.len() > 0 {
        start + "–"@ + end
    } else {
        start
    }
}

/// The words of an annotation: its text, or else its note. A text that is no
/// string counts as none, and hides the note.
pub open spec fn words_of(record: JsonView) -> Seq<char> {
    let held = match field(record, "text"@) {
        Some(found) => Some(found),
        None => field(record, "note"@),
    };
    match held {
        Some(found) => match text(found) {
            Some(words) => words,
            None => Seq::empty(),
        },
        None => Seq::empty(),
    }
}

/// The row of an annotation: what it is, where, since when, and its words.
pub open spec fn record_cells(record: JsonView) -> Seq<Seq<char>> {
    seq![
        bare_kind(text_of(record, "type"@)),
        position_of(record),
        text_of(record, "creationTime"@),
        words_of(record),
    ]
}

/// The row of an annotation.
pub fn record_row(record: &Json) -> (row: Vec<String>)
    ensures
        texts(row@) == record_cells(record@),
{
    let kind = member_text(record, "type");
    let chars = chars_of(kind.as_str());
    let len: usize = chars.len();
    proof {
        reveal_strlit("audible.");
    }
    let bare = if part_at(&chars, &chars_of("audible."), 0) {
        slice_text(&chars, 8, len)
    } else {
        kind
    };
    let start = member_text(record, "startPosition");
    let end = member_text(record, "endPosition");
    let position = if end.as_str().is_empty() {
        start
    } else {
        cat3(start.as_str(), "–", end.as_str())
    };
    let held = match record.get("text") {
        Some(found) => Some(found),
        None => record.get("note"),
    };
    let shown: Option<&str> = match held {
        Some(found) => found.as_str(),
        None => None,
    };
    let words = match shown {
        Some(found) => String::from_str(found),
        None => empty_text(),
    };
    row4(bare, position, member_text(record, "creationTime"), words)
}

/// The annotations in a document.
pub open spec fn records_of(doc: JsonView) -> Seq<JsonView> {
    match field(doc, "payload"@) {
        Some(payload) => match list_field(payload, "records"@) {
            Some(records) => records,
            None => Seq::empty(),
        },
        None => Seq::empty(),
    }
}

/// The rows of the annotations in a document.
pub fn record_rows(doc: &Json) -> (rows: Vec<Vec<String>>)
    ensures
        cells(rows@) == records_of(doc@).map_values(|record: JsonView| record_cells(record)),
{
    let mut rows: Vec<Vec<String>> = Vec::new();
    let ghost want = records_of(doc@).map_values(|record: JsonView| record_cells(record));
    let records = match doc.get("payload") {
        Some(payload) => payload.get_array("records"),
        None => None,
    };
    let list = match records {
        Some(list) => list,
        None => {
            assert(cells(rows@) =~= want);
            return rows;
        },
    };
    let mut i: usize = 0;
    assert(cells(rows@) =~= want.subrange(0, 0));
    while i < list.len()
        invariant
            i <= list@.len(),
            records_of(doc@) == views(list@),
            want == records_of(doc@).map_values(|record: JsonView| record_cells(record)),
            cells(rows@) == want.subrange(0, i as int),
        decreases list.len() - i,
    {
        push_row(&mut rows, record_row(&list[i]));
        i = i + 1;
        assert(cells(rows@) =~= want.subrange(0, i as int));
    }
    assert(want.subrange(0, i as int) =~= want);
    rows
}

/// What is shown of the annotations of an item.
#[derive(Debug)]
pub enum ShowOutcome {
    /// It has none, and this is said.
    Note(String),
    /// A table, and what is said where it is empty.
    Rows {
        /// The table.
        rows: Vec<Vec<String>>,
        /// What is said where it is empty.
        note: Option<String>,
    },
}

/// The document that is shown, or why it cannot be read: an empty one where
/// none is stored.
pub open spec fn shown_doc(doc: Option<Seq<char>>) -> Result<JsonView, Seq<char>> {
    reading(
        vstd::utf8::encode_utf8(
            match doc {
                Some(raw) => raw,
                None => "{}"@,
            },
        ),
    )
}

/// Shows what is stored of the annotations of an item: what came of the last
/// fetch, when, and the document.
pub fn show(asin: &str, status: &str, fetched_utc: &str, doc: Option<&str>) -> (outcome: Result<
    ShowOutcome,
    AnnotationsError<String>,
>)
    ensures
        match outcome {
            Ok(ShowOutcome::Note(text)) => status@ != "ok"@ && text@ == "no annotations for "@
                + asin@ + " (last synced "@ + fetched_utc@ + ")"@,
            Ok(ShowOutcome::Rows { rows, note }) => status@ == "ok"@ && shown_doc(
                opt_str(doc),
            ) is Ok && cells(rows@) == records_of(
                shown_doc(opt_str(doc))->Ok_0,
            ).map_values(|record: JsonView| record_cells(record)) && opt_text(note) == (
            if rows@.len() == 0 {
                Some("no annotation records for "@ + asin@)
            } else {
                None
            }),
            Err(e) => status@ == "ok"@ && shown_doc(opt_str(doc)) is Err && e@
                == AnnotationsError::<Seq<char>>::Unreadable(shown_doc(opt_str(doc))->Err_0),
        },
{
    if !same(status, "ok") {
        return Ok(
            ShowOutcome::Note(
                cat5("no annotations for ", asin, " (last synced ", fetched_utc, ")"),
            ),
        );
    }
    let raw: &str = match doc {
        Some(raw) => raw,
        None => "{}",
    };
    let bytes = raw.as_bytes_vec();
    let parsed = match Json::read(bytes.as_slice()) {
        Ok(json) => json,
        Err(words) => {
            return Err(AnnotationsError::Unreadable(words));
        },
    };
    let rows = record_rows(&parsed);
    let note = if rows.len() == 0 {
        Some(cat2("no annotation records for ", asin))
    } else {
        None
    };
    Ok(ShowOutcome::Rows { rows, note })
}

/// Judges a refresh: `tried` says whether the item was found in the library of
/// a marketplace, and what came of the fetch there.
pub fn refresh_outcome(asin: &str, tried: Option<FetchOutcome>) -> (result: Result<
    (),
    AnnotationsError<String>,
>)
    ensures
        match result {
            Ok(_) => tried is Some && tried != Some(FetchOutcome::Failed),
            Err(e) => match tried {
                None => e@ == AnnotationsError::NotInLibrary(asin@),
                Some(outcome) => outcome == FetchOutcome::Failed && e@
                    == AnnotationsError::Refresh(asin@),
            },
        },
{
    match tried {
        None => Err(AnnotationsError::NotInLibrary(String::from_str(asin))),
        Some(FetchOutcome::Failed) => Err(AnnotationsError::Refresh(String::from_str(asin))),
        Some(_) => Ok(()),
    }
}

/// Every item has a row in the inventory, in order; one that has no annotations is
/// left out where that is asked for, and no other.
pub proof fn law_inventories_show_every_item(
    items: Seq<InventoryItem>,
    item: InventoryItem,
    hide_none: bool,
)
    ensures
        inventory_of(items.push(item), hide_none) == if hide_none && opt_text(item.status) == Some(
            "none"@,
        ) {
            inventory_of(items, hide_none)
        } else {
            inventory_of(items, hide_none).push(inventory_cells(item))
        },
        inventory_of(Seq::empty(), hide_none).len() == 0,
        inventory_of(items, false).len() == items.len(),
        inventory_cells(item)[0] == item.marketplace@,
        inventory_cells(item)[1] == item.asin@,
        inventory_cells(item)[2] == item.full_title@,
        opt_text(item.status) == Some("ok"@) ==> inventory_cells(item)[3] == "synced"@,
        opt_text(item.status) == Some("none"@) ==> inventory_cells(item)[3] == "none"@,
        item.status is None ==> inventory_cells(item)[3] == "never"@,
        item.fetched_utc matches Some(time) ==> inventory_cells(item)[4] == time@,
{
    assert(items.push(item).drop_last() =~= items);
    lemma_inventory_len(items);
    reveal_strlit("ok");
    reveal_strlit("none");
    assert("ok"@.len() == 2);
    assert("none"@.len() == 4);
}

proof fn lemma_inventory_len(items: Seq<InventoryItem>)
    ensures
        inventory_of(items, false).len() == items.len(),
    decreases items.len(),
{
    if items.len() > 0 {
        lemma_inventory_len(items.drop_last());
    }
}

/// The row of an annotation shows its type without the name of the service, its
/// place, as a range where it has an end, the time of its making and its words.
pub proof fn law_annotation_rows_show_each_property(record: JsonView, kind: Seq<char>)
    ensures
        record_cells(record).len() == 4,
        text_field(record, "type"@) == Some("audible."@ + kind) ==> record_cells(record)[0] == kind,
        text_field(record, "type"@) == Some(kind) && !stands_at(kind, "audible."@, 0)
            ==> record_cells(record)[0] == kind,
        text_field(record, "startPosition"@) matches Some(start) ==> {
            &&& text_field(record, "endPosition"@) is None ==> record_cells(record)[1] == start
            &&& text_field(record, "endPosition"@) matches Some(end) ==> end.len() > 0
                ==> record_cells(record)[1] == start + "–"@ + end
        },
        text_field(record, "creationTime"@) matches Some(time) ==> record_cells(record)[2] == time,
        field(record, "text"@) matches Some(JsonView::Text(words)) ==> record_cells(record)[3]
            == words,
        field(record, "text"@) is None ==> (field(record, "note"@) matches Some(
            JsonView::Text(words),
        ) ==> record_cells(record)[3] == words),
        field(record, "text"@) is None && field(record, "note"@) is None ==> record_cells(
            record,
        )[3].len() == 0,
{
    reveal_strlit("audible.");
    let full = "audible."@ + kind;
    assert("audible."@.len() == 8);
    assert(full.subrange(0, 8) =~= "audible."@);
    assert(full.subrange(8, full.len() as int) =~= kind);
}

/// The annotations of a document are the records of its payload, all of them and
/// in order.
pub proof fn law_every_annotation_is_shown(doc: JsonView, payload: JsonView, list: Seq<JsonView>)
    requires
        field(doc, "payload"@) == Some(payload),
        field(payload, "records"@) == Some(JsonView::Array(list)),
    ensures
        records_of(doc) == list,
{
}

/// Annotations count as synced only where there are any and they were stored; what
/// could not be fetched, or not be stored, failed.
pub proof fn law_unstored_annotations_failed(fetched: Option<bool>, stored: bool)
    ensures
        fetched_as(fetched, stored) is Synced <==> fetched == Some(true) && stored,
        fetched_as(fetched, stored) is Empty <==> fetched == Some(false) && stored,
        fetched_as(fetched, stored) is Failed <==> fetched is None || !stored,
{
}

/// To ask for all wins over to ask for the missing ones, and that over names; to ask for
/// nothing is refused.
pub proof fn law_selections_are_made(named: bool, all: bool, missing: bool)
    ensures
        selection_of(named, all, missing) is None <==> !named && !all && !missing,
        selection_of(named, all, missing) == Some(Selection::All) <==> all,
        selection_of(named, all, missing) == Some(Selection::Missing) <==> missing && !all,
        selection_of(named, all, missing) == Some(Selection::Named) <==> named && !all && !missing,
{
}

/// A document that is stored is the one that is shown; where none is, an empty one is.
pub proof fn law_the_stored_document_is_shown(raw: Seq<char>)
    ensures
        shown_doc(Some(raw)) == reading(vstd::utf8::encode_utf8(raw)),
        shown_doc(None) == shown_doc(Some("{}"@)),
{
}

} // verus!
