//! Listing, searching and exporting the library.

use vstd::prelude::*;
use vstd::string::StringExecFns;
use super::error::LibraryError;
use crate::json::Json;
use crate::json::JsonView;
use crate::json::array_of;
use crate::json::compact;
use crate::json::compact_text;
use crate::json::field;
use crate::json::held;
use crate::json::json_of;
use crate::json::member_views;
use crate::json::object_of;
use crate::json::push_member;
use crate::json::push_text_member;
use crate::json::text_field;
use crate::json::value_field;
use crate::json::views;
use crate::lists::holds_text;
use crate::lists::push_text;
use crate::tables::cells;
use crate::tables::push_row;
use crate::tables::row4;
use crate::tables::row5;
use crate::text::cat2;
use crate::text::chars_of;
use crate::text::decimal;
use crate::text::empty_text;
use crate::text::first_at;
use crate::text::join;
use crate::text::joined;
use crate::text::lemma_first_at_is;
use crate::text::number;
use crate::text::opt_text;
use crate::text::or_empty;
use crate::text::text_or_empty;
use crate::text::texts;
use crate::text::trim;
use crate::text::trimmed;

verus! {

/// A book as it is listed.
#[derive(Debug)]
pub struct BookRow {
    /// Its marketplace.
    pub marketplace: String,
    /// Its id.
    pub asin: String,
    /// What it is.
    pub kind: String,
    /// Its title.
    pub full_title: String,
    /// When it was bought.
    pub purchase_date: Option<String>,
    /// How long it plays, in minutes.
    pub runtime_min: Option<String>,
    /// Its language.
    pub language: Option<String>,
}

/// The row of a book.
pub open spec fn book_cells(book: BookRow) -> Seq<Seq<char>> {
    seq![
        book.marketplace@,
        book.asin@,
        book.kind@,
        book.full_title@,
        or_empty(opt_text(book.purchase_date)),
        or_empty(opt_text(book.runtime_min)),
        or_empty(opt_text(book.language)),
    ]
}

/// The rows of books, each with its marketplace ahead.
pub fn mp_book_rows(books: &Vec<BookRow>) -> (rows: Vec<Vec<String>>)
    ensures
        cells(rows@) == books@.map_values(|book: BookRow| book_cells(book)),
{
    let mut rows: Vec<Vec<String>> = Vec::new();
    let ghost want = books@.map_values(|book: BookRow| book_cells(book));
    let mut i: usize = 0;
    assert(cells(rows@) =~= want.subrange(0, 0));
    while i < books.len()
        invariant
            i <= books@.len(),
            want == books@.map_values(|book: BookRow| book_cells(book)),
            cells(rows@) == want.subrange(0, i as int),
        decreases books.len() - i,
    {
        let book = &books[i];
        let mut row = row5(
            book.marketplace.clone(),
            book.asin.clone(),
            book.kind.clone(),
            book.full_title.clone(),
            text_or_empty(&book.purchase_date),
        );
        push_text(&mut row, text_or_empty(&book.runtime_min));
        push_text(&mut row, text_or_empty(&book.language));
        assert(texts(row@) =~= book_cells(*book));
        push_row(&mut rows, row);
        i = i + 1;
        assert(cells(rows@) =~= want.subrange(0, i as int));
    }
    assert(want.subrange(0, i as int) =~= want);
    rows
}

/// Whether a page is looked for at all.
pub open spec fn is_queried(limit: u32, page: u32) -> bool {
    !(limit == 0 && page > 1)
}

/// Whether a page has to be fetched: where there is no limit, the first page
/// holds everything and the others nothing.
pub fn needs_query(limit: u32, page: u32) -> (yes: bool)
    ensures
        yes == is_queried(limit, page),
{
    !(limit == 0 && page > 1)
}

/// What follows from what was found of a page.
#[derive(Clone, Copy, Debug, PartialEq, Eq, Structural)]
pub enum PageOutcome {
    /// There is something to show.
    Rows,
    /// The page lies behind the last.
    PastTheEnd,
    /// There is nothing at all to show.
    Nothing,
}

/// What follows from what was found of a page.
pub open spec fn outcome_of(found: usize, page: u32) -> PageOutcome {
    if found > 0 {
        PageOutcome::Rows
    } else if page > 1 {
        PageOutcome::PastTheEnd
    } else {
        PageOutcome::Nothing
    }
}

/// Tells what follows from what was found of a page.
pub fn page_outcome(found: usize, page: u32) -> (outcome: PageOutcome)
    ensures
        outcome == outcome_of(found, page),
{
    if found > 0 {
        PageOutcome::Rows
    } else if page > 1 {
        PageOutcome::PastTheEnd
    } else {
        PageOutcome::Nothing
    }
}

/// What is said where a list is empty and nothing of the kinds asked for is
/// stored at all.
pub open spec fn empty_list_texts(kinds: Seq<Seq<char>>) -> Seq<Seq<char>> {
    if kinds.len() == 0 {
        seq!["library database is empty — run `audible library sync`"@]
    } else {
        seq!["no items of kind "@ + joined(kinds, "/"@)] + (if kinds.contains("episode"@) {
            seq![
                "a followed show's episodes are not library items — list them with `audible library episodes <SHOW>`"@,
            ]
        } else {
            Seq::empty()
        })
    }
}

/// What is said where nothing of the kinds asked for is stored.
pub fn empty_list_notes(kinds: &Vec<String>) -> (notes: Vec<String>)
    ensures
        texts(notes@) == empty_list_texts(texts(kinds@)),
{
    let mut notes: Vec<String> = Vec::new();
    if kinds.len() == 0 {
        push_text(
            &mut notes,
            String::from_str("library database is empty — run `audible library sync`"),
        );
    } else {
        push_text(&mut notes, cat2("no items of kind ", join(kinds, "/").as_str()));
        if holds_text(kinds, "episode") {
            push_text(
                &mut notes,
                String::from_str(
                    "a followed show's episodes are not library items — list them with `audible library episodes <SHOW>`",
                ),
            );
        }
    }
    assert(texts(notes@) =~= empty_list_texts(texts(kinds@)));
    notes
}

/// What is said where nothing lacks downloads; `what` names the things.
pub fn none_missing_note(what: &str, kinds: &Vec<String>) -> (text: String)
    ensures
        text@ == "no "@ + what@ + " lacking "@ + joined(texts(kinds@), "/"@) + " downloads"@,
{
    crate::text::cat5("no ", what, " lacking ", join(kinds, "/").as_str(), " downloads")
}

/// An item that lacks downloads.
#[derive(Debug)]
pub struct MissingRow {
    /// Its marketplace.
    pub marketplace: String,
    /// Its id.
    pub asin: String,
    /// Its title.
    pub full_title: String,
    /// What it lacks.
    pub missing: String,
}

/// The rows of items that lack downloads.
pub fn missing_rows(list: &Vec<MissingRow>) -> (rows: Vec<Vec<String>>)
    ensures
        cells(rows@) == list@.map_values(
            |row: MissingRow| seq![row.marketplace@, row.asin@, row.full_title@, row.missing@],
        ),
{
    let mut rows: Vec<Vec<String>> = Vec::new();
    let ghost want = list@.map_values(
        |row: MissingRow| seq![row.marketplace@, row.asin@, row.full_title@, row.missing@],
    );
    let mut i: usize = 0;
    assert(cells(rows@) =~= want.subrange(0, 0));
    while i < list.len()
        invariant
            i <= list@.len(),
            want == list@.map_values(
                |row: MissingRow| seq![row.marketplace@, row.asin@, row.full_title@, row.missing@],
            ),
            cells(rows@) == want.subrange(0, i as int),
        decreases list.len() - i,
    {
        let row = &list[i];
        push_row(
            &mut rows,
            row4(
                row.marketplace.clone(),
                row.asin.clone(),
                row.full_title.clone(),
                row.missing.clone(),
            ),
        );
        i = i + 1;
        assert(cells(rows@) =~= want.subrange(0, i as int));
    }
    assert(want.subrange(0, i as int) =~= want);
    rows
}

/// An item that is not owned.
#[derive(Debug)]
pub struct BorrowedRow {
    /// Its marketplace.
    pub marketplace: String,
    /// Its id.
    pub asin: String,
    /// Its title.
    pub full_title: String,
    /// The plans through which it can be played.
    pub eligible: String,
    /// The other plans that hold it.
    pub not_eligible: String,
}

/// What an empty cell shows to people; others see it empty.
pub open spec fn placeholder_text(human: bool, value: Seq<char>, empty: Seq<char>) -> Seq<char> {
    if human && value.len() == 0 {
        empty
    } else {
        value
    }
}

fn placeholder(human: bool, value: &str, empty: &str) -> (text: String)
    ensures
        text@ == placeholder_text(human, value@, empty@),
{
    if human && value.is_empty() {
        String::from_str(empty)
    } else {
        String::from_str(value)
    }
}

/// The row of an item that is not owned.
pub open spec fn borrowed_cells(row: BorrowedRow, human: bool) -> Seq<Seq<char>> {
    seq![
        row.marketplace@,
        row.asin@,
        row.full_title@,
        placeholder_text(human, row.eligible@, "none"@),
        placeholder_text(human, row.not_eligible@, "—"@),
    ]
}

/// The rows of items that are not owned.
pub fn borrowed_rows(list: &Vec<BorrowedRow>, human: bool) -> (rows: Vec<Vec<String>>)
    ensures
        cells(rows@) == list@.map_values(|row: BorrowedRow| borrowed_cells(row, human)),
{
    let mut rows: Vec<Vec<String>> = Vec::new();
    let ghost want = list@.map_values(|row: BorrowedRow| borrowed_cells(row, human));
    let mut i: usize = 0;
    assert(cells(rows@) =~= want.subrange(0, 0));
    while i < list.len()
        invariant
            i <= list@.len(),
            want == list@.map_values(|row: BorrowedRow| borrowed_cells(row, human)),
            cells(rows@) == want.subrange(0, i as int),
        decreases list.len() - i,
    {
        let row = &list[i];
        push_row(
            &mut rows,
            row5(
                row.marketplace.clone(),
                row.asin.clone(),
                row.full_title.clone(),
                placeholder(human, row.eligible.as_str(), "none"),
                placeholder(human, row.not_eligible.as_str(), "—"),
            ),
        );
        i = i + 1;
        assert(cells(rows@) =~= want.subrange(0, i as int));
    }
    assert(want.subrange(0, i as int) =~= want);
    rows
}

/// What a member of an item is shown as; empty where it has none.
pub open spec fn member_text(item: JsonView, name: Seq<char>) -> Seq<char> {
    match field(item, name) {
        Some(JsonView::Text(text)) => text,
        Some(other) => compact_text(other),
        None => Seq::empty(),
    }
}

fn show_member(item: &serde_json::Value, name: &str) -> (text: String)
    ensures
        text@ == member_text(held(*item), name@),
{
    match value_field(item, name) {
        Some(v) => {
            let shown = compact(&v);
            match json_of(v) {
                Json::Text(text) => text,
                _ => shown,
            }
        },
        None => empty_text(),
    }
}

/// The cells of an item as the server sent it.
pub open spec fn remote_cells(item: JsonView, title: Seq<char>) -> Seq<Seq<char>> {
    seq![
        or_empty(text_field(item, "asin"@)),
        title,
        member_text(item, "purchase_date"@),
        member_text(item, "runtime_length_min"@),
        member_text(item, "language"@),
    ]
}

/// The row of an item as the server sent it; `title` is its full title.
pub fn remote_row(item: &serde_json::Value, title: &str) -> (row: Vec<String>)
    ensures
        texts(row@) == remote_cells(held(*item), title@),
{
    let asin = match value_field(item, "asin") {
        Some(v) => match json_of(v) {
            Json::Text(text) => Some(text),
            _ => None,
        },
        None => None,
    };
    row5(
        text_or_empty(&asin),
        String::from_str(title),
        show_member(item, "purchase_date"),
        show_member(item, "runtime_length_min"),
        show_member(item, "language"),
    )
}

/// How many items of a page are taken: as many as there is room for, and one
/// at least.
pub open spec fn taken(have: int, found: int, limit: int) -> int {
    if found == 0 {
        0
    } else if limit - have <= 1 {
        1
    } else if found < limit - have {
        found
    } else {
        limit - have
    }
}

/// Adds the rows of a page of items, each with its full title, until there are
/// enough; says whether there are.
pub fn remote_page(
    rows: &mut Vec<Vec<String>>,
    page: &Vec<(serde_json::Value, String)>,
    limit: u32,
) -> (full: bool)
    ensures
        ({
            let shown = page@.map_values(
                |item: (serde_json::Value, String)| remote_cells(held(item.0), item.1@),
            );
            let n = taken(old(rows)@.len() as int, page@.len() as int, limit as int);
            &&& cells(final(rows)@) == cells(old(rows)@) + shown.subrange(0, n)
            &&& full == (page@.len() > 0 && final(rows)@.len() >= limit)
        }),
{
    let ghost before = cells(rows@);
    let ghost shown = page@.map_values(
        |item: (serde_json::Value, String)| remote_cells(held(item.0), item.1@),
    );
    let mut i: usize = 0;
    assert(cells(rows@) =~= before + shown.subrange(0, 0));
    while i < page.len()
        invariant
            i <= page@.len(),
            before == cells(old(rows)@),
            shown == page@.map_values(
                |item: (serde_json::Value, String)| remote_cells(held(item.0), item.1@),
            ),
            cells(rows@) == before + shown.subrange(0, i as int),
            i > 0 ==> rows@.len() < limit,
        decreases page.len() - i,
    {
        push_row(rows, remote_row(&page[i].0, page[i].1.as_str()));
        i = i + 1;
        assert(cells(rows@) =~= before + shown.subrange(0, i as int));
        assert(cells(rows@).len() == rows@.len());
        if rows.len() as u64 >= limit as u64 {
            return true;
        }
    }
    assert(cells(rows@).len() == rows@.len());
    false
}

/// Checks that there is something to search for.
pub fn check_query(query: &str) -> (result: Result<(), LibraryError<String>>)
    ensures
        match result {
            Ok(_) => trimmed(query@).len() > 0,
            Err(e) => trimmed(query@).len() == 0 && e@ == LibraryError::<Seq<char>>::EmptyQuery,
        },
{
    if trim(query).as_str().is_empty() {
        Err(LibraryError::EmptyQuery)
    } else {
        Ok(())
    }
}

/// The documents of the kinds asked for; none asked for means all.
pub open spec fn kept_docs(
    items: Seq<(Seq<char>, JsonView)>,
    kinds: Seq<Seq<char>>,
) -> Seq<JsonView>
    decreases items.len(),
{
    if items.len() == 0 {
        Seq::empty()
    } else {
        let front = kept_docs(items.drop_last(), kinds);
        if kinds.len() == 0 || kinds.contains(items.last().0) {
            front.push(items.last().1)
        } else {
            front
        }
    }
}

fn keep_docs(items: Vec<(String, Json)>, kinds: &Vec<String>) -> (docs: Vec<Json>)
    ensures
        views(docs@) == kept_docs(member_views(items@), texts(kinds@)),
{
    let ghost want = kept_docs(member_views(items@), texts(kinds@));
    let mut rest = items;
    let mut backwards: Vec<Json> = Vec::new();
    assert(want =~= want + views(backwards@).reverse());
    while rest.len() > 0
        invariant
            want == kept_docs(member_views(rest@), texts(kinds@)) + views(backwards@).reverse(),
        decreases rest.len(),
    {
        let ghost listed = member_views(rest@);
        let ghost done = views(backwards@);
        match rest.pop() {
            Some((kind, doc)) => {
                assert(member_views(rest@) =~= listed.drop_last());
                assert(listed.last() == (kind@, doc@));
                let ghost front = kept_docs(listed.drop_last(), texts(kinds@));
                if kind_passes(kind.as_str(), kinds) {
                    backwards.push(doc);
                    assert(views(backwards@) =~= done.push(doc@));
                    assert(front.push(doc@) + done.reverse() =~= front + done.push(
                        doc@,
                    ).reverse());
                }
            },
            None => {},
        }
    }
    assert(want =~= views(backwards@).reverse());
    let mut docs: Vec<Json> = Vec::new();
    assert(views(docs@) + views(backwards@).reverse() =~= want);
    while backwards.len() > 0
        invariant
            views(docs@) + views(backwards@).reverse() == want,
        decreases backwards.len(),
    {
        let ghost left = views(backwards@);
        let ghost done = views(docs@);
        match backwards.pop() {
            Some(doc) => {
                assert(views(backwards@) =~= left.drop_last());
                assert(left.last() == doc@);
                docs.push(doc);
                assert(views(docs@) =~= done.push(doc@));
                assert(done + left.reverse() =~= done.push(doc@) + left.drop_last().reverse());
            },
            None => {},
        }
    }
    assert(views(docs@) =~= want);
    docs
}

/// The library as it is exported: its documents with what they are of.
pub open spec fn export_object(
    exported_utc: Seq<char>,
    marketplaces: Seq<Seq<char>>,
    response_groups: Seq<char>,
    docs: Seq<JsonView>,
) -> JsonView {
    JsonView::Object(
        seq![
            ("format"@, JsonView::Text("audible-rs-library-export"@)),
            ("version"@, JsonView::Number("1"@)),
            ("exported_utc"@, JsonView::Text(exported_utc)),
            (
                "marketplaces"@,
                JsonView::Array(marketplaces.map_values(|cc: Seq<char>| JsonView::Text(cc))),
            ),
            ("response_groups"@, JsonView::Text(response_groups)),
            ("count"@, JsonView::Number(decimal(docs.len() as int))),
            ("items"@, JsonView::Array(docs)),
        ],
    )
}

fn text_values(list: &Vec<String>) -> (values: Vec<Json>)
    ensures
        views(values@) == texts(list@).map_values(|item: Seq<char>| JsonView::Text(item)),
{
    let ghost want = texts(list@).map_values(|item: Seq<char>| JsonView::Text(item));
    let mut values: Vec<Json> = Vec::new();
    let mut i: usize = 0;
    assert(views(values@) =~= want.subrange(0, 0));
    while i < list.len()
        invariant
            i <= list@.len(),
            want == texts(list@).map_values(|item: Seq<char>| JsonView::Text(item)),
            views(values@) == want.subrange(0, i as int),
        decreases list.len() - i,
    {
        let ghost done = views(values@);
        let value = Json::Text(list[i].clone());
        assert(value@ == JsonView::Text(texts(list@)[i as int]));
        values.push(value);
        assert(views(values@) =~= done.push(value@));
        i = i + 1;
        assert(views(values@) =~= want.subrange(0, i as int));
    }
    assert(want.subrange(0, i as int) =~= want);
    values
}

/// Exports the documents of the kinds asked for, each given with its kind.
pub fn export_json(
    exported_utc: &str,
    marketplaces: &Vec<String>,
    response_groups: &str,
    items: Vec<(String, Json)>,
    kinds: &Vec<String>,
) -> (json: Json)
    ensures
        json@ == export_object(
            exported_utc@,
            texts(marketplaces@),
            response_groups@,
            kept_docs(member_views(items@), texts(kinds@)),
        ),
{
    let docs = keep_docs(items, kinds);
    let mut list: Vec<(String, Json)> = Vec::new();
    assert(member_views(list@) =~= Seq::empty());
    push_text_member(&mut list, "format", "audible-rs-library-export");
    push_member(&mut list, "version", Json::Number(String::from_str("1")));
    push_text_member(&mut list, "exported_utc", exported_utc);
    push_member(&mut list, "marketplaces", array_of(text_values(marketplaces)));
    push_text_member(&mut list, "response_groups", response_groups);
    assert(docs@.len() == views(docs@).len());
    push_member(&mut list, "count", Json::Number(number(docs.len() as u64)));
    push_member(&mut list, "items", array_of(docs));
    assert(member_views(list@) =~= export_object(
        exported_utc@,
        texts(marketplaces@),
        response_groups@,
        views(docs@),
    )->Object_0);
    object_of(list)
}

/// Whether a kind is among those asked for; none asked for means all.
pub fn kind_passes(kind: &str, kinds: &Vec<String>) -> (yes: bool)
    ensures
        yes == (kinds@.len() == 0 || texts(kinds@).contains(kind@)),
{
    kinds.len() == 0 || holds_text(kinds, kind)
}

/// Whether a field of a line has to be quoted.
pub open spec fn needs_quotes(s: Seq<char>) -> bool {
    s.contains(',') || s.contains('"') || s.contains('\n') || s.contains('\r')
}

/// The text with every quote doubled.
pub open spec fn doubled(s: Seq<char>) -> Seq<char>
    decreases s.len(),
{
    if s.len() == 0 {
        Seq::empty()
    } else if s[0] == '"' {
        seq!['"', '"'] + doubled(s.drop_first())
    } else {
        seq![s[0]] + doubled(s.drop_first())
    }
}

/// How a field stands in a line: in quotes where it has to be, with those in it
/// doubled.
pub open spec fn csv_text(s: Seq<char>) -> Seq<char> {
    if needs_quotes(s) {
        seq!['"'] + doubled(s) + seq!['"']
    } else {
        s
    }
}

/// Writes a field of a line.
pub fn csv_field(field: &str) -> (text: String)
    ensures
        text@ == csv_text(field@),
{
    if !(crate::text::contains_char(field, ',') || crate::text::contains_char(field, '"')
        || crate::text::contains_char(field, '\n') || crate::text::contains_char(field, '\r')) {
        return String::from_str(field);
    }
    let chars = chars_of(field);
    let ghost n = chars@.len() as int;
    let mut text = String::new();
    text.push('"');
    let ghost open = seq!['"'];
    let mut i: usize = 0;
    assert(text@ =~= open);
    assert(chars@.subrange(0, n) =~= chars@);
    while i < chars.len()
        invariant
            i <= chars@.len(),
            n == chars@.len(),
            text@ + doubled(chars@.subrange(i as int, n)) == open + doubled(chars@),
        decreases chars.len() - i,
    {
        let ghost rest = chars@.subrange(i as int, n);
        let ghost done = text@;
        assert(rest.drop_first() =~= chars@.subrange(i + 1, n));
        assert(rest[0] == chars@[i as int]);
        let c = chars[i];
        if c == '"' {
            text.push('"');
        }
        text.push(c);
        i = i + 1;
        assert(text@ + doubled(rest.drop_first()) =~= done + doubled(rest));
    }
    assert(text@ =~= open + doubled(chars@)) by {
        assert(chars@.subrange(i as int, n) =~= Seq::<char>::empty());
        assert(text@ + Seq::<char>::empty() =~= text@);
    }
    text.push('"');
    assert(text@ =~= open + doubled(chars@) + seq!['"']);
    text
}

/// A line of fields.
pub open spec fn csv_line(fields: Seq<Seq<char>>) -> Seq<char> {
    joined(fields.map_values(|s: Seq<char>| csv_text(s)), ","@)
}

/// Writes a line of fields.
pub fn csv_row(fields: &Vec<String>) -> (line: String)
    ensures
        line@ == csv_line(texts(fields@)),
{
    let mut quoted: Vec<String> = Vec::new();
    let ghost want = texts(fields@).map_values(|s: Seq<char>| csv_text(s));
    let mut i: usize = 0;
    while i < fields.len()
        invariant
            i <= fields@.len(),
            want == texts(fields@).map_values(|s: Seq<char>| csv_text(s)),
            texts(quoted@).len() == i,
            forall|k: int| 0 <= k < i ==> #[trigger] texts(quoted@)[k] == want[k],
        decreases fields.len() - i,
    {
        push_text(&mut quoted, csv_field(fields[i].as_str()));
        i = i + 1;
    }
    assert(texts(quoted@) =~= want);
    join(&quoted, ",")
}

/// Reads a field behind its opening quote: its text and what follows the
/// closing quote; nothing where that is missing.
pub open spec fn read_quoted(s: Seq<char>) -> Option<(Seq<char>, Seq<char>)>
    decreases s.len(),
{
    if s.len() == 0 {
        None
    } else if s[0] == '"' {
        if s.len() > 1 && s[1] == '"' {
            match read_quoted(s.subrange(2, s.len() as int)) {
                Some((value, rest)) => Some((seq!['"'] + value, rest)),
                None => None,
            }
        } else {
            Some((Seq::empty(), s.drop_first()))
        }
    } else {
        match read_quoted(s.drop_first()) {
            Some((value, rest)) => Some((seq![s[0]] + value, rest)),
            None => None,
        }
    }
}

/// Reads a field: its text and what follows it.
pub open spec fn read_field(s: Seq<char>) -> Option<(Seq<char>, Seq<char>)> {
    if s.len() > 0 && s[0] == '"' {
        read_quoted(s.drop_first())
    } else {
        let end = first_at(s, ',');
        Some((s.subrange(0, end), s.subrange(end, s.len() as int)))
    }
}

/// Reads the fields of a line; nothing where it is none.
pub open spec fn read_line(s: Seq<char>) -> Option<Seq<Seq<char>>>
    decreases s.len(),
{
    match read_field(s) {
        Some((value, rest)) => if rest.len() == 0 {
            Some(seq![value])
        } else if rest[0] == ',' && rest.len() <= s.len() {
            match read_line(rest.drop_first()) {
                Some(values) => Some(seq![value] + values),
                None => None,
            }
        } else {
            None
        },
        None => None,
    }
}

proof fn lemma_read_quoted(s: Seq<char>, tail: Seq<char>)
    requires
        tail.len() == 0 || tail[0] != '"',
    ensures
        read_quoted(doubled(s) + seq!['"'] + tail) == Some((s, tail)),
    decreases s.len(),
{
    let all = doubled(s) + seq!['"'] + tail;
    if s.len() == 0 {
        assert(all =~= seq!['"'] + tail);
        assert(all.drop_first() =~= tail);
        assert(s =~= Seq::<char>::empty());
    } else {
        let rest = s.drop_first();
        lemma_read_quoted(rest, tail);
        assert(s =~= seq![s[0]] + rest);
        if s[0] == '"' {
            assert(all[0] == '"' && all[1] == '"');
            assert(all.subrange(2, all.len() as int) =~= doubled(rest) + seq!['"'] + tail);
        } else {
            assert(all[0] == s[0]);
            assert(all.drop_first() =~= doubled(rest) + seq!['"'] + tail);
        }
    }
}

proof fn lemma_read_field(s: Seq<char>, tail: Seq<char>)
    requires
        tail.len() == 0 || tail[0] == ',',
    ensures
        read_field(csv_text(s) + tail) == Some((s, tail)),
{
    let all = csv_text(s) + tail;
    if needs_quotes(s) {
        assert(all.drop_first() =~= doubled(s) + seq!['"'] + tail);
        lemma_read_quoted(s, tail);
    } else {
        assert forall|k: int| 0 <= k < s.len() implies all[k] != ',' && all[k] != '"' by {
            assert(all[k] == s[k]);
            if s[k] == ',' {
                assert(s.contains(','));
            }
            if s[k] == '"' {
                assert(s.contains('"'));
            }
        }
        if tail.len() > 0 {
            assert(all[s.len() as int] == ',');
        }
        lemma_first_at_is(all, ',', s.len() as int);
        assert(all.subrange(0, s.len() as int) =~= s);
        assert(all.subrange(s.len() as int, all.len() as int) =~= tail);
    }
}

proof fn lemma_joined_front(parts: Seq<Seq<char>>, sep: Seq<char>)
    requires
        parts.len() >= 2,
    ensures
        joined(parts, sep) == parts[0] + sep + joined(parts.drop_first(), sep),
    decreases parts.len(),
{
    if parts.len() == 2 {
        assert(parts.drop_last() =~= seq![parts[0]]);
        assert(parts.drop_first() =~= seq![parts[1]]);
        assert(joined(parts.drop_last(), sep) == parts[0]);
        assert(joined(parts.drop_first(), sep) == parts[1]);
    } else {
        let front = parts.drop_last();
        lemma_joined_front(front, sep);
        assert(front.drop_first() =~= parts.drop_first().drop_last());
        assert(parts.drop_first().last() == parts.last());
        assert(joined(parts, sep) =~= parts[0] + sep + joined(parts.drop_first(), sep));
    }
}

/// A line reads back as the fields that were written, whatever they hold.
pub proof fn law_csv_reads_back(fields: Seq<Seq<char>>)
    requires
        fields.len() > 0,
    ensures
        read_line(csv_line(fields)) == Some(fields),
    decreases fields.len(),
{
    let parts = fields.map_values(|s: Seq<char>| csv_text(s));
    let line = csv_line(fields);
    reveal_strlit(",");
    if fields.len() == 1 {
        assert(line == csv_text(fields[0]));
        assert(line + Seq::<char>::empty() =~= line);
        lemma_read_field(fields[0], Seq::empty());
        assert(seq![fields[0]] =~= fields);
    } else {
        let rest = fields.drop_first();
        law_csv_reads_back(rest);
        lemma_joined_front(parts, ","@);
        assert(parts.drop_first() =~= rest.map_values(|s: Seq<char>| csv_text(s)));
        let tail = ","@ + csv_line(rest);
        assert(line =~= csv_text(fields[0]) + tail);
        assert(tail[0] == ',');
        lemma_read_field(fields[0], tail);
        assert(tail.drop_first() =~= csv_line(rest));
        assert(seq![fields[0]] + rest =~= fields);
    }
}

/// A book as it is exported.
#[derive(Debug)]
pub struct ExportBook {
    /// Its marketplace.
    pub marketplace: String,
    /// Its id.
    pub asin: String,
    /// What it is.
    pub kind: String,
    /// Its title.
    pub title: String,
    /// Its subtitle.
    pub subtitle: Option<String>,
    /// Its title, and behind it the subtitle.
    pub full_title: String,
    /// When it was bought.
    pub purchase_date: Option<String>,
    /// How long it plays, in minutes.
    pub runtime_min: Option<String>,
    /// Its language.
    pub language: Option<String>,
}

/// The fields of a book.
pub open spec fn export_fields(book: ExportBook) -> Seq<Seq<char>> {
    seq![
        book.marketplace@,
        book.asin@,
        book.kind@,
        book.title@,
        or_empty(opt_text(book.subtitle)),
        book.full_title@,
        or_empty(opt_text(book.purchase_date)),
        or_empty(opt_text(book.runtime_min)),
        or_empty(opt_text(book.language)),
    ]
}

/// The lines of books, each with its end.
pub open spec fn export_lines(books: Seq<ExportBook>) -> Seq<char>
    decreases books.len(),
{
    if books.len() == 0 {
        Seq::empty()
    } else {
        export_lines(books.drop_last()) + csv_line(export_fields(books.last())) + "\n"@
    }
}

/// The books as they are exported: a line of names, and a line for each book.
pub open spec fn export_text(books: Seq<ExportBook>) -> Seq<char> {
    "mp,asin,kind,title,subtitle,full_title,purchase_date,runtime_min,language\n"@ + export_lines(
        books,
    )
}

/// Writes books as lines of fields under a line of headings.
pub fn export_csv(books: &Vec<ExportBook>) -> (text: String)
    ensures
        text@ == export_text(books@),
{
    let mut text = String::from_str(
        "mp,asin,kind,title,subtitle,full_title,purchase_date,runtime_min,language\n",
    );
    let ghost head = text@;
    let mut i: usize = 0;
    assert(text@ =~= head + export_lines(books@.subrange(0, 0)));
    while i < books.len()
        invariant
            i <= books@.len(),
            text@ == head + export_lines(books@.subrange(0, i as int)),
        decreases books.len() - i,
    {
        let book = &books[i];
        let mut fields = row5(
            book.marketplace.clone(),
            book.asin.clone(),
            book.kind.clone(),
            book.title.clone(),
            text_or_empty(&book.subtitle),
        );
        push_text(&mut fields, book.full_title.clone());
        push_text(&mut fields, text_or_empty(&book.purchase_date));
        push_text(&mut fields, text_or_empty(&book.runtime_min));
        push_text(&mut fields, text_or_empty(&book.language));
        assert(texts(fields@) =~= export_fields(*book));
        let line = csv_row(&fields);
        let ghost done = text@;
        text.append(line.as_str());
        text.append("\n");
        proof {
            let next = books@.subrange(0, i + 1);
            assert(next.drop_last() =~= books@.subrange(0, i as int));
            assert(next.last() == *book);
            assert(text@ =~= head + export_lines(next));
        }
        i = i + 1;
    }
    assert(books@.subrange(0, i as int) =~= books@);
    text
}

/// A book, an item that is not owned and an item of the server each have a row in
/// which every column shows its own property; an absent one is empty.
pub proof fn law_rows_show_each_property(
    book: BookRow,
    loan: BorrowedRow,
    item: JsonView,
    title: Seq<char>,
)
    ensures
        book_cells(book).len() == 7,
        book_cells(book)[0] == book.marketplace@,
        book_cells(book)[1] == book.asin@,
        book_cells(book)[2] == book.kind@,
        book_cells(book)[3] == book.full_title@,
        book.purchase_date matches Some(text) ==> book_cells(book)[4] == text@,
        book.runtime_min matches Some(text) ==> book_cells(book)[5] == text@,
        book.language matches Some(text) ==> book_cells(book)[6] == text@,
        book.language is None ==> book_cells(book)[6].len() == 0,
        borrowed_cells(loan, false) == seq![
            loan.marketplace@,
            loan.asin@,
            loan.full_title@,
            loan.eligible@,
            loan.not_eligible@,
        ],
        loan.eligible@.len() > 0 && loan.not_eligible@.len() > 0 ==> borrowed_cells(loan, true)
            == borrowed_cells(loan, false),
        loan.eligible@.len() == 0 ==> borrowed_cells(loan, true)[3] == "none"@,
        loan.not_eligible@.len() == 0 ==> borrowed_cells(loan, true)[4] == "—"@,
        text_field(item, "asin"@) matches Some(text) ==> remote_cells(item, title)[0] == text,
        remote_cells(item, title)[1] == title,
        field(item, "purchase_date"@) matches Some(JsonView::Text(text)) ==> remote_cells(
            item,
            title,
        )[2] == text,
        field(item, "runtime_length_min"@) matches Some(JsonView::Number(digits)) ==> remote_cells(
            item,
            title,
        )[3] == compact_text(JsonView::Number(digits)),
        field(item, "language"@) matches Some(JsonView::Text(text)) ==> remote_cells(item, title)[4]
            == text,
        field(item, "language"@) is None ==> remote_cells(item, title)[4].len() == 0,
{
    assert(borrowed_cells(loan, false) =~= seq![
        loan.marketplace@,
        loan.asin@,
        loan.full_title@,
        loan.eligible@,
        loan.not_eligible@,
    ]);
    if loan.eligible@.len() > 0 && loan.not_eligible@.len() > 0 {
        assert(borrowed_cells(loan, true) =~= borrowed_cells(loan, false));
    }
}

/// No page is taken beyond what there is, every item is taken for which there is
/// room, and the list does not grow beyond the limit, but for one item of a page
/// that comes when it is full.
pub proof fn law_pages_are_taken_up_to_the_limit(have: int, found: int, limit: int)
    requires
        have >= 0,
        found >= 0,
        limit >= 0,
    ensures
        0 <= taken(have, found, limit) <= found,
        have + found <= limit ==> taken(have, found, limit) == found,
        have < limit ==> have + taken(have, found, limit) <= limit,
        have < limit && have + found > limit ==> have + taken(have, found, limit) == limit,
        have >= limit ==> taken(have, found, limit) <= 1,
{
}

/// A document is exported exactly where its kind is asked for, or no kind is.
pub proof fn law_exports_keep_the_kinds_asked_for(
    items: Seq<(Seq<char>, JsonView)>,
    kinds: Seq<Seq<char>>,
    doc: JsonView,
)
    ensures
        kept_docs(items, kinds).contains(doc) <==> exists|i: int|
            0 <= i < items.len() && (#[trigger] items[i]).1 == doc && (kinds.len() == 0
                || kinds.contains(items[i].0)),
        kinds.len() == 0 ==> kept_docs(items, kinds).len() == items.len(),
    decreases items.len(),
{
    if items.len() > 0 {
        let front = items.drop_last();
        let before = kept_docs(front, kinds);
        let all = kept_docs(items, kinds);
        law_exports_keep_the_kinds_asked_for(front, kinds, doc);
        if before.contains(doc) {
            let k = choose|k: int| 0 <= k < before.len() && before[k] == doc;
            assert(all[k] == doc);
            let i = choose|i: int|
                0 <= i < front.len() && (#[trigger] front[i]).1 == doc && (kinds.len() == 0
                    || kinds.contains(front[i].0));
            assert(items[i] == front[i]);
        }
        let last = items[items.len() - 1];
        if kinds.len() == 0 || kinds.contains(last.0) {
            assert(all[before.len() as int] == last.1);
        }
        if exists|i: int|
            0 <= i < items.len() && (#[trigger] items[i]).1 == doc && (kinds.len() == 0
                || kinds.contains(items[i].0)) {
            let i = choose|i: int|
                0 <= i < items.len() && (#[trigger] items[i]).1 == doc && (kinds.len() == 0
                    || kinds.contains(items[i].0));
            if i < front.len() {
                assert(front[i] == items[i]);
            } else {
                assert(all.contains(all[before.len() as int]));
            }
        }
        if all.contains(doc) {
            let k = choose|k: int| 0 <= k < all.len() && all[k] == doc;
            if k < before.len() {
                assert(before[k] == doc);
            } else {
                assert(items[items.len() - 1].1 == doc);
            }
        }
    }
}

/// An export holds all its documents, in order, with their number and with what
/// they are of.
pub proof fn law_exports_hold_their_documents(
    exported_utc: Seq<char>,
    marketplaces: Seq<Seq<char>>,
    response_groups: Seq<char>,
    docs: Seq<JsonView>,
)
    ensures
        export_object(exported_utc, marketplaces, response_groups, docs) matches JsonView::Object(
            members,
        ) && members.contains(("items"@, JsonView::Array(docs))) && members.contains(
            ("count"@, JsonView::Number(decimal(docs.len() as int))),
        ) && members.contains(("exported_utc"@, JsonView::Text(exported_utc))) && members.contains(
            ("response_groups"@, JsonView::Text(response_groups)),
        ) && members.contains(("version"@, JsonView::Number("1"@))) && members.contains(
            ("format"@, JsonView::Text("audible-rs-library-export"@)),
        ) && members[3].0 == "marketplaces"@ && (members[3].1 matches JsonView::Array(list)
            && list.len() == marketplaces.len() && forall|i: int|
            0 <= i < list.len() ==> (#[trigger] list[i]) == JsonView::Text(marketplaces[i])),
{
    let members = match export_object(exported_utc, marketplaces, response_groups, docs) {
        JsonView::Object(members) => members,
        _ => Seq::empty(),
    };
    assert(members.contains(members[0]));
    assert(members.contains(members[1]));
    assert(members.contains(members[2]));
    assert(members.contains(members[4]));
    assert(members.contains(members[5]));
    assert(members.contains(members[6]));
}

/// Every book has a line of its own in an export, behind those before it, and the
/// line reads back as the properties of the book, each in its column.
pub proof fn law_export_lines_read_back(books: Seq<ExportBook>, book: ExportBook)
    ensures
        export_lines(books.push(book)) == export_lines(books) + csv_line(export_fields(book))
            + "\n"@,
        export_lines(Seq::empty()) == Seq::<char>::empty(),
        ({
            let values = read_line(csv_line(export_fields(book)));
            &&& values is Some
            &&& values->Some_0.len() == 9
            &&& values->Some_0[0] == book.marketplace@
            &&& values->Some_0[1] == book.asin@
            &&& values->Some_0[2] == book.kind@
            &&& values->Some_0[3] == book.title@
            &&& values->Some_0[4] == or_empty(opt_text(book.subtitle))
            &&& values->Some_0[5] == book.full_title@
            &&& values->Some_0[6] == or_empty(opt_text(book.purchase_date))
            &&& values->Some_0[7] == or_empty(opt_text(book.runtime_min))
            &&& values->Some_0[8] == or_empty(opt_text(book.language))
        }),
{
    law_csv_reads_back(export_fields(book));
    assert(books.push(book).drop_last() =~= books);
}

/// An empty list of given kinds names the kinds; episodes, which are no items of
/// the library, get a word of where they are found.
pub proof fn law_empty_lists_are_explained(kinds: Seq<Seq<char>>)
    ensures
        kinds.len() == 0 ==> empty_list_texts(kinds).len() == 1,
        kinds.len() > 0 ==> empty_list_texts(kinds)[0] == "no items of kind "@ + joined(
            kinds,
            "/"@,
        ),
        kinds.len() > 0 ==> (empty_list_texts(kinds).len() == 2 <==> kinds.contains("episode"@)),
{
}

/// Without a limit the first page holds everything, and no other is looked for; a page
/// beyond the end is told from a list that is empty.
pub proof fn law_pages_beyond_the_end_are_told(limit: u32, page: u32, found: usize)
    ensures
        is_queried(limit, 1),
        limit > 0 ==> is_queried(limit, page),
        page > 1 ==> !is_queried(0, page),
        outcome_of(found, page) is Rows <==> found > 0,
        outcome_of(0, page) is PastTheEnd <==> page > 1,
        page <= 1 ==> outcome_of(0, page) is Nothing,
{
}

/// The names in the first line of an export, in the order of the columns.
pub open spec fn export_names() -> Seq<Seq<char>> {
    seq![
        "mp"@,
        "asin"@,
        "kind"@,
        "title"@,
        "subtitle"@,
        "full_title"@,
        "purchase_date"@,
        "runtime_min"@,
        "language"@,
    ]
}

/// An export starts with the names of its columns, of which there are as many as every
/// book has properties, and goes on with a line for each book.
pub proof fn law_exports_name_their_columns(books: Seq<ExportBook>, book: ExportBook)
    ensures
        export_names().len() == export_fields(book).len(),
        export_text(books.push(book)) == export_text(books) + csv_line(export_fields(book))
            + "\n"@,
        export_text(Seq::empty()) == joined(export_names(), ","@) + "\n"@,
{
    reveal_strlit("mp");
    reveal_strlit("asin");
    reveal_strlit("kind");
    reveal_strlit("title");
    reveal_strlit("subtitle");
    reveal_strlit("full_title");
    reveal_strlit("purchase_date");
    reveal_strlit("runtime_min");
    reveal_strlit("language");
    reveal_strlit(",");
    reveal_strlit("\n");
    reveal_strlit("mp,asin,kind,title,subtitle,full_title,purchase_date,runtime_min,language\n");
    law_export_lines_read_back(books, book);
    assert(export_text(books.push(book)) =~= export_text(books) + csv_line(export_fields(book))
        + "\n"@);
    let names = export_names();
    let n2 = names.drop_last();
    let n3 = n2.drop_last();
    let n4 = n3.drop_last();
    let n5 = n4.drop_last();
    let n6 = n5.drop_last();
    let n7 = n6.drop_last();
    let n8 = n7.drop_last();
    let n9 = n8.drop_last();
    assert(joined(n9, ","@) == "mp"@);
    assert(joined(n8, ","@) =~= joined(n9, ","@) + ","@ + "asin"@);
    assert(joined(n7, ","@) =~= joined(n8, ","@) + ","@ + "kind"@);
    assert(joined(n6, ","@) =~= joined(n7, ","@) + ","@ + "title"@);
    assert(joined(n5, ","@) =~= joined(n6, ","@) + ","@ + "subtitle"@);
    assert(joined(n4, ","@) =~= joined(n5, ","@) + ","@ + "full_title"@);
    assert(joined(n3, ","@) =~= joined(n4, ","@) + ","@ + "purchase_date"@);
    assert(joined(n2, ","@) =~= joined(n3, ","@) + ","@ + "runtime_min"@);
    assert(joined(names, ","@) =~= joined(n2, ","@) + ","@ + "language"@);
    assert(export_text(Seq::empty()) =~= joined(names, ","@) + "\n"@);
}

} // verus!
