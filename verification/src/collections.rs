//! The lists that the server keeps for an account: the wishlist, the archive
//! and others.

use vstd::prelude::*;
use vstd::string::StrSliceExecFns;
use vstd::string::StringExecFns;
use crate::catalog::ByAsin;
use crate::catalog::CatalogDetails;
use crate::catalog::DetailsView;
use crate::catalog::format_runtime;
use crate::catalog::full_title_of;
use crate::catalog::runtime_text;
use crate::json::Json;
use crate::json::JsonView;
use crate::json::document;
use crate::json::flag_field;
use crate::json::list_field;
use crate::json::text_field;
use crate::json::views;
use crate::json::whole_field;
use crate::lists::lemma_unique;
use crate::lists::push_text;
use crate::lists::unique;
use crate::lists::unique_texts;
use crate::tables::cells;
use crate::tables::push_row;
use crate::tables::row5;
use crate::text::cat2;
use crate::text::cat4;
use crate::text::cat5;
use crate::text::chars_of;
use crate::text::contains;
use crate::text::contains_char;
use crate::text::decimal;
use crate::text::empty_text;
use crate::text::holds;
use crate::text::join;
use crate::text::joined;
use crate::text::number;
use crate::text::opt_text;
use crate::text::quoted;
use crate::text::quoted_form;
use crate::text::same;
use crate::text::slice_text;
use crate::text::texts;
use crate::text::to_lower;
use crate::text::unicode_lower;
use crate::text_map::TextSet;
use crate::text_map::in_order;
use crate::text_map::lemma_in_order;
use crate::text_map::lemma_sorted_list;
use crate::text_map::lists_set;
use crate::json::field;

verus! {

/// A list that has commands of its own.
#[derive(Clone, Copy, Debug, PartialEq, Eq, Structural)]
pub enum Noun {
    /// The wishlist.
    Wishlist,
    /// The archive.
    Archive,
}

/// Where the titles that are to be added are looked up.
#[derive(Clone, Copy, Debug, PartialEq, Eq, Structural)]
pub enum AddTitleSource {
    /// In the library: what is archived is owned.
    Library,
    /// In the catalog: what is wished for is not.
    Catalog,
}

/// The name of the command of a list.
pub open spec fn noun_word(noun: Noun) -> Seq<char> {
    match noun {
        Noun::Wishlist => "wishlist"@,
        Noun::Archive => "archive"@,
    }
}

/// The id of a list on the server.
pub open spec fn server_id(noun: Noun) -> Seq<char> {
    match noun {
        Noun::Wishlist => "__WISHLIST"@,
        Noun::Archive => "__ARCHIVE"@,
    }
}

/// How a list is called in a sentence.
pub open spec fn noun_phrase(noun: Noun) -> Seq<char> {
    match noun {
        Noun::Wishlist => "the wishlist"@,
        Noun::Archive => "the archive"@,
    }
}

/// Where the titles that are to be added to a list are looked up.
pub open spec fn title_source(noun: Noun) -> AddTitleSource {
    match noun {
        Noun::Wishlist => AddTitleSource::Catalog,
        Noun::Archive => AddTitleSource::Library,
    }
}

impl Noun {
    /// The name of its command.
    pub fn name(self) -> (text: &'static str)
        ensures
            text@ == noun_word(self),
    {
        match self {
            Noun::Wishlist => "wishlist",
            Noun::Archive => "archive",
        }
    }

    /// Its id on the server.
    pub fn collection_id(self) -> (text: &'static str)
        ensures
            text@ == server_id(self),
    {
        match self {
            Noun::Wishlist => "__WISHLIST",
            Noun::Archive => "__ARCHIVE",
        }
    }

    /// How it is called in a sentence.
    pub fn phrase(self) -> (text: &'static str)
        ensures
            text@ == noun_phrase(self),
    {
        match self {
            Noun::Wishlist => "the wishlist",
            Noun::Archive => "the archive",
        }
    }

    /// Where the titles that are to be added are looked up.
    pub fn add_title_source(self) -> (source: AddTitleSource)
        ensures
            source == title_source(self),
    {
        match self {
            Noun::Wishlist => AddTitleSource::Catalog,
            Noun::Archive => AddTitleSource::Library,
        }
    }

    /// Whether a change can be followed by a sync: only the archive shows in
    /// the library.
    pub fn sync_flag(self) -> (yes: bool)
        ensures
            yes == (self is Archive),
    {
        match self {
            Noun::Wishlist => false,
            Noun::Archive => true,
        }
    }
}

/// A text member; a dash where there is none.
pub open spec fn text_or_dash(json: JsonView, name: Seq<char>) -> Seq<char> {
    match text_field(json, name) {
        Some(text) => text,
        None => "-"@,
    }
}

fn dashed(json: &Json, name: &str) -> (text: String)
    ensures
        text@ == text_or_dash(json@, name@),
{
    match json.get_str(name) {
        Some(text) => String::from_str(text),
        None => String::from_str("-"),
    }
}

/// The row of a list: its id, name, type and section, and how many items.
pub open spec fn list_cells(list: JsonView) -> Seq<Seq<char>> {
    seq![
        text_or_dash(list, "list_id"@),
        text_or_dash(list, "name"@),
        text_or_dash(list, "list_type"@),
        text_or_dash(list, "list_section"@),
        match whole_field(list, "item_count"@) {
            Some(count) => decimal(count),
            None => "-"@,
        },
    ]
}

/// The lists of an answer of the server.
pub open spec fn lists_of(body: JsonView) -> Seq<JsonView> {
    match list_field(body, "lists"@) {
        Some(lists) => lists,
        None => Seq::empty(),
    }
}

/// The rows of the lists of an answer of the server.
pub fn lists_rows(body: &Json) -> (rows: Vec<Vec<String>>)
    ensures
        cells(rows@) == lists_of(body@).map_values(|list: JsonView| list_cells(list)),
{
    let mut rows: Vec<Vec<String>> = Vec::new();
    let ghost want = lists_of(body@).map_values(|list: JsonView| list_cells(list));
    let lists = match body.get_array("lists") {
        Some(lists) => lists,
        None => {
            assert(cells(rows@) =~= want);
            return rows;
        },
    };
    let mut i: usize = 0;
    assert(cells(rows@) =~= want.subrange(0, 0));
    while i < lists.len()
        invariant
            i <= lists@.len(),
            lists_of(body@) == views(lists@),
            want == lists_of(body@).map_values(|list: JsonView| list_cells(list)),
            cells(rows@) == want.subrange(0, i as int),
        decreases lists.len() - i,
    {
        let list = &lists[i];
        let items = match list.get_u64("item_count") {
            Some(count) => number(count),
            None => String::from_str("-"),
        };
        let row = row5(
            dashed(list, "list_id"),
            dashed(list, "name"),
            dashed(list, "list_type"),
            dashed(list, "list_section"),
            items,
        );
        assert(texts(row@) =~= list_cells(list@));
        push_row(&mut rows, row);
        i = i + 1;
        assert(cells(rows@) =~= want.subrange(0, i as int));
    }
    assert(want.subrange(0, i as int) =~= want);
    rows
}

/// An item of a list.
#[derive(Debug)]
pub struct CollectionItem {
    /// Its id.
    pub asin: String,
    /// When it was added.
    pub added: Option<String>,
}

/// What the items hold, in texts.
pub open spec fn item_views(items: Seq<CollectionItem>) -> Seq<(Seq<char>, Option<Seq<char>>)> {
    items.map_values(|item: CollectionItem| (item.asin@, opt_text(item.added)))
}

/// The ids of the items.
pub open spec fn item_asins(items: Seq<CollectionItem>) -> Seq<Seq<char>> {
    items.map_values(|item: CollectionItem| item.asin@)
}

/// The items of a page; what has no id is passed over.
pub open spec fn page_items(list: Seq<JsonView>) -> Seq<(Seq<char>, Option<Seq<char>>)>
    decreases list.len(),
{
    if list.len() == 0 {
        Seq::empty()
    } else {
        match text_field(list.last(), "asin"@) {
            Some(asin) => page_items(list.drop_last()).push(
                (asin, text_field(list.last(), "addition_date"@)),
            ),
            None => page_items(list.drop_last()),
        }
    }
}

/// The token that leads to the next page; an empty one leads nowhere.
pub open spec fn next_token(body: JsonView) -> Option<Seq<char>> {
    match text_field(body, "continuation_token"@) {
        Some(token) => if token.len() == 0 {
            None
        } else {
            Some(token)
        },
        None => None,
    }
}

/// The items of an answer of the server.
pub open spec fn items_of(body: JsonView) -> Seq<JsonView> {
    match list_field(body, "items"@) {
        Some(list) => list,
        None => Seq::empty(),
    }
}

/// Reads the items of a page, and the token that leads to the next.
pub fn parse_items_page(body: &Json) -> (page: (Vec<CollectionItem>, Option<String>))
    ensures
        item_views(page.0@) == page_items(items_of(body@)),
        opt_text(page.1) == next_token(body@),
{
    let mut items: Vec<CollectionItem> = Vec::new();
    assert(item_views(items@) =~= Seq::<(Seq<char>, Option<Seq<char>>)>::empty());
    if let Some(list) = body.get_array("items") {
        let ghost all = views(list@);
        let mut i: usize = 0;
        assert(item_views(items@) =~= page_items(all.subrange(0, 0)));
        while i < list.len()
            invariant
                i <= list@.len(),
                all == views(list@),
                item_views(items@) == page_items(all.subrange(0, i as int)),
            decreases list.len() - i,
        {
            assert(all.subrange(0, i + 1).drop_last() =~= all.subrange(0, i as int));
            assert(all.subrange(0, i + 1).last() == list@[i as int]@);
            if let Some(asin) = list[i].get_str("asin") {
                let item = CollectionItem {
                    asin: String::from_str(asin),
                    added: match list[i].get_str("addition_date") {
                        Some(date) => Some(String::from_str(date)),
                        None => None,
                    },
                };
                let ghost known = item_views(items@);
                items.push(item);
                assert(item_views(items@) =~= known.push((item.asin@, opt_text(item.added))));
            }
            i = i + 1;
        }
        assert(all.subrange(0, i as int) =~= all);
    }
    let next = match body.get_str("continuation_token") {
        Some(token) => if token.is_empty() {
            None
        } else {
            Some(String::from_str(token))
        },
        None => None,
    };
    (items, next)
}

/// How many bytes a character takes in UTF-8.
pub open spec fn width(c: char) -> int {
    if (c as u32) < 0x80 {
        1
    } else if (c as u32) < 0x800 {
        2
    } else if (c as u32) < 0x10000 {
        3
    } else {
        4
    }
}

/// The start of a text that takes so many bytes; nothing where no start does.
pub open spec fn start_of_bytes(s: Seq<char>, bytes: int) -> Option<Seq<char>>
    decreases s.len(),
{
    if bytes == 0 {
        Some(Seq::empty())
    } else if s.len() == 0 || width(s[0]) > bytes {
        None
    } else {
        match start_of_bytes(s.drop_first(), bytes - width(s[0])) {
            Some(rest) => Some(seq![s[0]] + rest),
            None => None,
        }
    }
}

/// The day of a time: its first ten bytes; a text that has no such start is
/// left as it is.
pub open spec fn day_of(timestamp: Seq<char>) -> Seq<char> {
    match start_of_bytes(timestamp, 10) {
        Some(day) => day,
        None => timestamp,
    }
}

fn char_width(c: char) -> (bytes: usize)
    ensures
        bytes == width(c),
        1 <= bytes <= 4,
{
    if (c as u32) < 0x80 {
        1
    } else if (c as u32) < 0x800 {
        2
    } else if (c as u32) < 0x10000 {
        3
    } else {
        4
    }
}

/// The day of a time, `2026-06-19T09:20:50.749Z` as `2026-06-19`.
pub fn date_only(timestamp: &str) -> (day: String)
    ensures
        day@ == day_of(timestamp@),
{
    let chars = chars_of(timestamp);
    let ghost n = chars@.len() as int;
    let mut i: usize = 0;
    let mut left: usize = 10;
    assert(chars@.subrange(0, n) =~= chars@);
    proof {
        let rest = start_of_bytes(chars@, 10);
        if rest is Some {
            assert(chars@.subrange(0, 0) + rest->Some_0 =~= rest->Some_0);
        }
    }
    while left > 0
        invariant
            i <= chars@.len(),
            left <= 10,
            chars@ == timestamp@,
            n == chars@.len(),
            match start_of_bytes(chars@.subrange(i as int, n), left as int) {
                Some(rest) => start_of_bytes(chars@, 10) == Some(
                    chars@.subrange(0, i as int) + rest,
                ),
                None => start_of_bytes(chars@, 10) is None,
            },
        decreases left,
    {
        let ghost rest = chars@.subrange(i as int, n);
        if i == chars.len() {
            return String::from_str(timestamp);
        }
        assert(rest[0] == chars@[i as int]);
        let bytes: usize = char_width(chars[i]);
        if bytes > left {
            return String::from_str(timestamp);
        }
        proof {
            assert(rest.drop_first() =~= chars@.subrange(i + 1, n));
            let tail = start_of_bytes(rest.drop_first(), left - bytes);
            if tail is Some {
                assert(chars@.subrange(0, i as int) + (seq![rest[0]] + tail->Some_0)
                    =~= chars@.subrange(0, i + 1) + tail->Some_0);
            }
        }
        left = left - bytes;
        i = i + 1;
    }
    assert(chars@.subrange(0, i as int) + Seq::<char>::empty() =~= chars@.subrange(0, i as int));
    slice_text(&chars, 0, i)
}

/// The row of an item: its marketplace and id, when it was added, and what the
/// catalog shows of it.
pub open spec fn item_cells(
    marketplace: Seq<char>,
    item: (Seq<char>, Option<Seq<char>>),
    details: Option<DetailsView>,
) -> Seq<Seq<char>> {
    seq![
        marketplace,
        item.0,
        match item.1 {
            Some(added) => day_of(added),
            None => "-"@,
        },
        match details {
            Some(d) => full_title_of(d),
            None => Seq::empty(),
        },
        match details {
            Some(d) => match d.publication {
                Some(publication) => publication,
                None => "-"@,
            },
            None => "-"@,
        },
        match details {
            Some(d) => d.authors,
            None => Seq::empty(),
        },
        match details {
            Some(d) => match d.runtime_min {
                Some(minutes) => runtime_text(minutes as int),
                None => "-"@,
            },
            None => "-"@,
        },
    ]
}

/// What the catalog shows of an id, where it is known.
pub open spec fn known_details(details: Map<Seq<char>, DetailsView>, asin: Seq<char>) -> Option<
    DetailsView,
> {
    if details.contains_key(asin) {
        Some(details[asin])
    } else {
        None
    }
}

fn item_row(marketplace: &str, item: &CollectionItem, details: Option<&CatalogDetails>) -> (row: Vec<
    String,
>)
    ensures
        texts(row@) == item_cells(
            marketplace@,
            (item.asin@, opt_text(item.added)),
            match details {
                Some(d) => Some(d@),
                None => None,
            },
        ),
{
    let added = match &item.added {
        Some(time) => date_only(time.as_str()),
        None => String::from_str("-"),
    };
    let empty = empty_text();
    let title = match details {
        Some(d) => d.full_title(),
        None => empty.clone(),
    };
    let publication = match details {
        Some(d) => match &d.publication {
            Some(publication) => publication.clone(),
            None => String::from_str("-"),
        },
        None => String::from_str("-"),
    };
    let authors = match details {
        Some(d) => d.authors.clone(),
        None => empty,
    };
    let length = match details {
        Some(d) => match d.runtime_min {
            Some(minutes) => format_runtime(minutes),
            None => String::from_str("-"),
        },
        None => String::from_str("-"),
    };
    let mut row = row5(String::from_str(marketplace), item.asin.clone(), added, title, publication);
    push_text(&mut row, authors);
    push_text(&mut row, length);
    assert(texts(row@) =~= item_cells(
        marketplace@,
        (item.asin@, opt_text(item.added)),
        match details {
            Some(d) => Some(d@),
            None => None,
        },
    ));
    row
}

/// The rows of the items of a list.
pub fn item_rows(
    marketplace: &str,
    items: &Vec<CollectionItem>,
    details: &ByAsin<CatalogDetails>,
) -> (rows: Vec<Vec<String>>)
    ensures
        cells(rows@) == item_views(items@).map_values(
            |item: (Seq<char>, Option<Seq<char>>)|
                item_cells(marketplace@, item, known_details(details@, item.0)),
        ),
{
    let mut rows: Vec<Vec<String>> = Vec::new();
    let ghost want = item_views(items@).map_values(
        |item: (Seq<char>, Option<Seq<char>>)|
            item_cells(marketplace@, item, known_details(details@, item.0)),
    );
    let mut i: usize = 0;
    assert(cells(rows@) =~= want.subrange(0, 0));
    while i < items.len()
        invariant
            i <= items@.len(),
            want == item_views(items@).map_values(
                |item: (Seq<char>, Option<Seq<char>>)|
                    item_cells(marketplace@, item, known_details(details@, item.0)),
            ),
            cells(rows@) == want.subrange(0, i as int),
        decreases items.len() - i,
    {
        push_row(&mut rows, item_row(marketplace, &items[i], details.get(items[i].asin.as_str())));
        i = i + 1;
        assert(cells(rows@) =~= want.subrange(0, i as int));
    }
    assert(want.subrange(0, i as int) =~= want);
    rows
}

/// Ids by whether a list holds them.
#[derive(Debug)]
pub struct Parted {
    /// Those that the list holds.
    pub present: Vec<String>,
    /// Those that it does not hold.
    pub missing: Vec<String>,
}

fn asin_listed(items: &Vec<CollectionItem>, asin: &str) -> (yes: bool)
    ensures
        yes == item_asins(items@).contains(asin@),
{
    let mut i: usize = 0;
    while i < items.len()
        invariant
            i <= items@.len(),
            forall|k: int| 0 <= k < i ==> (#[trigger] item_asins(items@)[k]) != asin@,
        decreases items.len() - i,
    {
        assert(item_asins(items@)[i as int] == items@[i as int].asin@);
        if same(items[i].asin.as_str(), asin) {
            return true;
        }
        i = i + 1;
    }
    false
}

/// The ids that a list holds, or those that it does not hold, in their order.
pub open spec fn held_of(asins: Seq<Seq<char>>, listed: Seq<Seq<char>>, yes: bool) -> Seq<Seq<char>> {
    asins.filter(|asin: Seq<char>| listed.contains(asin) == yes)
}

/// Parts ids by whether a list holds them: what it holds is not added again.
pub fn part_by_presence(asins: &Vec<String>, items: &Vec<CollectionItem>) -> (parted: Parted)
    ensures
        texts(parted.present@) == held_of(texts(asins@), item_asins(items@), true),
        texts(parted.missing@) == held_of(texts(asins@), item_asins(items@), false),
{
    let mut present: Vec<String> = Vec::new();
    let mut missing: Vec<String> = Vec::new();
    let ghost all = texts(asins@);
    let ghost listed = item_asins(items@);
    let ghost is_in = |asin: Seq<char>| listed.contains(asin) == true;
    let ghost is_out = |asin: Seq<char>| listed.contains(asin) == false;
    let mut i: usize = 0;
    proof {
        reveal(Seq::filter);
        assert(all.subrange(0, 0) =~= Seq::<Seq<char>>::empty());
        assert(texts(present@) =~= all.subrange(0, 0).filter(is_in));
        assert(texts(missing@) =~= all.subrange(0, 0).filter(is_out));
    }
    while i < asins.len()
        invariant
            i <= asins@.len(),
            all == texts(asins@),
            listed == item_asins(items@),
            is_in == (|asin: Seq<char>| listed.contains(asin) == true),
            is_out == (|asin: Seq<char>| listed.contains(asin) == false),
            texts(present@) == all.subrange(0, i as int).filter(is_in),
            texts(missing@) == all.subrange(0, i as int).filter(is_out),
        decreases asins.len() - i,
    {
        proof {
            let next = all.subrange(0, i + 1);
            assert(next.drop_last() =~= all.subrange(0, i as int));
            assert(next.last() == asins@[i as int]@);
            reveal(Seq::filter);
        }
        if asin_listed(items, asins[i].as_str()) {
            push_text(&mut present, asins[i].clone());
        } else {
            push_text(&mut missing, asins[i].clone());
        }
        i = i + 1;
    }
    assert(all.subrange(0, i as int) =~= all);
    Parted { present, missing }
}

/// What is said of an id that a list holds already.
pub fn present_note(asin: &str, phrase: &str) -> (text: String)
    ensures
        text@ == asin@ + " is already in "@ + phrase@ + "; skipping"@,
{
    cat4(asin, " is already in ", phrase, "; skipping")
}

/// What is said of an id that a list does not hold.
pub fn absent_note(asin: &str, phrase: &str) -> (text: String)
    ensures
        text@ == asin@ + " is not in "@ + phrase@ + "; skipping"@,
{
    cat4(asin, " is not in ", phrase, "; skipping")
}

/// What is said once titles were added, by the reply of the server.
pub fn added_note(reply: &Json, asked: usize, phrase: &str) -> (text: String)
    ensures
        text@ == "added "@ + (match whole_field(reply@, "num_items_added"@) {
            Some(count) => decimal(count),
            None => "?"@,
        }) + " of "@ + decimal(asked as int) + " title(s) to "@ + phrase@,
{
    let added = match reply.get_u64("num_items_added") {
        Some(count) => number(count),
        None => String::from_str("?"),
    };
    let head = cat5(
        "added ",
        added.as_str(),
        " of ",
        number(asked as u64).as_str(),
        " title(s) to ",
    );
    cat2(head.as_str(), phrase)
}

/// What a stored document says of whether its item is archived.
pub open spec fn archived_of(doc: Option<JsonView>) -> Option<bool> {
    match doc {
        Some(json) => flag_field(json, "is_archived"@),
        None => None,
    }
}

/// Reads out of a stored document whether its item is archived.
pub fn archived_in_doc(doc: &str) -> (flag: Option<bool>)
    ensures
        flag == archived_of(document(vstd::utf8::encode_utf8(doc@))),
{
    let bytes = doc.as_bytes_vec();
    match Json::parse(bytes.as_slice()) {
        Some(json) => json.get_bool("is_archived"),
        None => None,
    }
}

/// Whether a stored document shows what was asked of the archive.
pub open spec fn is_reflected(archived: Option<Option<bool>>, expect_archived: bool) -> bool {
    match archived {
        None => true,
        Some(flag) => flag == Some(expect_archived),
    }
}

/// Whether a change of the archive shows in the stored document of an item: an
/// item that has none cannot be checked and counts as done.
pub fn archive_reflected(archived: Option<Option<bool>>, expect_archived: bool) -> (yes: bool)
    ensures
        yes == is_reflected(archived, expect_archived),
{
    match archived {
        None => true,
        Some(flag) => match flag {
            Some(is) => is == expect_archived,
            None => false,
        },
    }
}

/// What keeps titles from being removed from a list; `T` holds the texts that
/// are named.
#[derive(Debug)]
pub enum CollectionError<T> {
    /// There is nothing to look for.
    EmptyTitle(T),
    /// No title matches.
    NoTitle {
        /// The list.
        phrase: T,
        /// What was looked for.
        query: T,
        /// Whether it holds what looks like a wildcard.
        wildcard: bool,
    },
    /// Several titles match.
    Ambiguous {
        /// What was looked for.
        query: T,
        /// How many.
        count: usize,
        /// The list.
        phrase: T,
        /// The titles, one a line.
        listing: T,
    },
    /// The server sent no token.
    NoStateToken,
}

impl View for CollectionError<String> {
    type V = CollectionError<Seq<char>>;

    open spec fn view(&self) -> CollectionError<Seq<char>> {
        match *self {
            CollectionError::EmptyTitle(query) => CollectionError::EmptyTitle(query@),
            CollectionError::NoTitle { phrase, query, wildcard } => CollectionError::NoTitle {
                phrase: phrase@,
                query: query@,
                wildcard,
            },
            CollectionError::Ambiguous { query, count, phrase, listing } => CollectionError::Ambiguous {
                query: query@,
                count,
                phrase: phrase@,
                listing: listing@,
            },
            CollectionError::NoStateToken => CollectionError::NoStateToken,
        }
    }
}

impl CollectionError<String> {
    /// The words that tell the user of the fault.
    pub fn message(&self) -> (text: String)
        ensures
            text@ == match self@ {
                CollectionError::EmptyTitle(query) => "empty title query "@ + quoted_form(query),
                CollectionError::NoTitle { phrase, query, wildcard } => "no title in "@ + phrase
                    + " matches "@ + quoted_form(query) + (if wildcard {
                    " (matching is plain substring, not a wildcard — drop the * / ?)"@
                } else {
                    ""@
                }),
                CollectionError::Ambiguous { query, count, phrase, listing } => quoted_form(query)
                    + " matches "@ + decimal(count as int) + " titles in "@ + phrase
                    + " — narrow the query or use --asin:\n"@ + listing,
                CollectionError::NoStateToken => "the collection response carries no state_token"@,
            },
    {
        match self {
            CollectionError::EmptyTitle(query) => cat2(
                "empty title query ",
                quoted(query.as_str()).as_str(),
            ),
            CollectionError::NoTitle { phrase, query, wildcard } => cat5(
                "no title in ",
                phrase.as_str(),
                " matches ",
                quoted(query.as_str()).as_str(),
                if *wildcard {
                    " (matching is plain substring, not a wildcard — drop the * / ?)"
                } else {
                    ""
                },
            ),
            CollectionError::Ambiguous { query, count, phrase, listing } => {
                let mut text = cat5(
                    quoted(query.as_str()).as_str(),
                    " matches ",
                    number(*count as u64).as_str(),
                    " titles in ",
                    phrase.as_str(),
                );
                text.append(" — narrow the query or use --asin:\n");
                text.append(listing.as_str());
                text
            },
            CollectionError::NoStateToken => String::from_str(
                "the collection response carries no state_token",
            ),
        }
    }
}

/// Reads the token that every change of a list needs.
pub fn state_token(body: &Json) -> (token: Result<String, CollectionError<String>>)
    ensures
        match token {
            Ok(text) => text_field(body@, "state_token"@) == Some(text@),
            Err(e) => text_field(body@, "state_token"@) is None && e@ == CollectionError::<
                Seq<char>,
            >::NoStateToken,
        },
{
    match body.get_str("state_token") {
        Some(text) => Ok(String::from_str(text)),
        None => Err(CollectionError::NoStateToken),
    }
}

/// A title query without the wildcards at its end.
pub open spec fn without_wildcards(s: Seq<char>) -> Seq<char>
    decreases s.len(),
{
    if s.len() > 0 && (s.last() == '*' || s.last() == '?') {
        without_wildcards(s.drop_last())
    } else {
        s
    }
}

fn strip_wildcards(query: &str) -> (stripped: String)
    ensures
        stripped@ == without_wildcards(query@),
{
    let chars = chars_of(query);
    let mut end: usize = chars.len();
    assert(chars@.subrange(0, end as int) =~= chars@);
    while end > 0 && (chars[end - 1] == '*' || chars[end - 1] == '?')
        invariant
            end <= chars@.len(),
            without_wildcards(chars@) == without_wildcards(chars@.subrange(0, end as int)),
        decreases end,
    {
        assert(chars@.subrange(0, end as int).drop_last() =~= chars@.subrange(0, end - 1));
        end = end - 1;
    }
    slice_text(&chars, 0, end)
}

/// The items of a list that a title query means: those whose full title holds
/// it, whatever the case of letters.
pub open spec fn title_matches(
    listed: Seq<Seq<char>>,
    details: Map<Seq<char>, DetailsView>,
    query: Seq<char>,
) -> Set<Seq<char>> {
    Set::new(
        |asin: Seq<char>|
            listed.contains(asin) && details.contains_key(asin) && holds(
                unicode_lower(full_title_of(details[asin])),
                unicode_lower(without_wildcards(query)),
            ),
    )
}

/// Items by id and title, one a line.
pub open spec fn title_lines(asins: Seq<Seq<char>>, details: Map<Seq<char>, DetailsView>) -> Seq<char> {
    joined(
        asins.map_values(
            |asin: Seq<char>| "  "@ + asin + "  "@ + full_title_of(details[asin]),
        ),
        "\n"@,
    )
}

/// The one item of a list that a title query means.
pub open spec fn title_target(
    listed: Seq<Seq<char>>,
    details: Map<Seq<char>, DetailsView>,
    query: Seq<char>,
    phrase: Seq<char>,
) -> Result<Seq<char>, CollectionError<Seq<char>>> {
    let needle = unicode_lower(without_wildcards(query));
    let found = in_order(title_matches(listed, details, query));
    if without_wildcards(query).len() == 0 {
        Err(CollectionError::EmptyTitle(query))
    } else if found.len() == 0 {
        Err(
            CollectionError::NoTitle {
                phrase,
                query,
                wildcard: needle.contains('*') || needle.contains('?'),
            },
        )
    } else if found.len() == 1 {
        Ok(found[0])
    } else {
        Err(
            CollectionError::Ambiguous {
                query,
                count: found.len() as usize,
                phrase,
                listing: title_lines(found, details),
            },
        )
    }
}

fn found_titles(
    items: &Vec<CollectionItem>,
    details: &ByAsin<CatalogDetails>,
    needle: &str,
    Ghost(query): Ghost<Seq<char>>,
) -> (found: Vec<String>)
    requires
        needle@ == unicode_lower(without_wildcards(query)),
    ensures
        texts(found@) == in_order(title_matches(item_asins(items@), details@, query)),
        forall|i: int|
            0 <= i < found@.len() ==> details@.contains_key((#[trigger] found@[i])@),
{
    let mut set = TextSet::new();
    let ghost listed = item_asins(items@);
    let ghost want = title_matches(listed, details@, query);
    let mut i: usize = 0;
    while i < items.len()
        invariant
            i <= items@.len(),
            listed == item_asins(items@),
            want == title_matches(listed, details@, query),
            needle@ == unicode_lower(without_wildcards(query)),
            forall|asin: Seq<char>|
                #[trigger] set@.contains(asin) <==> want.contains(asin) && listed.subrange(
                    0,
                    i as int,
                ).contains(asin),
        decreases items.len() - i,
    {
        let asin = items[i].asin.as_str();
        assert(listed[i as int] == asin@);
        let ghost known = set@;
        let ghost matched = want.contains(asin@);
        if let Some(d) = details.get(asin) {
            let title = to_lower(d.full_title().as_str());
            if contains(title.as_str(), needle) {
                assert(listed.contains(asin@));
                assert(matched);
                set.insert(String::from_str(asin));
            }
        }
        proof {
            assert(set@ == if matched { known.insert(asin@) } else { known });
            let front = listed.subrange(0, i as int);
            let next = listed.subrange(0, i + 1);
            assert forall|a: Seq<char>| next.contains(a) <==> front.contains(a) || a == asin@ by {
                if front.contains(a) {
                    let k = choose|k: int| 0 <= k < front.len() && front[k] == a;
                    assert(next[k] == a);
                }
                if next.contains(a) {
                    let k = choose|k: int| 0 <= k < next.len() && next[k] == a;
                    if k < i {
                        assert(front[k] == a);
                    }
                }
                assert(next[i as int] == asin@);
            }
        }
        i = i + 1;
    }
    let found = set.list();
    proof {
        assert(listed.subrange(0, i as int) =~= listed);
        assert forall|asin: Seq<char>| want.contains(asin) <==> texts(found@).contains(asin) by {
            assert(set@.contains(asin) <==> texts(found@).contains(asin));
        }
        assert(lists_set(texts(found@), want));
        lemma_in_order(texts(found@), want);
        assert forall|k: int| 0 <= k < found@.len() implies details@.contains_key(
            (#[trigger] found@[k])@,
        ) by {
            assert(texts(found@)[k] == found@[k]@);
            assert(texts(found@).contains(found@[k]@));
            assert(want.contains(found@[k]@));
        }
    }
    found
}

fn show_titles(found: &Vec<String>, details: &ByAsin<CatalogDetails>) -> (listing: String)
    requires
        forall|i: int| 0 <= i < found@.len() ==> details@.contains_key((#[trigger] found@[i])@),
    ensures
        listing@ == title_lines(texts(found@), details@),
{
    let mut lines: Vec<String> = Vec::new();
    let ghost want = texts(found@).map_values(
        |asin: Seq<char>| "  "@ + asin + "  "@ + full_title_of(details@[asin]),
    );
    let mut i: usize = 0;
    while i < found.len()
        invariant
            i <= found@.len(),
            forall|k: int|
                0 <= k < found@.len() ==> details@.contains_key((#[trigger] found@[k])@),
            want == texts(found@).map_values(
                |asin: Seq<char>| "  "@ + asin + "  "@ + full_title_of(details@[asin]),
            ),
            texts(lines@).len() == i,
            forall|k: int| 0 <= k < i ==> #[trigger] texts(lines@)[k] == want[k],
        decreases found.len() - i,
    {
        assert(details@.contains_key(found@[i as int]@));
        if let Some(d) = details.get(found[i].as_str()) {
            push_text(
                &mut lines,
                cat4("  ", found[i].as_str(), "  ", d.full_title().as_str()),
            );
        }
        i = i + 1;
    }
    assert(texts(lines@) =~= want);
    join(&lines, "\n")
}

/// Finds the one item of a list that a title query means; none, or more than
/// one, is an error.
pub fn resolve_title(
    items: &Vec<CollectionItem>,
    details: &ByAsin<CatalogDetails>,
    query: &str,
    phrase: &str,
) -> (target: Result<String, CollectionError<String>>)
    ensures
        ({
            let want = title_target(item_asins(items@), details@, query@, phrase@);
            match target {
                Ok(asin) => want == Ok::<Seq<char>, CollectionError<Seq<char>>>(asin@),
                Err(e) => want == Err::<Seq<char>, CollectionError<Seq<char>>>(e@),
            }
        }),
{
    let stripped = strip_wildcards(query);
    if stripped.as_str().is_empty() {
        return Err(CollectionError::EmptyTitle(String::from_str(query)));
    }
    let needle = to_lower(stripped.as_str());
    let found = found_titles(items, details, needle.as_str(), Ghost(query@));
    assert(found@.len() == texts(found@).len());
    if found.len() == 0 {
        let wildcard = contains_char(needle.as_str(), '*') || contains_char(needle.as_str(), '?');
        return Err(
            CollectionError::NoTitle {
                phrase: String::from_str(phrase),
                query: String::from_str(query),
                wildcard,
            },
        );
    }
    if found.len() == 1 {
        assert(texts(found@)[0] == found@[0]@);
        return Ok(found[0].clone());
    }
    Err(
        CollectionError::Ambiguous {
            query: String::from_str(query),
            count: found.len(),
            phrase: String::from_str(phrase),
            listing: show_titles(&found, details),
        },
    )
}

/// The ids behind those found so far that the title queries mean; the first
/// that cannot be resolved is the error of all.
pub open spec fn title_targets(
    found: Seq<Seq<char>>,
    listed: Seq<Seq<char>>,
    details: Map<Seq<char>, DetailsView>,
    titles: Seq<Seq<char>>,
    phrase: Seq<char>,
) -> Result<Seq<Seq<char>>, CollectionError<Seq<char>>>
    decreases titles.len(),
{
    if titles.len() == 0 {
        Ok(found)
    } else {
        match title_target(listed, details, titles[0], phrase) {
            Ok(asin) => title_targets(
                found.push(asin),
                listed,
                details,
                titles.drop_first(),
                phrase,
            ),
            Err(e) => Err(e),
        }
    }
}

/// The ids to remove from a list: those given that it holds, then those that
/// the title queries mean, each once.
pub open spec fn removal_targets(
    listed: Seq<Seq<char>>,
    details: Map<Seq<char>, DetailsView>,
    asins: Seq<Seq<char>>,
    titles: Seq<Seq<char>>,
    phrase: Seq<char>,
) -> Result<Seq<Seq<char>>, CollectionError<Seq<char>>> {
    match title_targets(held_of(asins, listed, true), listed, details, titles, phrase) {
        Ok(found) => Ok(unique(found)),
        Err(e) => Err(e),
    }
}

/// Finds the ids to remove from a list. Ids that it does not hold are passed
/// over; each title query has to mean one item; nothing is removed twice.
pub fn resolve_removals(
    items: &Vec<CollectionItem>,
    details: &ByAsin<CatalogDetails>,
    asins: &Vec<String>,
    titles: &Vec<String>,
    phrase: &str,
) -> (targets: Result<Vec<String>, CollectionError<String>>)
    ensures
        ({
            let want = removal_targets(
                item_asins(items@),
                details@,
                texts(asins@),
                texts(titles@),
                phrase@,
            );
            match targets {
                Ok(list) => want == Ok::<Seq<Seq<char>>, CollectionError<Seq<char>>>(texts(list@)),
                Err(e) => want == Err::<Seq<Seq<char>>, CollectionError<Seq<char>>>(e@),
            }
        }),
{
    let ghost listed = item_asins(items@);
    let ghost all = texts(titles@);
    let parted = part_by_presence(asins, items);
    let mut found = parted.present;
    let ghost start = texts(found@);
    let mut i: usize = 0;
    assert(all.subrange(0, all.len() as int) =~= all);
    while i < titles.len()
        invariant
            i <= titles@.len(),
            all == texts(titles@),
            listed == item_asins(items@),
            start == held_of(texts(asins@), listed, true),
            title_targets(start, listed, details@, all, phrase@) == title_targets(
                texts(found@),
                listed,
                details@,
                all.subrange(i as int, all.len() as int),
                phrase@,
            ),
        decreases titles.len() - i,
    {
        let ghost rest = all.subrange(i as int, all.len() as int);
        assert(rest[0] == titles@[i as int]@);
        assert(rest.drop_first() =~= all.subrange(i + 1, all.len() as int));
        match resolve_title(items, details, titles[i].as_str(), phrase) {
            Ok(asin) => push_text(&mut found, asin),
            Err(e) => {
                return Err(e);
            },
        }
        i = i + 1;
    }
    Ok(unique_texts(&found))
}

proof fn lemma_target_listed(
    listed: Seq<Seq<char>>,
    details: Map<Seq<char>, DetailsView>,
    query: Seq<char>,
    phrase: Seq<char>,
)
    requires
        title_target(listed, details, query, phrase) is Ok,
    ensures
        listed.contains(title_target(listed, details, query, phrase)->Ok_0),
{
    let set = title_matches(listed, details, query);
    let list = lemma_sorted_list(listed, |asin: Seq<char>| set.contains(asin));
    assert(lists_set(list, set));
    lemma_in_order(list, set);
    assert(list.contains(list[0]));
    assert(set.contains(list[0]));
}

proof fn lemma_targets_listed(
    found: Seq<Seq<char>>,
    listed: Seq<Seq<char>>,
    details: Map<Seq<char>, DetailsView>,
    titles: Seq<Seq<char>>,
    phrase: Seq<char>,
)
    requires
        forall|asin: Seq<char>| found.contains(asin) ==> listed.contains(asin),
    ensures
        title_targets(found, listed, details, titles, phrase) matches Ok(list) ==> forall|
            asin: Seq<char>,
        |
            list.contains(asin) ==> listed.contains(asin),
    decreases titles.len(),
{
    if titles.len() > 0 {
        if let Ok(target) = title_target(listed, details, titles[0], phrase) {
            lemma_target_listed(listed, details, titles[0], phrase);
            let more = found.push(target);
            assert forall|asin: Seq<char>| more.contains(asin) implies listed.contains(asin) by {
                let i = choose|i: int| 0 <= i < more.len() && more[i] == asin;
                if i < found.len() {
                    assert(found[i] == asin);
                }
            }
            lemma_targets_listed(more, listed, details, titles.drop_first(), phrase);
        }
    }
}

/// Nothing is removed from a list that it does not hold, whether it was given
/// or a title query means it.
pub proof fn law_removals_are_listed(
    listed: Seq<Seq<char>>,
    details: Map<Seq<char>, DetailsView>,
    asins: Seq<Seq<char>>,
    titles: Seq<Seq<char>>,
    phrase: Seq<char>,
    asin: Seq<char>,
)
    requires
        removal_targets(listed, details, asins, titles, phrase) is Ok,
        removal_targets(listed, details, asins, titles, phrase)->Ok_0.contains(asin),
    ensures
        listed.contains(asin),
{
    let start = held_of(asins, listed, true);
    assert forall|a: Seq<char>| start.contains(a) implies listed.contains(a) by {
        crate::lists::lemma_filtered(asins, |x: Seq<char>| listed.contains(x) == true, a);
    }
    lemma_targets_listed(start, listed, details, titles, phrase);
    let found = title_targets(start, listed, details, titles, phrase)->Ok_0;
    lemma_unique(found);
}

/// Nothing is removed from a list twice.
pub proof fn law_removals_without_repeats(
    listed: Seq<Seq<char>>,
    details: Map<Seq<char>, DetailsView>,
    asins: Seq<Seq<char>>,
    titles: Seq<Seq<char>>,
    phrase: Seq<char>,
)
    ensures
        removal_targets(listed, details, asins, titles, phrase) matches Ok(list)
            ==> list.no_duplicates(),
{
    if let Ok(found) = title_targets(
        held_of(asins, listed, true),
        listed,
        details,
        titles,
        phrase,
    ) {
        lemma_unique(found);
    }
}

/// An id that is given is removed only where the list holds it, and always
/// where it does.
pub proof fn law_given_removals_are_listed(
    listed: Seq<Seq<char>>,
    details: Map<Seq<char>, DetailsView>,
    asins: Seq<Seq<char>>,
    asin: Seq<char>,
    phrase: Seq<char>,
)
    ensures
        removal_targets(listed, details, asins, Seq::empty(), phrase) is Ok,
        removal_targets(listed, details, asins, Seq::empty(), phrase)->Ok_0.contains(asin)
            <==> asins.contains(asin) && listed.contains(asin),
{
    let keep = |a: Seq<char>| listed.contains(a) == true;
    crate::lists::lemma_filtered(asins, keep, asin);
    lemma_unique(held_of(asins, listed, true));
}

/// Every item of a page that has an id is taken, with the time of its addition,
/// and nothing else is; an empty token leads to no further page.
pub proof fn law_pages_give_every_item(list: Seq<JsonView>, item: JsonView, body: JsonView)
    ensures
        page_items(list.push(item)) == match text_field(item, "asin"@) {
            Some(asin) => page_items(list).push((asin, text_field(item, "addition_date"@))),
            None => page_items(list),
        },
        page_items(Seq::empty()).len() == 0,
        next_token(body) matches Some(token) ==> token.len() > 0 && text_field(
            body,
            "continuation_token"@,
        ) == Some(token),
        next_token(body) is None ==> text_field(body, "continuation_token"@) is None || text_field(
            body,
            "continuation_token"@,
        )->Some_0.len() == 0,
{
    assert(list.push(item).drop_last() =~= list);
}

proof fn lemma_ascii_start(s: Seq<char>, n: int)
    requires
        0 <= n <= s.len(),
        forall|i: int| 0 <= i < n ==> (#[trigger] s[i] as u32) < 0x80,
    ensures
        start_of_bytes(s, n) == Some(s.subrange(0, n)),
    decreases n,
{
    if n == 0 {
        assert(s.subrange(0, 0) =~= Seq::<char>::empty());
    } else {
        let rest = s.drop_first();
        assert(width(s[0]) == 1);
        assert forall|i: int| 0 <= i < n - 1 implies (#[trigger] rest[i] as u32) < 0x80 by {
            assert(rest[i] == s[i + 1]);
        }
        lemma_ascii_start(rest, n - 1);
        assert(seq![s[0]] + rest.subrange(0, n - 1) =~= s.subrange(0, n));
    }
}

/// The day of a time is its first ten characters; a shorter text of ASCII
/// characters is shown as it is.
pub proof fn law_days_are_the_first_ten_characters(timestamp: Seq<char>)
    requires
        forall|i: int| 0 <= i < timestamp.len() ==> (#[trigger] timestamp[i] as u32) < 0x80,
    ensures
        timestamp.len() >= 10 ==> day_of(timestamp) == timestamp.subrange(0, 10),
        timestamp.len() < 10 ==> day_of(timestamp) == timestamp,
{
    if timestamp.len() >= 10 {
        lemma_ascii_start(timestamp, 10);
    } else {
        lemma_too_short(timestamp, 10);
    }
}

proof fn lemma_too_short(s: Seq<char>, n: int)
    requires
        s.len() < n,
        forall|i: int| 0 <= i < s.len() ==> (#[trigger] s[i] as u32) < 0x80,
    ensures
        start_of_bytes(s, n) is None,
    decreases s.len(),
{
    if s.len() > 0 {
        let rest = s.drop_first();
        assert(width(s[0]) == 1);
        assert forall|i: int| 0 <= i < rest.len() implies (#[trigger] rest[i] as u32) < 0x80 by {
            assert(rest[i] == s[i + 1]);
        }
        lemma_too_short(rest, n - 1);
    }
}

proof fn lemma_parted_lengths(asins: Seq<Seq<char>>, listed: Seq<Seq<char>>)
    ensures
        held_of(asins, listed, true).len() + held_of(asins, listed, false).len() == asins.len(),
    decreases asins.len(),
{
    reveal(Seq::filter);
    if asins.len() > 0 {
        lemma_parted_lengths(asins.drop_last(), listed);
    }
}

/// Every id is on exactly one side: with those that the list holds where it does,
/// and with the others where it does not.
pub proof fn law_ids_are_parted_by_the_list(
    asins: Seq<Seq<char>>,
    listed: Seq<Seq<char>>,
    asin: Seq<char>,
)
    ensures
        held_of(asins, listed, true).contains(asin) <==> asins.contains(asin) && listed.contains(
            asin,
        ),
        held_of(asins, listed, false).contains(asin) <==> asins.contains(asin) && !listed.contains(
            asin,
        ),
        held_of(asins, listed, true).len() + held_of(asins, listed, false).len() == asins.len(),
{
    crate::lists::lemma_filtered(asins, |x: Seq<char>| listed.contains(x) == true, asin);
    crate::lists::lemma_filtered(asins, |x: Seq<char>| listed.contains(x) == false, asin);
    lemma_parted_lengths(asins, listed);
}

/// Only wildcards are taken off a title query, only at its end, and all of those.
pub proof fn law_wildcards_are_taken_off(query: Seq<char>)
    ensures
        ({
            let bare = without_wildcards(query);
            &&& bare.len() <= query.len()
            &&& query.subrange(0, bare.len() as int) == bare
            &&& bare.len() > 0 ==> bare.last() != '*' && bare.last() != '?'
            &&& forall|i: int|
                bare.len() <= i < query.len() ==> (#[trigger] query[i]) == '*' || query[i] == '?'
        }),
    decreases query.len(),
{
    if query.len() > 0 && (query.last() == '*' || query.last() == '?') {
        let front = query.drop_last();
        law_wildcards_are_taken_off(front);
        let bare = without_wildcards(query);
        assert(query.subrange(0, bare.len() as int) =~= front.subrange(0, bare.len() as int));
        assert forall|i: int| bare.len() <= i < query.len() implies (#[trigger] query[i]) == '*'
            || query[i] == '?' by {
            if i < front.len() {
                assert(front[i] == query[i]);
            }
        }
    } else {
        assert(query.subrange(0, query.len() as int) =~= query);
    }
}

/// Whether a title query means an item of a list: its full title holds the query,
/// whatever the case of letters.
pub open spec fn title_means(
    listed: Seq<Seq<char>>,
    details: Map<Seq<char>, DetailsView>,
    query: Seq<char>,
    asin: Seq<char>,
) -> bool {
    listed.contains(asin) && details.contains_key(asin) && holds(
        unicode_lower(full_title_of(details[asin])),
        unicode_lower(without_wildcards(query)),
    )
}

/// A title query comes to the one item of the list that it means, wherever there is
/// just one; none and several are told apart, and an empty query means nothing.
pub proof fn law_titles_mean_one_item(
    listed: Seq<Seq<char>>,
    details: Map<Seq<char>, DetailsView>,
    query: Seq<char>,
    phrase: Seq<char>,
    asin: Seq<char>,
)
    ensures
        title_target(listed, details, query, phrase) == Ok::<Seq<char>, CollectionError<Seq<char>>>(
            asin,
        ) <==> without_wildcards(query).len() > 0 && title_means(listed, details, query, asin)
            && forall|other: Seq<char>| #[trigger]
            title_means(listed, details, query, other) ==> other == asin,
        without_wildcards(query).len() == 0 <==> title_target(listed, details, query, phrase)
            == Err::<Seq<char>, CollectionError<Seq<char>>>(CollectionError::EmptyTitle(query)),
        (title_target(listed, details, query, phrase) matches Err(
            CollectionError::NoTitle { .. },
        )) <==> without_wildcards(query).len() > 0 && forall|other: Seq<char>|
            !(#[trigger] title_means(listed, details, query, other)),
{
    let set = title_matches(listed, details, query);
    let list = lemma_sorted_list(listed, |a: Seq<char>| set.contains(a));
    assert(lists_set(list, set));
    lemma_in_order(list, set);
    assert forall|a: Seq<char>| #[trigger] title_means(listed, details, query, a) <==> list.contains(
        a,
    ) by {
        assert(set.contains(a) <==> list.contains(a));
    }
    if list.len() > 0 {
        assert(list.contains(list[0]));
        assert(title_means(listed, details, query, list[0]));
    }
    if list.len() > 1 {
        assert(list.contains(list[1]));
        assert(title_means(listed, details, query, list[1]));
        crate::text::lemma_before_irreflexive(list[0]);
        assert(crate::text::before(list[0], list[1]));
    }
    if list.len() == 1 && list.contains(asin) {
        assert(list[0] == asin);
    }
    if list.len() == 0 {
        assert forall|other: Seq<char>| !(#[trigger] title_means(listed, details, query, other)) by {
            assert(!list.contains(other));
        }
    }
}

proof fn lemma_targets_hold(
    found: Seq<Seq<char>>,
    listed: Seq<Seq<char>>,
    details: Map<Seq<char>, DetailsView>,
    titles: Seq<Seq<char>>,
    phrase: Seq<char>,
)
    requires
        title_targets(found, listed, details, titles, phrase) is Ok,
    ensures
        ({
            let all = title_targets(found, listed, details, titles, phrase)->Ok_0;
            &&& all.len() == found.len() + titles.len()
            &&& forall|i: int| 0 <= i < found.len() ==> (#[trigger] all[i]) == found[i]
            &&& forall|t: int|
                0 <= t < titles.len() ==> title_target(listed, details, #[trigger] titles[t], phrase)
                    == Ok::<Seq<char>, CollectionError<Seq<char>>>(all[found.len() + t])
        }),
    decreases titles.len(),
{
    if titles.len() > 0 {
        let target = title_target(listed, details, titles[0], phrase)->Ok_0;
        let more = found.push(target);
        let rest = titles.drop_first();
        lemma_targets_hold(more, listed, details, rest, phrase);
        let all = title_targets(found, listed, details, titles, phrase)->Ok_0;
        assert forall|i: int| 0 <= i < found.len() implies (#[trigger] all[i]) == found[i] by {
            assert(all[i] == more[i]);
        }
        assert(all[found.len() as int] == more[found.len() as int]);
        assert forall|t: int| 0 <= t < titles.len() implies title_target(
            listed,
            details,
            #[trigger] titles[t],
            phrase,
        ) == Ok::<Seq<char>, CollectionError<Seq<char>>>(all[found.len() + t]) by {
            if t > 0 {
                assert(rest[t - 1] == titles[t]);
            }
        }
    }
}

/// Whatever is asked to be removed, is: every given id that the list holds, and
/// the item that each title query means; and nothing else is.
pub proof fn law_removals_are_all_that_was_asked_for(
    listed: Seq<Seq<char>>,
    details: Map<Seq<char>, DetailsView>,
    asins: Seq<Seq<char>>,
    titles: Seq<Seq<char>>,
    phrase: Seq<char>,
    asin: Seq<char>,
)
    requires
        removal_targets(listed, details, asins, titles, phrase) is Ok,
    ensures
        removal_targets(listed, details, asins, titles, phrase)->Ok_0.contains(asin) <==> (
        asins.contains(asin) && listed.contains(asin)) || exists|t: int|
            0 <= t < titles.len() && title_target(listed, details, #[trigger] titles[t], phrase)
                == Ok::<Seq<char>, CollectionError<Seq<char>>>(asin),
        forall|t: int|
            0 <= t < titles.len() ==> title_target(listed, details, #[trigger] titles[t], phrase)
                is Ok,
{
    let start = held_of(asins, listed, true);
    law_ids_are_parted_by_the_list(asins, listed, asin);
    lemma_targets_hold(start, listed, details, titles, phrase);
    let found = title_targets(start, listed, details, titles, phrase)->Ok_0;
    lemma_unique(found);
    if found.contains(asin) {
        let i = choose|i: int| 0 <= i < found.len() && found[i] == asin;
        if i < start.len() {
            assert(start[i] == asin);
        } else {
            let t = i - start.len();
            assert(title_target(listed, details, titles[t], phrase) == Ok::<
                Seq<char>,
                CollectionError<Seq<char>>,
            >(found[start.len() + t]));
        }
    }
    if start.contains(asin) {
        let i = choose|i: int| 0 <= i < start.len() && start[i] == asin;
        assert(found[i] == asin);
    }
    if exists|t: int|
        0 <= t < titles.len() && title_target(listed, details, #[trigger] titles[t], phrase)
            == Ok::<Seq<char>, CollectionError<Seq<char>>>(asin) {
        let t = choose|t: int|
            0 <= t < titles.len() && title_target(listed, details, #[trigger] titles[t], phrase)
                == Ok::<Seq<char>, CollectionError<Seq<char>>>(asin);
        assert(found[start.len() + t] == asin);
    }
}

/// The row of an item shows, each in its column, its marketplace, its id, the day
/// of its addition and what the catalog knows of it; that of a list its id,
/// its name, its type, its section and how many items it has. A dash stands for
/// what is not known.
pub proof fn law_list_rows_show_each_property(
    marketplace: Seq<char>,
    item: (Seq<char>, Option<Seq<char>>),
    known: DetailsView,
    list: JsonView,
)
    ensures
        item_cells(marketplace, item, Some(known)).len() == 7,
        item_cells(marketplace, item, Some(known))[0] == marketplace,
        item_cells(marketplace, item, Some(known))[1] == item.0,
        item.1 matches Some(added) ==> item_cells(marketplace, item, Some(known))[2] == day_of(
            added,
        ),
        item.1 is None ==> item_cells(marketplace, item, Some(known))[2] == "-"@,
        item_cells(marketplace, item, Some(known))[3] == full_title_of(known),
        known.publication matches Some(day) ==> item_cells(marketplace, item, Some(known))[4]
            == day,
        item_cells(marketplace, item, Some(known))[5] == known.authors,
        known.runtime_min matches Some(minutes) ==> item_cells(marketplace, item, Some(known))[6]
            == runtime_text(minutes as int),
        item_cells(marketplace, item, None)[1] == item.0,
        item_cells(marketplace, item, None)[4] == "-"@,
        text_field(list, "list_id"@) matches Some(text) ==> list_cells(list)[0] == text,
        text_field(list, "name"@) matches Some(text) ==> list_cells(list)[1] == text,
        text_field(list, "list_type"@) matches Some(text) ==> list_cells(list)[2] == text,
        text_field(list, "list_section"@) matches Some(text) ==> list_cells(list)[3] == text,
        text_field(list, "list_section"@) is None ==> list_cells(list)[3] == "-"@,
        whole_field(list, "item_count"@) matches Some(count) ==> list_cells(list)[4] == decimal(
            count,
        ),
{
}

/// A change of the archive is reflected where the stored item shows it, or where the
/// item is not stored.
pub proof fn law_archived_items_are_shown_as_such(flag: Option<bool>, expect_archived: bool)
    ensures
        is_reflected(Some(flag), expect_archived) <==> flag == Some(expect_archived),
        is_reflected(None, expect_archived),
{
}

/// Each list has its own id on the server, which is its name in capitals behind two
/// underscores; what is wished for is looked up in the catalog, and what is archived in
/// the library. In a sentence a list is called by its name.
pub proof fn law_lists_have_ids_of_their_own(noun: Noun)
    ensures
        server_id(noun) == "__"@ + crate::text::raised(noun_word(noun)),
        noun_phrase(noun) == "the "@ + noun_word(noun),
        title_source(noun) is Catalog <==> noun is Wishlist,
        server_id(Noun::Wishlist) != server_id(Noun::Archive),
{
    reveal_strlit("wishlist");
    reveal_strlit("archive");
    reveal_strlit("__WISHLIST");
    reveal_strlit("__ARCHIVE");
    reveal_strlit("__");
    reveal_strlit("the wishlist");
    reveal_strlit("the archive");
    reveal_strlit("the ");
    assert(server_id(noun) =~= "__"@ + crate::text::raised(noun_word(noun)));
    assert(noun_phrase(noun) =~= "the "@ + noun_word(noun));
    assert("__WISHLIST"@.len() == 10);
    assert("__ARCHIVE"@.len() == 9);
}

/// The lists and the items of an answer are those that it names, all of them and in
/// order; whether an item is archived is what its document says.
pub proof fn law_answers_hold_lists_and_items(
    body: JsonView,
    list: Seq<JsonView>,
    doc: JsonView,
    details: Map<Seq<char>, DetailsView>,
    asin: Seq<char>,
)
    ensures
        field(body, "items"@) == Some(JsonView::Array(list)) ==> items_of(body) == list,
        field(body, "items"@) is None ==> items_of(body).len() == 0,
        field(body, "lists"@) == Some(JsonView::Array(list)) ==> lists_of(body) == list,
        field(body, "lists"@) is None ==> lists_of(body).len() == 0,
        archived_of(Some(doc)) == flag_field(doc, "is_archived"@),
        archived_of(None) is None,
        details.contains_key(asin) ==> known_details(details, asin) == Some(details[asin]),
        !details.contains_key(asin) ==> known_details(details, asin) is None,
{
}

} // verus!
