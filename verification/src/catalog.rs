//! The catalog: what it says of products, which of them a title search means,
//! and which an account may borrow.

use vstd::prelude::*;
use vstd::string::StringExecFns;
use crate::json::Json;
use crate::json::JsonView;
use crate::json::field;
use crate::json::flag_field;
use crate::json::list_field;
use crate::json::text_field;
use crate::json::views;
use crate::json::whole_field;
use crate::lists::add_text;
use crate::lists::push_text;
use crate::lists::unique_from;
use crate::text::cat2;
use crate::text::cat3;
use crate::text::cat4;
use crate::text::cat5;
use crate::text::contains;
use crate::text::copy_text;
use crate::text::decimal;
use crate::text::empty_text;
use crate::text::holds;
use crate::text::join;
use crate::text::joined;
use crate::text::number;
use crate::text::opt_text;
use crate::text::quoted;
use crate::text::quoted_form;
use crate::text::texts;
use crate::text::to_lower;
use crate::text::trim;
use crate::text::trimmed;
use crate::text::unicode_lower;

verus! {

/// How many products one request may ask for.
pub const CATALOG_BATCH: usize = 50;

/// How many results a title search asks for.
pub const CATALOG_SEARCH_RESULTS: u32 = 50;

/// What the catalog shows of a product.
#[derive(Debug)]
pub struct CatalogDetails {
    /// The title.
    pub title: String,
    /// The subtitle.
    pub subtitle: Option<String>,
    /// The collection that it belongs to, much like a series.
    pub publication: Option<String>,
    /// The authors, one behind the other.
    pub authors: String,
    /// How long it plays, in minutes.
    pub runtime_min: Option<u64>,
}

/// What the catalog shows of a product, in texts.
pub struct DetailsView {
    /// The title.
    pub title: Seq<char>,
    /// The subtitle.
    pub subtitle: Option<Seq<char>>,
    /// The collection that it belongs to.
    pub publication: Option<Seq<char>>,
    /// The authors.
    pub authors: Seq<char>,
    /// How long it plays, in minutes.
    pub runtime_min: Option<u64>,
}

impl View for CatalogDetails {
    type V = DetailsView;

    open spec fn view(&self) -> DetailsView {
        DetailsView {
            title: self.title@,
            subtitle: opt_text(self.subtitle),
            publication: opt_text(self.publication),
            authors: self.authors@,
            runtime_min: self.runtime_min,
        }
    }
}

/// The title, and behind it the subtitle where there is one.
pub open spec fn full_title_of(details: DetailsView) -> Seq<char> {
    match details.subtitle {
        Some(subtitle) => details.title + ": "@ + subtitle,
        None => details.title,
    }
}


impl CatalogDetails {
    /// The title, and behind it the subtitle where there is one.
    pub fn full_title(&self) -> (text: String)
        ensures
            text@ == full_title_of(self@),
    {
        match &self.subtitle {
            Some(subtitle) => cat3(self.title.as_str(), ": ", subtitle.as_str()),
            None => self.title.clone(),
        }
    }

    /// A second value with the same contents.
    pub fn copy(&self) -> (details: CatalogDetails)
        ensures
            details@ == self@,
    {
        CatalogDetails {
            title: self.title.clone(),
            subtitle: copy_text(&self.subtitle),
            publication: copy_text(&self.publication),
            authors: self.authors.clone(),
            runtime_min: self.runtime_min,
        }
    }
}

/// A text member that is not empty.
pub open spec fn filled_field(product: JsonView, name: Seq<char>) -> Option<Seq<char>> {
    match text_field(product, name) {
        Some(text) => if text.len() == 0 {
            None
        } else {
            Some(text)
        },
        None => None,
    }
}

fn filled(product: &Json, name: &str) -> (text: Option<String>)
    ensures
        opt_text(text) == filled_field(product@, name@),
{
    match product.get_str(name) {
        Some(text) => if text.is_empty() {
            None
        } else {
            Some(String::from_str(text))
        },
        None => None,
    }
}

/// The names in a list of authors; what has no name is passed over.
pub open spec fn names_of(authors: Seq<JsonView>) -> Seq<Seq<char>>
    decreases authors.len(),
{
    if authors.len() == 0 {
        Seq::empty()
    } else {
        match text_field(authors.last(), "name"@) {
            Some(name) => names_of(authors.drop_last()).push(name),
            None => names_of(authors.drop_last()),
        }
    }
}

/// The authors of a product, one behind the other.
pub open spec fn authors_of(product: JsonView) -> Seq<char> {
    match list_field(product, "authors"@) {
        Some(authors) => joined(names_of(authors), ", "@),
        None => Seq::empty(),
    }
}

fn authors(product: &Json) -> (text: String)
    ensures
        text@ == authors_of(product@),
{
    let list = match product.get_array("authors") {
        Some(list) => list,
        None => {
            return empty_text();
        },
    };
    let ghost all = views(list@);
    let mut names: Vec<String> = Vec::new();
    let mut i: usize = 0;
    assert(texts(names@) =~= names_of(all.subrange(0, 0)));
    while i < list.len()
        invariant
            i <= list@.len(),
            all == views(list@),
            texts(names@) == names_of(all.subrange(0, i as int)),
        decreases list.len() - i,
    {
        assert(all.subrange(0, i + 1).drop_last() =~= all.subrange(0, i as int));
        assert(all.subrange(0, i + 1).last() == list@[i as int]@);
        if let Some(name) = list[i].get_str("name") {
            push_text(&mut names, String::from_str(name));
        }
        i = i + 1;
    }
    assert(all.subrange(0, i as int) =~= all);
    join(&names, ", ")
}

/// What the catalog shows of a product, whatever its id.
pub open spec fn details_of(product: JsonView) -> DetailsView {
    DetailsView {
        title: match filled_field(product, "title"@) {
            Some(title) => title,
            None => Seq::empty(),
        },
        subtitle: filled_field(product, "subtitle"@),
        publication: filled_field(product, "publication_name"@),
        authors: authors_of(product),
        runtime_min: match whole_field(product, "runtime_length_min"@) {
            Some(minutes) => Some(minutes as u64),
            None => None,
        },
    }
}

/// The id of a product and what the catalog shows of it; nothing where it has
/// no id.
pub open spec fn product_of(product: JsonView) -> Option<(Seq<char>, DetailsView)> {
    match text_field(product, "asin"@) {
        Some(asin) => Some((asin, details_of(product))),
        None => None,
    }
}

/// Reads the id of a product and what the catalog shows of it.
pub fn parse_product(product: &Json) -> (result: Option<(String, CatalogDetails)>)
    ensures
        match result {
            Some((asin, details)) => product_of(product@) == Some((asin@, details@)),
            None => product_of(product@) is None,
        },
{
    let asin = match product.get_str("asin") {
        Some(asin) => String::from_str(asin),
        None => {
            return None;
        },
    };
    let title = match filled(product, "title") {
        Some(title) => title,
        None => empty_text(),
    };
    let details = CatalogDetails {
        title,
        subtitle: filled(product, "subtitle"),
        publication: filled(product, "publication_name"),
        authors: authors(product),
        runtime_min: product.get_u64("runtime_length_min"),
    };
    Some((asin, details))
}

/// The products of an answer of the catalog.
pub open spec fn products_of(body: JsonView) -> Seq<JsonView> {
    match list_field(body, "products"@) {
        Some(list) => list,
        None => Seq::empty(),
    }
}

/// A result of a title search.
#[derive(Debug)]
pub struct CatalogHit {
    /// The id of the product.
    pub asin: String,
    /// What the catalog shows of it.
    pub details: CatalogDetails,
}

impl View for CatalogHit {
    type V = (Seq<char>, DetailsView);

    open spec fn view(&self) -> (Seq<char>, DetailsView) {
        (self.asin@, self.details@)
    }
}

/// What the results hold, in texts.
pub open spec fn hit_views(hits: Seq<CatalogHit>) -> Seq<(Seq<char>, DetailsView)> {
    hits.map_values(|hit: CatalogHit| hit@)
}

fn push_hit(hits: &mut Vec<CatalogHit>, hit: CatalogHit)
    ensures
        hit_views(final(hits)@) == hit_views(old(hits)@).push(hit@),
{
    let ghost known = hit_views(hits@);
    hits.push(hit);
    assert(hit_views(hits@) =~= known.push(hit@));
}

/// The products that have an id, in the order of the catalog.
pub open spec fn hits_of(products: Seq<JsonView>) -> Seq<(Seq<char>, DetailsView)>
    decreases products.len(),
{
    if products.len() == 0 {
        Seq::empty()
    } else {
        match product_of(products.last()) {
            Some(hit) => hits_of(products.drop_last()).push(hit),
            None => hits_of(products.drop_last()),
        }
    }
}

/// Reads the results of a title search, in the order of the catalog.
pub fn parse_catalog_hits(body: &Json) -> (hits: Vec<CatalogHit>)
    ensures
        hit_views(hits@) == hits_of(products_of(body@)),
{
    let mut hits: Vec<CatalogHit> = Vec::new();
    let products = match body.get_array("products") {
        Some(list) => list,
        None => {
            assert(hit_views(hits@) =~= Seq::<(Seq<char>, DetailsView)>::empty());
            return hits;
        },
    };
    let ghost all = views(products@);
    let mut i: usize = 0;
    assert(hit_views(hits@) =~= hits_of(all.subrange(0, 0)));
    while i < products.len()
        invariant
            i <= products@.len(),
            all == views(products@),
            hit_views(hits@) == hits_of(all.subrange(0, i as int)),
        decreases products.len() - i,
    {
        assert(all.subrange(0, i + 1).drop_last() =~= all.subrange(0, i as int));
        assert(all.subrange(0, i + 1).last() == products@[i as int]@);
        if let Some((asin, details)) = parse_product(&products[i]) {
            push_hit(&mut hits, CatalogHit { asin, details });
        }
        i = i + 1;
    }
    assert(all.subrange(0, i as int) =~= all);
    hits
}

/// Values by the ids of products; the latest of an id counts.
#[derive(Debug)]
pub struct ByAsin<V> {
    entries: Vec<(String, V)>,
}

/// The values of a list of pairs by their ids; the latest of an id counts.
pub open spec fn latest<V: View>(entries: Seq<(String, V)>) -> Map<Seq<char>, V::V>
    decreases entries.len(),
{
    if entries.len() == 0 {
        Map::empty()
    } else {
        latest(entries.drop_last()).insert(entries.last().0@, entries.last().1@)
    }
}

impl<V: View> View for ByAsin<V> {
    type V = Map<Seq<char>, V::V>;

    closed spec fn view(&self) -> Map<Seq<char>, V::V> {
        latest(self.entries@)
    }
}

impl<V: View> ByAsin<V> {
    /// No values.
    pub fn new() -> (map: ByAsin<V>)
        ensures
            map@ == Map::<Seq<char>, V::V>::empty(),
    {
        ByAsin { entries: Vec::new() }
    }

    /// Sets the value of an id.
    pub fn insert(&mut self, asin: String, value: V)
        ensures
            final(self)@ == old(self)@.insert(asin@, value@),
    {
        let ghost known = self.entries@;
        self.entries.push((asin, value));
        assert(self.entries@.drop_last() =~= known);
    }

    /// The value of an id.
    pub fn get(&self, asin: &str) -> (value: Option<&V>)
        ensures
            match value {
                Some(v) => self@.contains_key(asin@) && self@[asin@] == v@,
                None => !self@.contains_key(asin@),
            },
    {
        let ghost all = self.entries@;
        let mut i: usize = self.entries.len();
        assert(all.subrange(0, i as int) =~= all);
        while i > 0
            invariant
                i <= self.entries@.len(),
                all == self.entries@,
                self@ == latest(all),
                latest(all).contains_key(asin@) == latest(all.subrange(0, i as int)).contains_key(
                    asin@,
                ),
                latest(all)[asin@] == latest(all.subrange(0, i as int))[asin@],
            decreases i,
        {
            let ghost front = all.subrange(0, i as int);
            assert(front.drop_last() =~= all.subrange(0, i - 1));
            assert(front.last() == all[i - 1]);
            if crate::text::same(self.entries[i - 1].0.as_str(), asin) {
                return Some(&self.entries[i - 1].1);
            }
            i = i - 1;
        }
        None
    }
}

/// The details of products by their ids, with those of an answer added.
pub open spec fn with_details(
    known: Map<Seq<char>, DetailsView>,
    products: Seq<JsonView>,
) -> Map<Seq<char>, DetailsView>
    decreases products.len(),
{
    if products.len() == 0 {
        known
    } else {
        let front = with_details(known, products.drop_last());
        match product_of(products.last()) {
            Some((asin, details)) => front.insert(asin, details),
            None => front,
        }
    }
}

/// Adds the details of the products in an answer of the catalog.
pub fn parse_catalog_details(body: &Json, details: &mut ByAsin<CatalogDetails>)
    ensures
        final(details)@ == with_details(old(details)@, products_of(body@)),
{
    let ghost known = details@;
    let products = match body.get_array("products") {
        Some(list) => list,
        None => {
            return ;
        },
    };
    let ghost all = views(products@);
    let mut i: usize = 0;
    while i < products.len()
        invariant
            i <= products@.len(),
            all == views(products@),
            details@ == with_details(known, all.subrange(0, i as int)),
        decreases products.len() - i,
    {
        assert(all.subrange(0, i + 1).drop_last() =~= all.subrange(0, i as int));
        assert(all.subrange(0, i + 1).last() == products@[i as int]@);
        if let Some((asin, found)) = parse_product(&products[i]) {
            details.insert(asin, found);
        }
        i = i + 1;
    }
    assert(all.subrange(0, i as int) =~= all);
}

/// What an account may do with a product.
#[derive(Debug)]
pub struct Eligibility {
    /// The title, and behind it the subtitle.
    pub full_title: String,
    /// Whether the account may play it: it owns the product, or its
    /// subscription holds it.
    pub is_consumable: Option<bool>,
    /// Whether it may play it for good.
    pub is_consumable_indefinitely: Option<bool>,
    /// How the product is delivered.
    pub content_delivery_type: Option<String>,
}

/// What an account may do with a product, in texts.
pub struct EligibilityView {
    /// The title, and behind it the subtitle.
    pub full_title: Seq<char>,
    /// Whether the account may play it.
    pub is_consumable: Option<bool>,
    /// Whether it may play it for good.
    pub is_consumable_indefinitely: Option<bool>,
    /// How the product is delivered.
    pub content_delivery_type: Option<Seq<char>>,
}

impl View for Eligibility {
    type V = EligibilityView;

    open spec fn view(&self) -> EligibilityView {
        EligibilityView {
            full_title: self.full_title@,
            is_consumable: self.is_consumable,
            is_consumable_indefinitely: self.is_consumable_indefinitely,
            content_delivery_type: opt_text(self.content_delivery_type),
        }
    }
}

/// Whether the account can borrow a product: it may play it, but not for good.
pub open spec fn borrowable(rights: EligibilityView) -> bool {
    rights.is_consumable == Some(true) && rights.is_consumable_indefinitely != Some(true)
}

impl Eligibility {
    /// Whether the account can borrow the product.
    pub fn is_borrowable(&self) -> (yes: bool)
        ensures
            yes == borrowable(self@),
    {
        let playable = match self.is_consumable {
            Some(flag) => flag,
            None => false,
        };
        let for_good = match self.is_consumable_indefinitely {
            Some(flag) => flag,
            None => false,
        };
        playable && !for_good
    }
}

/// A right of the account; nothing where the answer names none.
pub open spec fn right_of(product: JsonView, name: Seq<char>) -> Option<bool> {
    match field(product, "customer_rights"@) {
        Some(rights) => flag_field(rights, name),
        None => None,
    }
}

fn right(product: &Json, name: &str) -> (flag: Option<bool>)
    ensures
        flag == right_of(product@, name@),
{
    match product.get("customer_rights") {
        Some(rights) => rights.get_bool(name),
        None => None,
    }
}

/// Whether the account may play a product, by what the catalog says of it.
pub fn is_consumable(doc: &Json) -> (flag: Option<bool>)
    ensures
        flag == right_of(doc@, "is_consumable"@),
{
    right(doc, "is_consumable")
}

/// What an account may do with a product.
pub open spec fn eligibility_of(product: JsonView) -> EligibilityView {
    EligibilityView {
        full_title: full_title_of(details_of(product)),
        is_consumable: right_of(product, "is_consumable"@),
        is_consumable_indefinitely: right_of(product, "is_consumable_indefinitely"@),
        content_delivery_type: text_field(product, "content_delivery_type"@),
    }
}

/// What an account may do with products, with those of an answer added.
pub open spec fn with_eligibility(
    known: Map<Seq<char>, EligibilityView>,
    products: Seq<JsonView>,
) -> Map<Seq<char>, EligibilityView>
    decreases products.len(),
{
    if products.len() == 0 {
        known
    } else {
        let front = with_eligibility(known, products.drop_last());
        match text_field(products.last(), "asin"@) {
            Some(asin) => front.insert(asin, eligibility_of(products.last())),
            None => front,
        }
    }
}

/// Adds what an account may do with the products in an answer of the catalog.
pub fn parse_eligibility(body: &Json, map: &mut ByAsin<Eligibility>)
    ensures
        final(map)@ == with_eligibility(old(map)@, products_of(body@)),
{
    let ghost known = map@;
    let products = match body.get_array("products") {
        Some(list) => list,
        None => {
            return ;
        },
    };
    let ghost all = views(products@);
    let mut i: usize = 0;
    while i < products.len()
        invariant
            i <= products@.len(),
            all == views(products@),
            map@ == with_eligibility(known, all.subrange(0, i as int)),
        decreases products.len() - i,
    {
        assert(all.subrange(0, i + 1).drop_last() =~= all.subrange(0, i as int));
        assert(all.subrange(0, i + 1).last() == products@[i as int]@);
        let product = &products[i];
        if let Some((asin, details)) = parse_product(product) {
            let entry = Eligibility {
                full_title: details.full_title(),
                is_consumable: right(product, "is_consumable"),
                is_consumable_indefinitely: right(product, "is_consumable_indefinitely"),
                content_delivery_type: match product.get_str("content_delivery_type") {
                    Some(kind) => Some(String::from_str(kind)),
                    None => None,
                },
            };
            map.insert(asin, entry);
        }
        i = i + 1;
    }
    assert(all.subrange(0, i as int) =~= all);
}

/// Whether a product is more than an echo of an id that the catalog does not
/// know: it has an id and a title.
pub open spec fn is_real(product: JsonView) -> bool {
    text_field(product, "asin"@) is Some && text_field(product, "title"@) is Some && trimmed(
        text_field(product, "title"@)->Some_0,
    ).len() > 0
}

/// The ids of the real products of an answer, each with its place.
pub open spec fn real_products(products: Seq<JsonView>) -> Seq<(Seq<char>, int)>
    decreases products.len(),
{
    if products.len() == 0 {
        Seq::empty()
    } else if is_real(products.last()) {
        real_products(products.drop_last()).push(
            (text_field(products.last(), "asin"@)->Some_0, products.len() - 1),
        )
    } else {
        real_products(products.drop_last())
    }
}

/// Finds the real products of an answer of the catalog: the catalog echoes an id
/// that it does not know as a product that holds only that id.
pub fn documents(body: &Json) -> (found: Vec<(String, usize)>)
    ensures
        found@.map_values(|item: (String, usize)| (item.0@, item.1 as int)) == real_products(
            products_of(body@),
        ),
{
    let mut found: Vec<(String, usize)> = Vec::new();
    let ghost as_pair = |item: (String, usize)| (item.0@, item.1 as int);
    let products = match body.get_array("products") {
        Some(list) => list,
        None => {
            assert(found@.map_values(as_pair) =~= Seq::<(Seq<char>, int)>::empty());
            return found;
        },
    };
    let ghost all = views(products@);
    let mut i: usize = 0;
    assert(found@.map_values(as_pair) =~= real_products(all.subrange(0, 0)));
    while i < products.len()
        invariant
            i <= products@.len(),
            all == views(products@),
            as_pair == (|item: (String, usize)| (item.0@, item.1 as int)),
            found@.map_values(as_pair) == real_products(all.subrange(0, i as int)),
        decreases products.len() - i,
    {
        assert(all.subrange(0, i + 1).drop_last() =~= all.subrange(0, i as int));
        assert(all.subrange(0, i + 1).last() == products@[i as int]@);
        let product = &products[i];
        if let Some(asin) = product.get_str("asin") {
            if let Some(title) = product.get_str("title") {
                if !trim(title).as_str().is_empty() {
                    let ghost known = found@.map_values(as_pair);
                    found.push((String::from_str(asin), i));
                    assert(found@.map_values(as_pair) =~= known.push((asin@, i as int)));
                }
            }
        }
        i = i + 1;
    }
    assert(all.subrange(0, i as int) =~= all);
    found
}

/// The end of a batch that starts at a place.
pub open spec fn batch_end(start: int, len: int) -> int {
    if start + CATALOG_BATCH < len {
        start + CATALOG_BATCH
    } else {
        len
    }
}

/// The ids from a place on, in batches, the ids of each set off by commas.
pub open spec fn batches_from(asins: Seq<Seq<char>>, start: int) -> Seq<Seq<char>>
    decreases asins.len() - start,
{
    if start < 0 || start >= asins.len() {
        Seq::empty()
    } else {
        let end = batch_end(start, asins.len() as int);
        seq![joined(asins.subrange(start, end), ","@)] + batches_from(asins, end)
    }
}

/// Parts ids into batches that one request may ask for, the ids of each set off
/// by commas.
pub fn batches(asins: &Vec<String>) -> (list: Vec<String>)
    ensures
        texts(list@) == batches_from(texts(asins@), 0),
{
    let mut list: Vec<String> = Vec::new();
    let ghost all = texts(asins@);
    let mut start: usize = 0;
    assert(texts(list@) + batches_from(all, 0) =~= batches_from(all, 0));
    while start < asins.len()
        invariant
            start <= asins@.len(),
            all == texts(asins@),
            texts(list@) + batches_from(all, start as int) == batches_from(all, 0),
        decreases asins.len() - start,
    {
        let end: usize = if asins.len() - start > CATALOG_BATCH {
            start + CATALOG_BATCH
        } else {
            asins.len()
        };
        let mut batch: Vec<String> = Vec::new();
        let mut i: usize = start;
        assert(texts(batch@) =~= all.subrange(start as int, start as int));
        while i < end
            invariant
                start <= i <= end <= asins@.len(),
                all == texts(asins@),
                texts(batch@) == all.subrange(start as int, i as int),
            decreases end - i,
        {
            push_text(&mut batch, asins[i].clone());
            i = i + 1;
            assert(texts(batch@) =~= all.subrange(start as int, i as int));
        }
        let ghost done = texts(list@);
        let ghost part = joined(all.subrange(start as int, end as int), ","@);
        push_text(&mut list, join(&batch, ","));
        assert(done + (seq![part] + batches_from(all, end as int)) =~= done.push(part)
            + batches_from(all, end as int));
        start = end;
    }
    assert(texts(list@) + batches_from(all, start as int) =~= texts(list@));
    list
}

/// How long something plays.
pub open spec fn runtime_text(minutes: int) -> Seq<char> {
    if minutes >= 60 {
        decimal(minutes / 60) + "h "@ + decimal(minutes % 60) + "m"@
    } else {
        decimal(minutes) + "m"@
    }
}

/// Minutes as `12h 34m` or `45m`.
pub fn format_runtime(minutes: u64) -> (text: String)
    ensures
        text@ == runtime_text(minutes as int),
{
    if minutes >= 60 {
        cat4(number(minutes / 60).as_str(), "h ", number(minutes % 60).as_str(), "m")
    } else {
        cat2(number(minutes).as_str(), "m")
    }
}

/// What is told of a result behind its title: the publication where the title
/// does not hold it, the authors, how long it plays.
pub open spec fn extras_of(details: DetailsView) -> Seq<Seq<char>> {
    (match details.publication {
        Some(publication) => if holds(
            unicode_lower(full_title_of(details)),
            unicode_lower(publication),
        ) {
            Seq::empty()
        } else {
            seq![publication]
        },
        None => Seq::empty(),
    }) + (if details.authors.len() == 0 {
        Seq::empty()
    } else {
        seq![details.authors]
    }) + (match details.runtime_min {
        Some(minutes) => seq![runtime_text(minutes as int)],
        None => Seq::empty(),
    })
}

/// How a result is shown, given what is told behind its title.
pub open spec fn label_of(asin: Seq<char>, full_title: Seq<char>, extras: Seq<Seq<char>>) -> Seq<char> {
    if extras.len() == 0 {
        asin + "  "@ + full_title
    } else {
        asin + "  "@ + full_title + "  ["@ + joined(extras, " · "@) + "]"@
    }
}

/// How a result is shown.
pub open spec fn hit_text(hit: (Seq<char>, DetailsView)) -> Seq<char> {
    label_of(hit.0, full_title_of(hit.1), extras_of(hit.1))
}

/// How a result is shown: by its id and title, and what tells it from others.
pub fn hit_label(hit: &CatalogHit) -> (label: String)
    ensures
        label@ == hit_text(hit@),
{
    let details = &hit.details;
    let full_title = details.full_title();
    let mut extras: Vec<String> = Vec::new();
    if let Some(publication) = &details.publication {
        if !contains(
            to_lower(full_title.as_str()).as_str(),
            to_lower(publication.as_str()).as_str(),
        ) {
            push_text(&mut extras, publication.clone());
        }
    }
    if !details.authors.as_str().is_empty() {
        push_text(&mut extras, details.authors.clone());
    }
    if let Some(minutes) = details.runtime_min {
        push_text(&mut extras, format_runtime(minutes));
    }
    assert(texts(extras@) =~= extras_of(details@));
    let mut label = cat3(hit.asin.as_str(), "  ", full_title.as_str());
    if extras.len() > 0 {
        label.append("  [");
        label.append(join(&extras, " · ").as_str());
        label.append("]");
    }
    label
}

/// Whether a result has the text searched for in its title or publication, as
/// it stands but for the case of letters.
pub open spec fn matches_text(hit: (Seq<char>, DetailsView), query: Seq<char>) -> bool {
    holds(unicode_lower(full_title_of(hit.1)), unicode_lower(query)) || (hit.1.publication is Some
        && holds(unicode_lower(hit.1.publication->Some_0), unicode_lower(query)))
}

/// Whether any result has the text searched for.
pub open spec fn any_matches(hits: Seq<(Seq<char>, DetailsView)>, query: Seq<char>) -> bool {
    exists|i: int| 0 <= i < hits.len() && matches_text(#[trigger] hits[i], query)
}

/// The results to offer: those that have the text searched for, or all where
/// none has it.
pub open spec fn shortlist_of(hits: Seq<(Seq<char>, DetailsView)>, query: Seq<char>) -> Seq<
    (Seq<char>, DetailsView),
> {
    if any_matches(hits, query) {
        hits.filter(|hit: (Seq<char>, DetailsView)| matches_text(hit, query))
    } else {
        hits
    }
}

fn hit_matches(hit: &CatalogHit, needle: &str, Ghost(query): Ghost<Seq<char>>) -> (yes: bool)
    requires
        needle@ == unicode_lower(query),
    ensures
        yes == matches_text(hit@, query),
{
    let titled = contains(to_lower(hit.details.full_title().as_str()).as_str(), needle);
    let published = match &hit.details.publication {
        Some(publication) => contains(to_lower(publication.as_str()).as_str(), needle),
        None => false,
    };
    titled || published
}

fn copy_hits(hits: &Vec<CatalogHit>) -> (list: Vec<CatalogHit>)
    ensures
        hit_views(list@) == hit_views(hits@),
{
    let mut list: Vec<CatalogHit> = Vec::new();
    let ghost all = hit_views(hits@);
    let mut i: usize = 0;
    assert(hit_views(list@) =~= all.subrange(0, 0));
    while i < hits.len()
        invariant
            i <= hits@.len(),
            all == hit_views(hits@),
            hit_views(list@) == all.subrange(0, i as int),
        decreases hits.len() - i,
    {
        push_hit(
            &mut list,
            CatalogHit { asin: hits[i].asin.clone(), details: hits[i].details.copy() },
        );
        i = i + 1;
        assert(hit_views(list@) =~= all.subrange(0, i as int));
    }
    assert(all.subrange(0, i as int) =~= all);
    list
}

/// Narrows results to those that have the text searched for, where any has.
pub fn verbatim_title_shortlist(hits: &Vec<CatalogHit>, query: &str) -> (list: Vec<CatalogHit>)
    ensures
        hit_views(list@) == shortlist_of(hit_views(hits@), query@),
{
    let needle = to_lower(query);
    let ghost all = hit_views(hits@);
    let ghost keep = |hit: (Seq<char>, DetailsView)| matches_text(hit, query@);
    let mut list: Vec<CatalogHit> = Vec::new();
    let mut i: usize = 0;
    proof {
        reveal(Seq::filter);
        assert(all.subrange(0, 0) =~= Seq::<(Seq<char>, DetailsView)>::empty());
        assert(hit_views(list@) =~= all.subrange(0, 0).filter(keep));
    }
    while i < hits.len()
        invariant
            i <= hits@.len(),
            all == hit_views(hits@),
            needle@ == unicode_lower(query@),
            keep == (|hit: (Seq<char>, DetailsView)| matches_text(hit, query@)),
            hit_views(list@) == all.subrange(0, i as int).filter(keep),
            list@.len() == 0 ==> forall|k: int|
                0 <= k < i ==> !matches_text(#[trigger] all[k], query@),
            list@.len() > 0 ==> any_matches(all, query@),
        decreases hits.len() - i,
    {
        proof {
            let next = all.subrange(0, i + 1);
            assert(next.drop_last() =~= all.subrange(0, i as int));
            assert(next.last() == hits@[i as int]@);
            assert(all[i as int] == hits@[i as int]@);
            reveal(Seq::filter);
        }
        if hit_matches(&hits[i], needle.as_str(), Ghost(query@)) {
            let hit = CatalogHit { asin: hits[i].asin.clone(), details: hits[i].details.copy() };
            push_hit(&mut list, hit);
            assert(matches_text(all[i as int], query@));
            assert(list@.len() == hit_views(list@).len());
        }
        i = i + 1;
    }
    assert(all.subrange(0, i as int) =~= all);
    if list.len() == 0 {
        copy_hits(hits)
    } else {
        list
    }
}

/// Narrowing never leaves nothing of something, keeps the order, and once a
/// result has the text searched for, all that are kept have it and none that
/// has it is hidden.
pub proof fn law_shortlist_hides_only_noise(
    hits: Seq<(Seq<char>, DetailsView)>,
    query: Seq<char>,
    hit: (Seq<char>, DetailsView),
)
    ensures
        hits.len() > 0 ==> shortlist_of(hits, query).len() > 0,
        shortlist_of(hits, query).contains(hit) ==> hits.contains(hit),
        any_matches(hits, query) ==> (shortlist_of(hits, query).contains(hit) <==> hits.contains(hit)
            && matches_text(hit, query)),
{
    let keep = |h: (Seq<char>, DetailsView)| matches_text(h, query);
    crate::lists::lemma_filtered(hits, keep, hit);
    if any_matches(hits, query) {
        let i = choose|i: int| 0 <= i < hits.len() && matches_text(#[trigger] hits[i], query);
        crate::lists::lemma_filtered(hits, keep, hits[i]);
        assert(hits.contains(hits[i]));
        assert(hits.filter(keep).contains(hits[i]));
    }
}

/// What keeps a title search from being resolved; `T` holds the texts that are
/// named.
#[derive(Debug)]
pub enum CatalogError<T> {
    /// Several products match and nobody can be asked.
    Ambiguous {
        /// How many.
        count: usize,
        /// What was searched for.
        query: T,
        /// The products, one a line.
        listing: T,
    },
}

impl View for CatalogError<String> {
    type V = CatalogError<Seq<char>>;

    open spec fn view(&self) -> CatalogError<Seq<char>> {
        match *self {
            CatalogError::Ambiguous { count, query, listing } => CatalogError::Ambiguous {
                count,
                query: query@,
                listing: listing@,
            },
        }
    }
}

impl CatalogError<String> {
    /// The words that tell the user of the fault.
    pub fn message(&self) -> (text: String)
        ensures
            text@ == match self@ {
                CatalogError::Ambiguous { count, query, listing } => decimal(count as int)
                    + " catalog titles match "@ + quoted_form(query)
                    + "; pass --asin or run interactively:\n"@ + listing,
            },
    {
        match self {
            CatalogError::Ambiguous { count, query, listing } => cat5(
                number(*count as u64).as_str(),
                " catalog titles match ",
                quoted(query.as_str()).as_str(),
                "; pass --asin or run interactively:\n",
                listing.as_str(),
            ),
        }
    }
}

/// The results, one a line, each set in.
pub open spec fn listing_of(hits: Seq<(Seq<char>, DetailsView)>) -> Seq<char> {
    joined(hits.map_values(|hit: (Seq<char>, DetailsView)| "  "@ + hit_text(hit)), "\n"@)
}

/// How the results are shown.
pub fn hit_labels(hits: &Vec<CatalogHit>) -> (labels: Vec<String>)
    ensures
        texts(labels@) == hit_views(hits@).map_values(
            |hit: (Seq<char>, DetailsView)| hit_text(hit),
        ),
{
    let mut labels: Vec<String> = Vec::new();
    let ghost want = hit_views(hits@).map_values(|hit: (Seq<char>, DetailsView)| hit_text(hit));
    let mut i: usize = 0;
    while i < hits.len()
        invariant
            i <= hits@.len(),
            want == hit_views(hits@).map_values(|hit: (Seq<char>, DetailsView)| hit_text(hit)),
            texts(labels@).len() == i,
            forall|k: int| 0 <= k < i ==> #[trigger] texts(labels@)[k] == want[k],
        decreases hits.len() - i,
    {
        push_text(&mut labels, hit_label(&hits[i]));
        i = i + 1;
    }
    assert(texts(labels@) =~= want);
    labels
}

fn listing(hits: &Vec<CatalogHit>) -> (text: String)
    ensures
        text@ == listing_of(hit_views(hits@)),
{
    let labels = hit_labels(hits);
    let mut lines: Vec<String> = Vec::new();
    let ghost want = hit_views(hits@).map_values(
        |hit: (Seq<char>, DetailsView)| "  "@ + hit_text(hit),
    );
    let mut i: usize = 0;
    assert(labels@.len() == texts(labels@).len());
    while i < labels.len()
        invariant
            i <= labels@.len(),
            labels@.len() == hits@.len(),
            texts(labels@) == hit_views(hits@).map_values(
                |hit: (Seq<char>, DetailsView)| hit_text(hit),
            ),
            want == hit_views(hits@).map_values(
                |hit: (Seq<char>, DetailsView)| "  "@ + hit_text(hit),
            ),
            texts(lines@).len() == i,
            forall|k: int| 0 <= k < i ==> #[trigger] texts(lines@)[k] == want[k],
        decreases labels.len() - i,
    {
        assert(texts(labels@)[i as int] == labels@[i as int]@);
        push_text(&mut lines, cat2("  ", labels[i].as_str()));
        i = i + 1;
    }
    assert(texts(lines@) =~= want);
    join(&lines, "\n")
}

/// The ids of the results at some places.
pub open spec fn picked_asins(hits: Seq<(Seq<char>, DetailsView)>, places: Seq<usize>) -> Seq<
    Seq<char>,
> {
    places.map_values(|place: usize| hits[place as int].0)
}

/// The products that a title search means, given what a user picked of the
/// results; nothing is picked where nobody can be asked.
pub open spec fn chosen(
    query: Seq<char>,
    hits: Seq<(Seq<char>, DetailsView)>,
    picked: Option<Seq<usize>>,
) -> Result<Seq<Seq<char>>, CatalogError<Seq<char>>> {
    if hits.len() == 0 {
        Ok(Seq::empty())
    } else if hits.len() == 1 {
        Ok(seq![hits[0].0])
    } else {
        match picked {
            Some(places) => Ok(picked_asins(hits, places)),
            None => Err(
                CatalogError::Ambiguous {
                    count: hits.len() as usize,
                    query,
                    listing: listing_of(hits),
                },
            ),
        }
    }
}

/// The places that a user picked.
pub open spec fn places(picked: Option<&Vec<usize>>) -> Option<Seq<usize>> {
    match picked {
        Some(list) => Some(list@),
        None => None,
    }
}

/// Tells the products that a title search means. One result is taken as it is;
/// of several those that a user picked; where nobody can be asked, several are
/// an error that names them.
pub fn choose_hits(query: &str, hits: &Vec<CatalogHit>, picked: Option<&Vec<usize>>) -> (asins: Result<
    Vec<String>,
    CatalogError<String>,
>)
    requires
        picked matches Some(list) ==> forall|i: int|
            0 <= i < list@.len() ==> (#[trigger] list@[i]) < hits@.len(),
    ensures
        match asins {
            Ok(list) => chosen(query@, hit_views(hits@), places(picked)) == Ok::<
                Seq<Seq<char>>,
                CatalogError<Seq<char>>,
            >(texts(list@)),
            Err(e) => chosen(query@, hit_views(hits@), places(picked)) == Err::<
                Seq<Seq<char>>,
                CatalogError<Seq<char>>,
            >(e@),
        },
{
    let mut asins: Vec<String> = Vec::new();
    let ghost all = hit_views(hits@);
    if hits.len() == 0 {
        assert(texts(asins@) =~= Seq::<Seq<char>>::empty());
        return Ok(asins);
    }
    if hits.len() == 1 {
        push_text(&mut asins, hits[0].asin.clone());
        assert(all[0] == hits@[0]@);
        assert(texts(asins@) =~= seq![all[0].0]);
        return Ok(asins);
    }
    let list = match picked {
        Some(list) => list,
        None => {
            return Err(
                CatalogError::Ambiguous {
                    count: hits.len(),
                    query: String::from_str(query),
                    listing: listing(hits),
                },
            );
        },
    };
    let mut i: usize = 0;
    while i < list.len()
        invariant
            i <= list@.len(),
            all == hit_views(hits@),
            forall|k: int| 0 <= k < list@.len() ==> (#[trigger] list@[k]) < hits@.len(),
            texts(asins@).len() == i,
            forall|k: int| 0 <= k < i ==> #[trigger] texts(asins@)[k] == picked_asins(all, list@)[k],
        decreases list.len() - i,
    {
        assert(list@[i as int] < hits@.len());
        push_text(&mut asins, hits[list[i]].asin.clone());
        i = i + 1;
    }
    assert(texts(asins@) =~= picked_asins(all, list@));
    Ok(asins)
}

/// A title search: what was searched for, what the catalog found, and what a
/// user picked of the results that were offered.
#[derive(Debug)]
pub struct CatalogQuery {
    /// What was searched for.
    pub query: String,
    /// What the catalog found, in its order.
    pub hits: Vec<CatalogHit>,
    /// What was picked of the results that were offered, by place.
    pub picked: Option<Vec<usize>>,
}

/// The places that were picked in a search.
pub open spec fn query_places(query: CatalogQuery) -> Option<Seq<usize>> {
    match query.picked {
        Some(list) => Some(list@),
        None => None,
    }
}

/// The results of a search that were offered.
pub open spec fn offered(query: CatalogQuery) -> Seq<(Seq<char>, DetailsView)> {
    shortlist_of(hit_views(query.hits@), trimmed(query.query@))
}

/// The products that a search means; an empty one means none.
pub open spec fn query_asins(query: CatalogQuery) -> Result<
    Seq<Seq<char>>,
    CatalogError<Seq<char>>,
> {
    if trimmed(query.query@).len() == 0 {
        Ok(Seq::empty())
    } else {
        chosen(trimmed(query.query@), offered(query), query_places(query))
    }
}

/// The ids behind those found so far that the searches mean; the first search
/// that cannot be resolved is the error of all.
pub open spec fn found_asins(found: Seq<Seq<char>>, queries: Seq<CatalogQuery>) -> Result<
    Seq<Seq<char>>,
    CatalogError<Seq<char>>,
>
    decreases queries.len(),
{
    if queries.len() == 0 {
        Ok(found)
    } else {
        match query_asins(queries[0]) {
            Ok(asins) => found_asins(unique_from(found, asins), queries.drop_first()),
            Err(e) => Err(e),
        }
    }
}

/// The ids that were given, without the space around them, each once; empty
/// ones are passed over.
pub open spec fn given_asins(found: Seq<Seq<char>>, asins: Seq<Seq<char>>) -> Seq<Seq<char>>
    decreases asins.len(),
{
    if asins.len() == 0 {
        found
    } else if trimmed(asins[0]).len() == 0 {
        given_asins(found, asins.drop_first())
    } else {
        given_asins(unique_from(found, seq![trimmed(asins[0])]), asins.drop_first())
    }
}

/// Whether what was picked lies in what was offered.
pub open spec fn fits_offer(query: CatalogQuery) -> bool {
    query.picked matches Some(list) ==> forall|i: int|
        0 <= i < list@.len() ==> (#[trigger] list@[i]) < offered(query).len()
}

proof fn lemma_unique_one(found: Seq<Seq<char>>, item: Seq<char>)
    ensures
        unique_from(found, seq![item]) == (if found.contains(item) {
            found
        } else {
            found.push(item)
        }),
{
    let one = seq![item];
    assert(one.drop_first() =~= Seq::<Seq<char>>::empty());
    reveal_with_fuel(unique_from, 2);
}

fn add_all(result: &mut Vec<String>, asins: &Vec<String>)
    ensures
        texts(final(result)@) == unique_from(texts(old(result)@), texts(asins@)),
{
    let ghost start = texts(result@);
    let ghost all = texts(asins@);
    let mut i: usize = 0;
    assert(all.subrange(0, all.len() as int) =~= all);
    while i < asins.len()
        invariant
            i <= asins@.len(),
            all == texts(asins@),
            unique_from(start, all) == unique_from(
                texts(result@),
                all.subrange(i as int, all.len() as int),
            ),
        decreases asins.len() - i,
    {
        let ghost rest = all.subrange(i as int, all.len() as int);
        assert(rest[0] == asins@[i as int]@);
        assert(rest.drop_first() =~= all.subrange(i + 1, all.len() as int));
        add_text(result, asins[i].clone());
        i = i + 1;
    }
}

/// The ids of the products that are meant: those that were given, then those
/// that the searches mean, each once, in this order.
pub fn resolve_catalog_titles(asins: &Vec<String>, queries: &Vec<CatalogQuery>) -> (result: Result<
    Vec<String>,
    CatalogError<String>,
>)
    requires
        forall|i: int| 0 <= i < queries@.len() ==> fits_offer(#[trigger] queries@[i]),
    ensures
        ({
            let want = found_asins(given_asins(Seq::empty(), texts(asins@)), queries@);
            match result {
                Ok(list) => want == Ok::<Seq<Seq<char>>, CatalogError<Seq<char>>>(texts(list@)),
                Err(e) => want == Err::<Seq<Seq<char>>, CatalogError<Seq<char>>>(e@),
            }
        }),
{
    let mut result: Vec<String> = Vec::new();
    let ghost all = texts(asins@);
    let ghost none = Seq::<Seq<char>>::empty();
    let mut i: usize = 0;
    assert(texts(result@) =~= none);
    assert(all.subrange(0, all.len() as int) =~= all);
    while i < asins.len()
        invariant
            i <= asins@.len(),
            all == texts(asins@),
            given_asins(none, all) == given_asins(
                texts(result@),
                all.subrange(i as int, all.len() as int),
            ),
        decreases asins.len() - i,
    {
        let ghost rest = all.subrange(i as int, all.len() as int);
        assert(rest[0] == asins@[i as int]@);
        assert(rest.drop_first() =~= all.subrange(i + 1, all.len() as int));
        let asin = trim(asins[i].as_str());
        if !asin.as_str().is_empty() {
            proof {
                lemma_unique_one(texts(result@), asin@);
            }
            add_text(&mut result, asin);
        }
        i = i + 1;
    }
    let ghost given = texts(result@);
    let mut j: usize = 0;
    assert(queries@.subrange(0, queries@.len() as int) =~= queries@);
    while j < queries.len()
        invariant
            j <= queries@.len(),
            forall|k: int| 0 <= k < queries@.len() ==> fits_offer(#[trigger] queries@[k]),
            given == given_asins(none, texts(asins@)),
            none == Seq::<Seq<char>>::empty(),
            found_asins(given, queries@) == found_asins(
                texts(result@),
                queries@.subrange(j as int, queries@.len() as int),
            ),
        decreases queries.len() - j,
    {
        let ghost rest = queries@.subrange(j as int, queries@.len() as int);
        assert(rest[0] == queries@[j as int]);
        assert(rest.drop_first() =~= queries@.subrange(j + 1, queries@.len() as int));
        assert(fits_offer(queries@[j as int]));
        let query = &queries[j];
        let words = trim(query.query.as_str());
        if !words.as_str().is_empty() {
            let picked: Option<&Vec<usize>> = match &query.picked {
                Some(list) => Some(list),
                None => None,
            };
            let shown = verbatim_title_shortlist(&query.hits, words.as_str());
            assert(shown@.len() == hit_views(shown@).len());
            match choose_hits(words.as_str(), &shown, picked) {
                Ok(found) => add_all(&mut result, &found),
                Err(e) => {
                    return Err(e);
                },
            }
        }
        j = j + 1;
    }
    Ok(result)
}

fn fits(query: &CatalogQuery) -> (yes: bool)
    ensures
        yes == fits_offer(*query),
{
    let list = match &query.picked {
        Some(list) => list,
        None => {
            return true;
        },
    };
    let words = trim(query.query.as_str());
    let shown = verbatim_title_shortlist(&query.hits, words.as_str());
    assert(shown@.len() == offered(*query).len());
    let mut i: usize = 0;
    while i < list.len()
        invariant
            i <= list@.len(),
            query.picked == Some(*list),
            shown@.len() == offered(*query).len(),
            forall|k: int| 0 <= k < i ==> (#[trigger] list@[k]) < shown@.len(),
        decreases list.len() - i,
    {
        if list[i] >= shown.len() {
            assert(!(query.picked->Some_0@[i as int] < offered(*query).len()));
            return false;
        }
        i = i + 1;
    }
    true
}

/// The ids of the products that are meant, as `resolve_catalog_titles` gives
/// them; nothing where a pick lies outside what was offered.
pub fn resolve_checked(asins: &Vec<String>, queries: &Vec<CatalogQuery>) -> (result: Option<
    Result<Vec<String>, CatalogError<String>>,
>)
    ensures
        ({
            let want = found_asins(given_asins(Seq::empty(), texts(asins@)), queries@);
            let sound = forall|i: int| 0 <= i < queries@.len() ==> fits_offer(#[trigger] queries@[i]);
            match result {
                Some(Ok(list)) => sound && want == Ok::<Seq<Seq<char>>, CatalogError<Seq<char>>>(
                    texts(list@),
                ),
                Some(Err(e)) => sound && want == Err::<Seq<Seq<char>>, CatalogError<Seq<char>>>(e@),
                None => !sound,
            }
        }),
{
    let mut i: usize = 0;
    while i < queries.len()
        invariant
            i <= queries@.len(),
            forall|k: int| 0 <= k < i ==> fits_offer(#[trigger] queries@[k]),
        decreases queries.len() - i,
    {
        if !fits(&queries[i]) {
            return None;
        }
        i = i + 1;
    }
    Some(resolve_catalog_titles(asins, queries))
}

proof fn lemma_given_distinct(found: Seq<Seq<char>>, asins: Seq<Seq<char>>)
    requires
        found.no_duplicates(),
    ensures
        given_asins(found, asins).no_duplicates(),
    decreases asins.len(),
{
    if asins.len() > 0 {
        let one = seq![trimmed(asins[0])];
        crate::lists::lemma_unique_from(found, one);
        if trimmed(asins[0]).len() == 0 {
            lemma_given_distinct(found, asins.drop_first());
        } else {
            lemma_given_distinct(unique_from(found, one), asins.drop_first());
        }
    }
}

proof fn lemma_found_distinct(found: Seq<Seq<char>>, queries: Seq<CatalogQuery>)
    requires
        found.no_duplicates(),
    ensures
        found_asins(found, queries) matches Ok(list) ==> list.no_duplicates(),
    decreases queries.len(),
{
    if queries.len() > 0 {
        if let Ok(asins) = query_asins(queries[0]) {
            crate::lists::lemma_unique_from(found, asins);
            lemma_found_distinct(unique_from(found, asins), queries.drop_first());
        }
    }
}

/// No product is resolved twice, whatever was given and searched for.
pub proof fn law_catalog_resolves_without_repeats(
    asins: Seq<Seq<char>>,
    queries: Seq<CatalogQuery>,
)
    ensures
        found_asins(given_asins(Seq::empty(), asins), queries) matches Ok(list)
            ==> list.no_duplicates(),
{
    lemma_given_distinct(Seq::empty(), asins);
    lemma_found_distinct(given_asins(Seq::empty(), asins), queries);
}

/// What is said of a search: how many results are hidden, and what is taken
/// where there is no choice.
pub fn search_notes(query: &str, total: usize, hits: &Vec<CatalogHit>) -> (notes: Vec<String>)
    ensures
        texts(notes@) == (if hits@.len() < total {
            seq![
                "("@ + decimal(hits@.len() as int) + " of "@ + decimal(total as int)
                    + " catalog results contain "@ + quoted_form(query@)
                    + " verbatim; the rest are hidden)"@,
            ]
        } else {
            Seq::empty()
        }) + (if hits@.len() == 0 {
            seq!["no catalog title matches "@ + quoted_form(query@)]
        } else if hits@.len() == 1 {
            seq![quoted_form(query@) + " → "@ + hit_text(hits@[0]@)]
        } else {
            Seq::empty()
        }),
{
    let mut notes: Vec<String> = Vec::new();
    let name = quoted(query);
    if hits.len() < total {
        let mut note = cat5(
            "(",
            number(hits.len() as u64).as_str(),
            " of ",
            number(total as u64).as_str(),
            " catalog results contain ",
        );
        note.append(name.as_str());
        note.append(" verbatim; the rest are hidden)");
        push_text(&mut notes, note);
    }
    if hits.len() == 0 {
        push_text(&mut notes, cat2("no catalog title matches ", name.as_str()));
    } else if hits.len() == 1 {
        push_text(&mut notes, cat3(name.as_str(), " → ", hit_label(&hits[0]).as_str()));
    }
    notes
}

/// The question that offers several results.
pub fn pick_prompt(query: &str) -> (text: String)
    ensures
        text@ == "Catalog matches for "@ + quoted_form(query@)
            + " — space toggles · a all · enter confirms"@,
{
    cat3(
        "Catalog matches for ",
        quoted(query).as_str(),
        " — space toggles · a all · enter confirms",
    )
}

/// What is said of what was picked.
pub fn picked_note(query: &str, picked: usize, offered: usize) -> (text: String)
    ensures
        text@ == (if picked == 0 {
            "no titles selected for "@ + quoted_form(query@)
        } else {
            "selected "@ + decimal(picked as int) + " of "@ + decimal(offered as int) + " for "@
                + quoted_form(query@)
        }),
{
    if picked == 0 {
        return cat2("no titles selected for ", quoted(query).as_str());
    }
    let head = cat5(
        "selected ",
        number(picked as u64).as_str(),
        " of ",
        number(offered as u64).as_str(),
        " for ",
    );
    cat2(head.as_str(), quoted(query).as_str())
}

/// What the catalog shows of a product is what its document says, each part under
/// its own name; an empty text counts as none, and a subtitle stands behind the
/// title.
pub proof fn law_products_are_shown_as_they_are(product: JsonView, title: Seq<char>)
    ensures
        text_field(product, "title"@) == Some(title) ==> details_of(product).title == title,
        text_field(product, "title"@) is None ==> details_of(product).title.len() == 0,
        text_field(product, "subtitle"@) matches Some(text) ==> text.len() > 0 ==> details_of(
            product,
        ).subtitle == Some(text),
        text_field(product, "subtitle"@) is None ==> details_of(product).subtitle is None,
        text_field(product, "publication_name"@) matches Some(text) ==> text.len() > 0
            ==> details_of(product).publication == Some(text),
        whole_field(product, "runtime_length_min"@) matches Some(minutes) ==> details_of(
            product,
        ).runtime_min == Some(minutes as u64),
        list_field(product, "authors"@) matches Some(authors) ==> details_of(product).authors
            == joined(names_of(authors), ", "@),
        text_field(product, "asin"@) matches Some(asin) ==> product_of(product) == Some(
            (asin, details_of(product)),
        ),
        text_field(product, "asin"@) is None ==> product_of(product) is None,
        details_of(product).subtitle matches Some(text) ==> full_title_of(details_of(product))
            == details_of(product).title + ": "@ + text,
        details_of(product).subtitle is None ==> full_title_of(details_of(product)) == details_of(
            product,
        ).title,
{
}

/// Every author with a name, and every product with an id, is taken, in order, and
/// nothing else is.
pub proof fn law_answers_are_taken_one_by_one(
    list: Seq<JsonView>,
    item: JsonView,
    known: Map<Seq<char>, DetailsView>,
    rights: Map<Seq<char>, EligibilityView>,
)
    ensures
        names_of(list.push(item)) == match text_field(item, "name"@) {
            Some(name) => names_of(list).push(name),
            None => names_of(list),
        },
        hits_of(list.push(item)) == match text_field(item, "asin"@) {
            Some(asin) => hits_of(list).push((asin, details_of(item))),
            None => hits_of(list),
        },
        with_details(known, list.push(item)) == match text_field(item, "asin"@) {
            Some(asin) => with_details(known, list).insert(asin, details_of(item)),
            None => with_details(known, list),
        },
        with_eligibility(rights, list.push(item)) == match text_field(item, "asin"@) {
            Some(asin) => with_eligibility(rights, list).insert(asin, eligibility_of(item)),
            None => with_eligibility(rights, list),
        },
        names_of(Seq::empty()).len() == 0,
        hits_of(Seq::empty()).len() == 0,
        with_details(known, Seq::empty()) == known,
        with_eligibility(rights, Seq::empty()) == rights,
{
    assert(list.push(item).drop_last() =~= list);
}

/// What an account may do with a product is what its rights say: it can be borrowed
/// where it may be played, but not for good.
pub proof fn law_rights_decide_what_can_be_borrowed(product: JsonView, rights: JsonView)
    requires
        field(product, "customer_rights"@) == Some(rights),
    ensures
        eligibility_of(product).is_consumable == flag_field(rights, "is_consumable"@),
        eligibility_of(product).is_consumable_indefinitely == flag_field(
            rights,
            "is_consumable_indefinitely"@,
        ),
        eligibility_of(product).content_delivery_type == text_field(
            product,
            "content_delivery_type"@,
        ),
        eligibility_of(product).full_title == full_title_of(details_of(product)),
        borrowable(eligibility_of(product)) <==> flag_field(rights, "is_consumable"@) == Some(true)
            && flag_field(rights, "is_consumable_indefinitely"@) != Some(true),
{
}

/// A product is a document of its own exactly where it has an id and a title that
/// is not blank; each is found at its place.
pub proof fn law_documents_have_a_title(products: Seq<JsonView>, i: int, asin: Seq<char>)
    ensures
        real_products(products).contains((asin, i)) <==> 0 <= i < products.len() && text_field(
            products[i],
            "asin"@,
        ) == Some(asin) && (text_field(products[i], "title"@) matches Some(title) && trimmed(
            title,
        ).len() > 0),
    decreases products.len(),
{
    if products.len() > 0 {
        let front = products.drop_last();
        let before = real_products(front);
        let all = real_products(products);
        law_documents_have_a_title(front, i, asin);
        if before.contains((asin, i)) {
            let k = choose|k: int| 0 <= k < before.len() && before[k] == (asin, i);
            assert(all[k] == (asin, i));
        }
        if is_real(products.last()) {
            assert(all[before.len() as int].1 == products.len() - 1);
            if i == products.len() - 1 {
                assert(all.contains(all[before.len() as int]));
            }
        }
        if all.contains((asin, i)) {
            let k = choose|k: int| 0 <= k < all.len() && all[k] == (asin, i);
            if k < before.len() {
                assert(before[k] == (asin, i));
            }
        }
        if 0 <= i < front.len() {
            assert(front[i] == products[i]);
        }
    }
}

proof fn lemma_batches(asins: Seq<Seq<char>>, start: int, i: int)
    requires
        0 <= start,
        0 <= i,
        start + 50 * i < asins.len(),
    ensures
        i < batches_from(asins, start).len(),
        batches_from(asins, start)[i] == joined(
            asins.subrange(
                start + 50 * i,
                if start + 50 * i + 50 < asins.len() {
                    start + 50 * i + 50
                } else {
                    asins.len() as int
                },
            ),
            ","@,
        ),
    decreases i,
{
    if i > 0 {
        let end = batch_end(start, asins.len() as int);
        assert(end == start + 50);
        lemma_batches(asins, end, i - 1);
        assert(batches_from(asins, start)[i] == batches_from(asins, end)[i - 1]);
    }
}

proof fn lemma_batch_count(asins: Seq<Seq<char>>, start: int)
    requires
        0 <= start <= asins.len(),
    ensures
        asins.len() - start <= 50 * batches_from(asins, start).len() < asins.len() - start + 50,
    decreases asins.len() - start,
{
    if start < asins.len() {
        lemma_batch_count(asins, batch_end(start, asins.len() as int));
    }
}

/// Every id is asked for, in order, in batches of fifty, of which only the last may
/// be smaller; there are no more of them than that takes.
pub proof fn law_batches_ask_for_every_id(asins: Seq<Seq<char>>, i: int)
    requires
        0 <= i,
        50 * i < asins.len(),
    ensures
        i < batches_from(asins, 0).len(),
        batches_from(asins, 0)[i] == joined(
            asins.subrange(
                50 * i,
                if 50 * i + 50 < asins.len() {
                    50 * i + 50
                } else {
                    asins.len() as int
                },
            ),
            ","@,
        ),
        50 * batches_from(asins, 0).len() < asins.len() + 50,
{
    lemma_batches(asins, 0, i);
    lemma_batch_count(asins, 0);
}

/// How long something plays is told in hours and minutes that make up its minutes;
/// under an hour in minutes alone.
pub proof fn law_runtimes_are_told_in_full(hours: int, minutes: int)
    requires
        0 <= minutes < 60,
        0 <= hours,
    ensures
        hours > 0 ==> runtime_text(hours * 60 + minutes) == decimal(hours) + "h "@ + decimal(
            minutes,
        ) + "m"@,
        hours == 0 ==> runtime_text(minutes) == decimal(minutes) + "m"@,
{
    assert((hours * 60 + minutes) / 60 == hours);
    assert((hours * 60 + minutes) % 60 == minutes);
}

/// The results that are offered are those with the text searched for in their full
/// title or in their publication, whatever the case of letters; all of them where
/// none has it.
pub proof fn law_offers_hold_the_text_searched_for(
    hits: Seq<(Seq<char>, DetailsView)>,
    query: Seq<char>,
    hit: (Seq<char>, DetailsView),
)
    requires
        hits.contains(hit),
    ensures
        ({
            let meets = |h: (Seq<char>, DetailsView)|
                holds(unicode_lower(full_title_of(h.1)), unicode_lower(query)) || (
                h.1.publication is Some && holds(
                    unicode_lower(h.1.publication->Some_0),
                    unicode_lower(query),
                ));
            &&& meets(hit) ==> shortlist_of(hits, query).contains(hit)
            &&& shortlist_of(hits, query).contains(hit) && !meets(hit) ==> forall|i: int|
                0 <= i < hits.len() ==> !meets(#[trigger] hits[i])
            &&& (forall|i: int| 0 <= i < hits.len() ==> !meets(#[trigger] hits[i]))
                ==> shortlist_of(hits, query) == hits
        }),
{
    let meets = |h: (Seq<char>, DetailsView)|
        holds(unicode_lower(full_title_of(h.1)), unicode_lower(query)) || (h.1.publication is Some
            && holds(unicode_lower(h.1.publication->Some_0), unicode_lower(query)));
    law_shortlist_hides_only_noise(hits, query, hit);
    assert(forall|h: (Seq<char>, DetailsView)| matches_text(h, query) == #[trigger] meets(h));
    let i = choose|i: int| 0 <= i < hits.len() && hits[i] == hit;
    if meets(hit) {
        assert(matches_text(hits[i], query));
    }
    if any_matches(hits, query) {
        let k = choose|k: int| 0 <= k < hits.len() && matches_text(#[trigger] hits[k], query);
        assert(meets(hits[k]));
    }
}

proof fn lemma_given(found: Seq<Seq<char>>, asins: Seq<Seq<char>>, id: Seq<char>)
    requires
        found.no_duplicates(),
    ensures
        given_asins(found, asins).no_duplicates(),
        given_asins(found, asins).contains(id) <==> found.contains(id) || (id.len() > 0 && exists|
            i: int,
        |
            0 <= i < asins.len() && trimmed(#[trigger] asins[i]) == id),
    decreases asins.len(),
{
    if asins.len() > 0 {
        let rest = asins.drop_first();
        let one = seq![trimmed(asins[0])];
        crate::lists::lemma_unique_from(found, one);
        let next = if trimmed(asins[0]).len() == 0 {
            found
        } else {
            unique_from(found, one)
        };
        lemma_given(next, rest, id);
        assert(one.contains(id) <==> id == trimmed(asins[0])) by {
            assert(one[0] == trimmed(asins[0]));
        }
        if exists|i: int| 0 <= i < rest.len() && trimmed(#[trigger] rest[i]) == id {
            let i = choose|i: int| 0 <= i < rest.len() && trimmed(#[trigger] rest[i]) == id;
            assert(trimmed(asins[i + 1]) == id);
        }
        if exists|i: int| 0 <= i < asins.len() && trimmed(#[trigger] asins[i]) == id {
            let i = choose|i: int| 0 <= i < asins.len() && trimmed(#[trigger] asins[i]) == id;
            if i > 0 {
                assert(trimmed(rest[i - 1]) == id);
            }
        }
    }
}

proof fn lemma_found(found: Seq<Seq<char>>, queries: Seq<CatalogQuery>, id: Seq<char>)
    requires
        found.no_duplicates(),
        found_asins(found, queries) is Ok,
    ensures
        found_asins(found, queries)->Ok_0.contains(id) <==> found.contains(id) || exists|k: int|
            0 <= k < queries.len() && query_asins(#[trigger] queries[k])->Ok_0.contains(id),
        forall|k: int| 0 <= k < queries.len() ==> query_asins(#[trigger] queries[k]) is Ok,
    decreases queries.len(),
{
    if queries.len() > 0 {
        let rest = queries.drop_first();
        let asins = query_asins(queries[0])->Ok_0;
        crate::lists::lemma_unique_from(found, asins);
        lemma_found(unique_from(found, asins), rest, id);
        assert forall|k: int| 0 < k < queries.len() implies (#[trigger] queries[k]) == rest[k
            - 1] by {}
        if exists|k: int|
            0 <= k < rest.len() && query_asins(#[trigger] rest[k])->Ok_0.contains(id) {
            let k = choose|k: int|
                0 <= k < rest.len() && query_asins(#[trigger] rest[k])->Ok_0.contains(id);
            assert(query_asins(queries[k + 1])->Ok_0.contains(id));
        }
        if exists|k: int|
            0 <= k < queries.len() && query_asins(#[trigger] queries[k])->Ok_0.contains(id) {
            let k = choose|k: int|
                0 <= k < queries.len() && query_asins(#[trigger] queries[k])->Ok_0.contains(id);
            if k > 0 {
                assert(query_asins(rest[k - 1])->Ok_0.contains(id));
            }
        }
    }
}

/// Whether a search brings an id: it is not blank, and the id is that of the only
/// result that it offers, or of one that the user picked.
pub open spec fn query_gives(query: CatalogQuery, id: Seq<char>) -> bool {
    &&& trimmed(query.query@).len() > 0
    &&& exists|r: int|
        0 <= r < offered(query).len() && (#[trigger] offered(query)[r]).0 == id && (
        offered(query).len() == 1 || (query.picked matches Some(list) && exists|m: int|
            0 <= m < list@.len() && #[trigger] list@[m] == r))
}

proof fn lemma_query_gives(query: CatalogQuery, id: Seq<char>)
    requires
        query_asins(query) is Ok,
        fits_offer(query),
    ensures
        query_asins(query)->Ok_0.contains(id) <==> query_gives(query, id),
{
    let hits = offered(query);
    let asins = query_asins(query)->Ok_0;
    if trimmed(query.query@).len() > 0 && hits.len() > 0 {
        if hits.len() == 1 {
            assert(asins[0] == hits[0].0);
        } else {
            let list = query.picked->Some_0@;
            if asins.contains(id) {
                let m = choose|m: int| 0 <= m < asins.len() && asins[m] == id;
                let r = list[m] as int;
                assert(list[m] < hits.len());
                assert(hits[r].0 == id);
            }
            if query_gives(query, id) {
                let r = choose|r: int|
                    0 <= r < hits.len() && (#[trigger] hits[r]).0 == id && (hits.len() == 1
                        || exists|m: int| 0 <= m < list.len() && #[trigger] list[m] == r);
                let m = choose|m: int| 0 <= m < list.len() && #[trigger] list[m] == r;
                assert(asins[m] == id);
            }
        }
    }
}

/// What is resolved is what was asked for: every id that was given and is not
/// blank, trimmed, and what each search brings; and nothing else.
pub proof fn law_catalog_resolves_what_was_asked_for(
    asins: Seq<Seq<char>>,
    queries: Seq<CatalogQuery>,
    id: Seq<char>,
)
    requires
        found_asins(given_asins(Seq::empty(), asins), queries) is Ok,
        forall|k: int| 0 <= k < queries.len() ==> fits_offer(#[trigger] queries[k]),
    ensures
        found_asins(given_asins(Seq::empty(), asins), queries)->Ok_0.contains(id) <==> (id.len() > 0
            && exists|i: int| 0 <= i < asins.len() && trimmed(#[trigger] asins[i]) == id) || exists|
            k: int,
        |
            0 <= k < queries.len() && query_gives(#[trigger] queries[k], id),
{
    lemma_given(Seq::empty(), asins, id);
    lemma_found(given_asins(Seq::empty(), asins), queries, id);
    assert forall|k: int| 0 <= k < queries.len() implies (query_asins(
        #[trigger] queries[k],
    )->Ok_0.contains(id) <==> query_gives(queries[k], id)) by {
        assert(query_asins(queries[k]) is Ok);
        lemma_query_gives(queries[k], id);
    }
    if exists|k: int|
        0 <= k < queries.len() && query_asins(#[trigger] queries[k])->Ok_0.contains(id) {
        let k = choose|k: int|
            0 <= k < queries.len() && query_asins(#[trigger] queries[k])->Ok_0.contains(id);
        assert(query_gives(queries[k], id));
    }
    if exists|k: int| 0 <= k < queries.len() && query_gives(#[trigger] queries[k], id) {
        let k = choose|k: int| 0 <= k < queries.len() && query_gives(#[trigger] queries[k], id);
        assert(query_asins(queries[k])->Ok_0.contains(id));
    }
}

/// A search fails only where it offers several results and nobody picked.
pub proof fn law_searches_fail_for_cause(query: CatalogQuery)
    ensures
        query_asins(query) is Err <==> trimmed(query.query@).len() > 0 && offered(query).len() > 1
            && query.picked is None,
{
}

/// How a result is shown: by its id and its full title, and behind them its
/// publication where the title does not hold it, its authors and how long it plays.
pub proof fn law_results_are_labelled(asin: Seq<char>, details: DetailsView)
    ensures
        details.publication is None && details.authors.len() == 0 && details.runtime_min is None
            ==> hit_text((asin, details)) == asin + "  "@ + full_title_of(details),
        details.publication matches Some(text) ==> (extras_of(details).len() > 0
            && extras_of(details)[0] == text) || holds(
            unicode_lower(full_title_of(details)),
            unicode_lower(text),
        ),
        details.authors.len() > 0 ==> extras_of(details).contains(details.authors),
        details.runtime_min matches Some(minutes) ==> extras_of(details).len() > 0 && extras_of(
            details,
        ).last() == runtime_text(minutes as int),
        extras_of(details).len() > 0 ==> hit_text((asin, details)) == asin + "  "@
            + full_title_of(details) + "  ["@ + joined(extras_of(details), " · "@) + "]"@,
{
    let extras = extras_of(details);
    if details.authors.len() > 0 {
        if details.publication is Some && !holds(
            unicode_lower(full_title_of(details)),
            unicode_lower(details.publication->Some_0),
        ) {
            assert(extras[1] == details.authors);
        } else {
            assert(extras[0] == details.authors);
        }
    }
}

/// The products of an answer are those that it names, all of them and in order.
pub proof fn law_answers_hold_products(body: JsonView, list: Seq<JsonView>)
    ensures
        field(body, "products"@) == Some(JsonView::Array(list)) ==> products_of(body) == list,
        field(body, "products"@) is None ==> products_of(body).len() == 0,
{
}

/// Several results of which nobody can pick are all listed, one a line, under the search
/// and with their number.
pub proof fn law_ambiguous_searches_list_their_results(
    query: Seq<char>,
    hits: Seq<(Seq<char>, DetailsView)>,
    hit: (Seq<char>, DetailsView),
)
    requires
        hits.len() > 0,
        hits.len() < usize::MAX,
    ensures
        chosen(query, hits.push(hit), None) matches Err(
            CatalogError::Ambiguous { count, query: named, listing },
        ) && count == hits.len() + 1 && named == query && listing == listing_of(hits.push(hit)),
        listing_of(hits.push(hit)) == listing_of(hits) + "\n"@ + ("  "@ + hit_text(hit)),
        listing_of(seq![hit]) == "  "@ + hit_text(hit),
{
    let show = |h: (Seq<char>, DetailsView)| "  "@ + hit_text(h);
    let lines = hits.map_values(show);
    assert(hits.push(hit).map_values(show) =~= lines.push(show(hit)));
    assert(seq![hit].map_values(show) =~= seq![show(hit)]);
    crate::text::law_texts_are_joined_in_order(lines, show(hit), "\n"@);
}

} // verus!
