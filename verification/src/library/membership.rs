//! Membership of the library: what can be added to it and removed from it.

use vstd::prelude::*;
use vstd::string::StrSliceExecFns;
use vstd::string::StringExecFns;
use crate::catalog::Eligibility;
use crate::catalog::EligibilityView;
use crate::catalog::borrowable;
use crate::json::Json;
use crate::json::JsonView;
use crate::json::document;
use crate::json::flag_field;
use crate::json::text_field;
use crate::lists::holds_text;
use crate::text::cat2;
use crate::text::cat3;
use crate::text::cat4;
use crate::text::cat5;
use crate::text::decimal;
use crate::text::empty_text;
use crate::text::join;
use crate::text::joined;
use crate::text::number;
use crate::text::opt_str;
use crate::text::same;
use crate::text::texts;

verus! {

/// What a member of the library is; it decides the words only.
#[derive(Clone, Copy, Debug, PartialEq, Eq, Structural)]
pub enum Kind {
    /// An audiobook: it is borrowed and returned.
    Audiobook,
    /// A podcast: it is followed.
    Podcast,
    /// A single episode: it is added and removed.
    Episode,
}

/// What a member is, by how it is delivered.
pub open spec fn kind_of(delivery: Option<Seq<char>>) -> Kind {
    if delivery == Some("PodcastParent"@) || delivery == Some("Periodical"@) {
        Kind::Podcast
    } else if delivery == Some("PodcastEpisode"@) {
        Kind::Episode
    } else {
        Kind::Audiobook
    }
}

/// The word for a kind in a `--kind`.
pub open spec fn kind_word(kind: Kind) -> Seq<char> {
    match kind {
        Kind::Audiobook => "book"@,
        Kind::Podcast => "podcast"@,
        Kind::Episode => "episode"@,
    }
}

/// Whether a kind is meant by a `--kind`; none given means all.
pub open spec fn kind_meant(kind: Kind, kinds: Seq<Seq<char>>) -> bool {
    kinds.len() == 0 || kinds.contains(kind_word(kind))
}

/// What is said once a member was added.
pub open spec fn added_text(kind: Kind, named: Seq<char>) -> Seq<char> {
    match kind {
        Kind::Audiobook => "borrowed "@ + named,
        Kind::Podcast => "now following "@ + named,
        Kind::Episode => "added episode "@ + named,
    }
}

/// What is said once a member was removed.
pub open spec fn removed_text(kind: Kind, named: Seq<char>) -> Seq<char> {
    match kind {
        Kind::Audiobook => "returned "@ + named,
        Kind::Podcast => "unfollowed "@ + named,
        Kind::Episode => "removed episode "@ + named,
    }
}

/// Why something cannot be added.
pub open spec fn unavailable_text(kind: Kind, named: Seq<char>) -> Seq<char> {
    match kind {
        Kind::Audiobook => named + " isn't available to borrow — it's purchase-only"@,
        Kind::Podcast => named + " isn't available to follow"@,
        Kind::Episode => named + " isn't available to add"@,
    }
}

impl Kind {
    /// Tells what a member is, by how it is delivered.
    pub fn classify(content_delivery_type: Option<&str>) -> (kind: Kind)
        ensures
            kind == kind_of(opt_str(content_delivery_type)),
    {
        match content_delivery_type {
            Some(delivery) => {
                if same(delivery, "PodcastParent") || same(delivery, "Periodical") {
                    Kind::Podcast
                } else if same(delivery, "PodcastEpisode") {
                    Kind::Episode
                } else {
                    Kind::Audiobook
                }
            },
            None => Kind::Audiobook,
        }
    }

    /// The word for the kind in a `--kind`.
    pub fn as_filter(self) -> (word: &'static str)
        ensures
            word@ == kind_word(self),
    {
        match self {
            Kind::Audiobook => "book",
            Kind::Podcast => "podcast",
            Kind::Episode => "episode",
        }
    }

    /// Whether the kind is meant by a `--kind`; none given means all.
    pub fn passes(self, kinds: &Vec<String>) -> (yes: bool)
        ensures
            yes == kind_meant(self, texts(kinds@)),
    {
        kinds.len() == 0 || holds_text(kinds, self.as_filter())
    }

    /// What is said once a member was added.
    pub fn added(self, named: &str) -> (text: String)
        ensures
            text@ == added_text(self, named@),
    {
        match self {
            Kind::Audiobook => cat2("borrowed ", named),
            Kind::Podcast => cat2("now following ", named),
            Kind::Episode => cat2("added episode ", named),
        }
    }

    /// What is said once a member was removed.
    pub fn removed(self, named: &str) -> (text: String)
        ensures
            text@ == removed_text(self, named@),
    {
        match self {
            Kind::Audiobook => cat2("returned ", named),
            Kind::Podcast => cat2("unfollowed ", named),
            Kind::Episode => cat2("removed episode ", named),
        }
    }

    /// Why something cannot be added.
    pub fn unavailable(self, named: &str) -> (text: String)
        ensures
            text@ == unavailable_text(self, named@),
    {
        match self {
            Kind::Audiobook => cat2(named, " isn't available to borrow — it's purchase-only"),
            Kind::Podcast => cat2(named, " isn't available to follow"),
            Kind::Episode => cat2(named, " isn't available to add"),
        }
    }
}

/// An item by its id and, where it is known, its title.
pub open spec fn named_text(asin: Seq<char>, title: Seq<char>) -> Seq<char> {
    if title.len() == 0 {
        asin
    } else {
        asin + " ("@ + title + ")"@
    }
}

fn name_item(asin: &str, title: &str) -> (named: String)
    ensures
        named@ == named_text(asin@, title@),
{
    if title.is_empty() {
        String::from_str(asin)
    } else {
        cat4(asin, " (", title, ")")
    }
}

/// What is said of an item that is of another kind than meant.
pub open spec fn skipped_text(named: Seq<char>, kind: Kind, kinds: Seq<Seq<char>>) -> Seq<char> {
    named + " is a "@ + kind_word(kind) + " — skipped by --kind "@ + joined(kinds, ","@)
}

fn skipped(named: &str, kind: Kind, kinds: &Vec<String>) -> (text: String)
    ensures
        text@ == skipped_text(named@, kind, texts(kinds@)),
{
    cat5(named, " is a ", kind.as_filter(), " — skipped by --kind ", join(kinds, ",").as_str())
}

/// What becomes of an item that is to be added.
pub enum AddView {
    /// It is left out, for this reason.
    Skip(Seq<char>),
    /// It is added; this is said once it was.
    Add(Seq<char>),
}

/// What becomes of an item that is to be added.
#[derive(Debug)]
pub enum AddStep {
    /// It is left out, for this reason.
    Skip(String),
    /// It is added; this is said once it was.
    Add(String),
}

impl View for AddStep {
    type V = AddView;

    open spec fn view(&self) -> AddView {
        match *self {
            AddStep::Skip(text) => AddView::Skip(text@),
            AddStep::Add(text) => AddView::Add(text@),
        }
    }
}

/// What becomes of an item that is to be added: one that is in the library, is
/// of another kind than meant, is owned, or cannot be borrowed is left out.
pub open spec fn addition(
    asin: Seq<char>,
    in_library: bool,
    entry: Option<EligibilityView>,
    kinds: Seq<Seq<char>>,
) -> AddView {
    let title = match entry {
        Some(e) => e.full_title,
        None => Seq::empty(),
    };
    let delivery = match entry {
        Some(e) => e.content_delivery_type,
        None => None,
    };
    let named = named_text(asin, title);
    let kind = kind_of(delivery);
    if in_library {
        AddView::Skip(asin + " is already in your library; skipping"@)
    } else if !kind_meant(kind, kinds) {
        AddView::Skip(skipped_text(named, kind, kinds))
    } else if entry is Some && borrowable(entry->Some_0) {
        AddView::Add(added_text(kind, named))
    } else if entry is Some && entry->Some_0.is_consumable_indefinitely == Some(true) {
        AddView::Skip(named + " is already owned — a purchase can't be added this way"@)
    } else {
        AddView::Skip(unavailable_text(kind, named))
    }
}

/// What is known of an item, in texts.
pub open spec fn entry_view(entry: Option<&Eligibility>) -> Option<EligibilityView> {
    match entry {
        Some(e) => Some(e@),
        None => None,
    }
}

/// Decides about an item that is to be added.
pub fn add_step(asin: &str, in_library: bool, entry: Option<&Eligibility>, kinds: &Vec<String>) -> (step: AddStep)
    ensures
        step@ == addition(asin@, in_library, entry_view(entry), texts(kinds@)),
{
    if in_library {
        return AddStep::Skip(cat2(asin, " is already in your library; skipping"));
    }
    let empty = empty_text();
    let title: &str = match entry {
        Some(e) => e.full_title.as_str(),
        None => empty.as_str(),
    };
    let delivery: Option<&str> = match entry {
        Some(e) => match &e.content_delivery_type {
            Some(text) => Some(text.as_str()),
            None => None,
        },
        None => None,
    };
    let named = name_item(asin, title);
    let kind = Kind::classify(delivery);
    if !kind.passes(kinds) {
        return AddStep::Skip(skipped(named.as_str(), kind, kinds));
    }
    if let Some(e) = entry {
        if e.is_borrowable() {
            return AddStep::Add(kind.added(named.as_str()));
        }
        let owned = match e.is_consumable_indefinitely {
            Some(flag) => flag,
            None => false,
        };
        if owned {
            return AddStep::Skip(
                cat2(named.as_str(), " is already owned — a purchase can't be added this way"),
            );
        }
    }
    AddStep::Skip(kind.unavailable(named.as_str()))
}

/// What becomes of an item that is to be removed.
#[derive(Debug)]
pub enum RemoveStep {
    /// It is left out, for this reason.
    Skip(String),
    /// It is removed.
    Target {
        /// How it is called.
        named: String,
        /// What it is.
        kind: Kind,
    },
}

/// What becomes of an item that is to be removed.
pub enum RemoveView {
    /// It is left out, for this reason.
    Skip(Seq<char>),
    /// It is removed.
    Target {
        /// How it is called.
        named: Seq<char>,
        /// What it is.
        kind: Kind,
    },
}

impl View for RemoveStep {
    type V = RemoveView;

    open spec fn view(&self) -> RemoveView {
        match *self {
            RemoveStep::Skip(text) => RemoveView::Skip(text@),
            RemoveStep::Target { named, kind } => RemoveView::Target { named: named@, kind },
        }
    }
}

/// What a stored document says; nothing at all where it is no JSON.
pub open spec fn doc_view(doc: Seq<u8>) -> JsonView {
    match document(doc) {
        Some(json) => json,
        None => JsonView::Null,
    }
}

/// Whether a document is that of an item that can be removed: the flag says so,
/// and it was not bought.
pub open spec fn is_removable(doc: JsonView) -> bool {
    flag_field(doc, "is_removable"@) == Some(true) && text_field(doc, "origin_type"@) != Some(
        "Purchase"@,
    )
}

/// The title in a document; empty where there is none.
pub open spec fn title_of(doc: JsonView) -> Seq<char> {
    match text_field(doc, "title"@) {
        Some(title) => title,
        None => Seq::empty(),
    }
}

/// What becomes of an item that is to be removed, by its document.
pub open spec fn removal_of(asin: Seq<char>, doc: JsonView, kinds: Seq<Seq<char>>) -> RemoveView {
    let named = named_text(asin, title_of(doc));
    let kind = kind_of(text_field(doc, "content_delivery_type"@));
    if !is_removable(doc) {
        RemoveView::Skip(named + " is a purchase — it can't be removed from the library"@)
    } else if !kind_meant(kind, kinds) {
        RemoveView::Skip(skipped_text(named, kind, kinds))
    } else {
        RemoveView::Target { named, kind }
    }
}

/// Decides about an item of the library that is to be removed, by what its
/// document says.
pub fn removal_step(asin: &str, doc: &Json, kinds: &Vec<String>) -> (step: RemoveStep)
    ensures
        step@ == removal_of(asin@, doc@, texts(kinds@)),
{
    let empty = empty_text();
    let title: &str = match doc.get_str("title") {
        Some(title) => title,
        None => empty.as_str(),
    };
    let named = name_item(asin, title);
    let removable = match doc.get_bool("is_removable") {
        Some(flag) => flag,
        None => false,
    };
    let owned = match doc.get_str("origin_type") {
        Some(origin) => same(origin, "Purchase"),
        None => false,
    };
    if owned || !removable {
        return RemoveStep::Skip(
            cat2(named.as_str(), " is a purchase — it can't be removed from the library"),
        );
    }
    let kind = Kind::classify(doc.get_str("content_delivery_type"));
    if !kind.passes(kinds) {
        return RemoveStep::Skip(skipped(named.as_str(), kind, kinds));
    }
    RemoveStep::Target { named, kind }
}

/// Decides about an item that is to be removed; `doc` is its stored document,
/// where it is in the library.
pub fn remove_step(asin: &str, doc: Option<&str>, kinds: &Vec<String>) -> (step: RemoveStep)
    ensures
        step@ == match doc {
            Some(text) => removal_of(
                asin@,
                doc_view(vstd::utf8::encode_utf8(text@)),
                texts(kinds@),
            ),
            None => RemoveView::Skip(asin@ + " is not in your library; skipping"@),
        },
{
    match doc {
        Some(text) => {
            let bytes = text.as_bytes_vec();
            let parsed = match Json::parse(bytes.as_slice()) {
                Some(json) => json,
                None => Json::Null,
            };
            removal_step(asin, &parsed, kinds)
        },
        None => RemoveStep::Skip(cat2(asin, " is not in your library; skipping")),
    }
}

/// A purchase is never removed from the library, and neither is what is of
/// another kind than meant.
pub proof fn law_purchases_stay(asin: Seq<char>, doc: JsonView, kinds: Seq<Seq<char>>)
    requires
        removal_of(asin, doc, kinds) is Target,
    ensures
        text_field(doc, "origin_type"@) != Some("Purchase"@),
        flag_field(doc, "is_removable"@) == Some(true),
        kind_meant(kind_of(text_field(doc, "content_delivery_type"@)), kinds),
{
}

/// What cannot be borrowed is never added, nor what is in the library already
/// or of another kind than meant.
pub proof fn law_only_loans_are_added(
    asin: Seq<char>,
    in_library: bool,
    entry: Option<EligibilityView>,
    kinds: Seq<Seq<char>>,
)
    requires
        addition(asin, in_library, entry, kinds) is Add,
    ensures
        !in_library,
        entry is Some && borrowable(entry->Some_0),
        kind_meant(kind_of(entry->Some_0.content_delivery_type), kinds),
{
}

/// The question before items are removed.
pub fn removal_question(names: &Vec<String>) -> (text: String)
    ensures
        text@ == "Remove "@ + decimal(names@.len() as int)
            + " item(s) from your library (downloaded files are kept): "@ + joined(
            texts(names@),
            ", "@,
        ) + "?"@,
{
    cat5(
        "Remove ",
        number(names.len() as u64).as_str(),
        " item(s) from your library (downloaded files are kept): ",
        join(names, ", ").as_str(),
        "?",
    )
}

/// The path under which an item is removed.
pub fn removal_path(asin: &str) -> (path: String)
    ensures
        path@ == "/1.0/library/item/"@ + asin@ + "/default_loan_ID"@,
{
    cat3("/1.0/library/item/", asin, "/default_loan_ID")
}

/// What a member is, by how it is delivered: a show, or a periodical, is a podcast,
/// an episode of one an episode, and anything else a book, which is also what each
/// is called in a `--kind`.
pub proof fn law_members_are_told_by_delivery(delivery: Option<Seq<char>>)
    ensures
        kind_of(delivery) is Podcast <==> delivery == Some("PodcastParent"@) || delivery == Some(
            "Periodical"@,
        ),
        kind_of(delivery) is Episode <==> delivery == Some("PodcastEpisode"@),
        kind_word(Kind::Podcast) == "podcast"@,
        kind_word(Kind::Episode) == "episode"@,
        kind_word(Kind::Audiobook) == "book"@,
{
    reveal_strlit("PodcastParent");
    reveal_strlit("PodcastEpisode");
    reveal_strlit("Periodical");
    assert("PodcastParent"@.len() == 13);
    assert("PodcastEpisode"@.len() == 14);
    assert("Periodical"@.len() == 10);
}

/// Without a `--kind` every member is meant; with one exactly those whose word is
/// among the words.
pub proof fn law_kinds_are_meant_by_their_words(kind: Kind, kinds: Seq<Seq<char>>)
    ensures
        kind_meant(kind, Seq::empty()),
        kinds.len() > 0 ==> (kind_meant(kind, kinds) <==> exists|i: int|
            0 <= i < kinds.len() && (#[trigger] kinds[i]) == kind_word(kind)),
{
}

/// Whatever can be borrowed, is not there yet and is of a kind that is meant is
/// added, and nothing else is; what is said of it is of its kind and names it.
pub proof fn law_loans_are_added(
    asin: Seq<char>,
    in_library: bool,
    entry: Option<EligibilityView>,
    kinds: Seq<Seq<char>>,
)
    ensures
        addition(asin, in_library, entry, kinds) is Add <==> !in_library && entry is Some
            && borrowable(entry->Some_0) && kind_meant(
            kind_of(entry->Some_0.content_delivery_type),
            kinds,
        ),
        addition(asin, in_library, entry, kinds) matches AddView::Add(text) ==> text
            == match kind_of(entry->Some_0.content_delivery_type) {
            Kind::Audiobook => "borrowed "@,
            Kind::Podcast => "now following "@,
            Kind::Episode => "added episode "@,
        } + named_text(asin, entry->Some_0.full_title),
        in_library ==> addition(asin, in_library, entry, kinds) == AddView::Skip(
            asin + " is already in your library; skipping"@,
        ),
        !in_library && entry is None && kind_meant(Kind::Audiobook, kinds) ==> addition(
            asin,
            in_library,
            entry,
            kinds,
        ) == AddView::Skip(asin + " isn't available to borrow — it's purchase-only"@),
{
    reveal_strlit("PodcastParent");
    reveal_strlit("PodcastEpisode");
    reveal_strlit("Periodical");
}

/// Whatever can be removed, was not bought and is of a kind that is meant is
/// removed, and nothing else is.
pub proof fn law_loans_are_removed(asin: Seq<char>, doc: JsonView, kinds: Seq<Seq<char>>)
    ensures
        removal_of(asin, doc, kinds) is Target <==> {
            &&& flag_field(doc, "is_removable"@) == Some(true)
            &&& text_field(doc, "origin_type"@) != Some("Purchase"@)
            &&& kind_meant(kind_of(text_field(doc, "content_delivery_type"@)), kinds)
        },
        removal_of(asin, doc, kinds) matches RemoveView::Target { named, kind } ==> {
            &&& kind == kind_of(text_field(doc, "content_delivery_type"@))
            &&& text_field(doc, "title"@) is None ==> named == asin
            &&& text_field(doc, "title"@) matches Some(title) ==> title.len() > 0 ==> named == asin
                + " ("@ + title + ")"@
        },
{
}

/// What is said once a member was removed is of its kind and names it.
pub proof fn law_removals_are_told(named: Seq<char>)
    ensures
        removed_text(Kind::Audiobook, named) == "returned "@ + named,
        removed_text(Kind::Podcast, named) == "unfollowed "@ + named,
        removed_text(Kind::Episode, named) == "removed episode "@ + named,
{
}

/// A stored document that cannot be read says nothing: its item is no loan, and stays.
pub proof fn law_unreadable_documents_remove_nothing(
    asin: Seq<char>,
    bytes: Seq<u8>,
    kinds: Seq<Seq<char>>,
)
    ensures
        document(bytes) is None ==> !(removal_of(asin, doc_view(bytes), kinds) is Target),
        document(bytes) matches Some(doc) ==> doc_view(bytes) == doc,
{
}

} // verus!
