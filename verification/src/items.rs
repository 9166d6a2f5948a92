//! Which items a command works on: explicit ids and title searches, resolved
//! into one list without repeats.

use vstd::prelude::*;
use vstd::string::StringExecFns;
use crate::lists::add_text;
use crate::lists::lemma_unique_from;
use crate::lists::unique_from;
use crate::text::cat2;
use crate::text::cat3;
use crate::text::cat5;
use crate::text::chars_of;
use crate::text::decimal;
use crate::text::find_last;
use crate::text::join;
use crate::text::joined;
use crate::text::last_at;
use crate::text::number;
use crate::text::parse_up_to;
use crate::text::quoted;
use crate::text::quoted_form;
use crate::text::same;
use crate::text::slice_text;
use crate::text::texts;
use crate::text::trim;
use crate::text::trimmed;
use crate::text::unsigned_value;
use crate::text_map::TextSet;
use crate::text::opt_str;

verus! {

/// How many matches of a title search are taken unless it says otherwise.
pub const DEFAULT_TITLE_CAP: usize = 15;

/// How many candidates an ambiguity names.
pub const MAX_LISTED: usize = 20;

/// What keeps items from being resolved; `T` holds the texts that are named.
#[derive(Debug)]
pub enum ItemsError<T> {
    /// The cap behind the `~` of a title search is no number from 1 on.
    TitleCap(T),
    /// A title search has several matches and nobody can be asked.
    Ambiguous {
        /// How many matches.
        count: usize,
        /// What was searched for.
        query: T,
        /// What to do about it.
        hint: T,
        /// The matches, one a line.
        listing: T,
    },
}

impl View for ItemsError<String> {
    type V = ItemsError<Seq<char>>;

    open spec fn view(&self) -> ItemsError<Seq<char>> {
        match *self {
            ItemsError::TitleCap(raw) => ItemsError::TitleCap(raw@),
            ItemsError::Ambiguous { count, query, hint, listing } => ItemsError::Ambiguous {
                count,
                query: query@,
                hint: hint@,
                listing: listing@,
            },
        }
    }
}

impl ItemsError<String> {
    /// The words that tell the user of the fault.
    pub fn message(&self) -> (text: String)
        ensures
            text@ == match self@ {
                ItemsError::TitleCap(raw) => "invalid --title cap in "@ + quoted_form(raw)
                    + ": expected \"query~N\" with N >= 1"@,
                ItemsError::Ambiguous { count, query, hint, listing } => decimal(count as int)
                    + " titles match "@ + quoted_form(query) + hint + ":\n"@ + listing,
            },
    {
        match self {
            ItemsError::TitleCap(raw) => cat3(
                "invalid --title cap in ",
                quoted(raw.as_str()).as_str(),
                ": expected \"query~N\" with N >= 1",
            ),
            ItemsError::Ambiguous { count, query, hint, listing } => {
                let mut text = cat5(
                    number(*count as u64).as_str(),
                    " titles match ",
                    quoted(query.as_str()).as_str(),
                    hint.as_str(),
                    ":\n",
                );
                text.append(listing.as_str());
                text
            },
        }
    }
}

/// A title search and how many matches it takes.
#[derive(Debug)]
pub struct TitleQuery {
    /// What is searched for.
    pub query: String,
    /// How many matches are taken.
    pub cap: usize,
}

/// The search that a `--title` stands for: `query~N` takes at most `N` matches.
pub open spec fn title_query(raw: Seq<char>) -> Result<(Seq<char>, usize), ItemsError<Seq<char>>> {
    let tilde = last_at(raw, '~');
    if tilde < 0 {
        Ok((trimmed(raw), DEFAULT_TITLE_CAP))
    } else {
        match unsigned_value(
            trimmed(raw.subrange(tilde + 1, raw.len() as int)),
            usize::MAX as int,
        ) {
            Some(n) => if n >= 1 {
                Ok((trimmed(raw.subrange(0, tilde)), n as usize))
            } else {
                Err(ItemsError::TitleCap(raw))
            },
            None => Err(ItemsError::TitleCap(raw)),
        }
    }
}

/// Reads a `--title`.
pub fn parse_title_arg(raw: &str) -> (query: Result<TitleQuery, ItemsError<String>>)
    ensures
        match query {
            Ok(q) => title_query(raw@) == Ok::<(Seq<char>, usize), ItemsError<Seq<char>>>(
                (q.query@, q.cap),
            ),
            Err(e) => title_query(raw@) == Err::<(Seq<char>, usize), ItemsError<Seq<char>>>(e@),
        },
{
    let chars = chars_of(raw);
    match find_last(&chars, '~') {
        None => Ok(TitleQuery { query: trim(raw), cap: DEFAULT_TITLE_CAP }),
        Some(tilde) => {
            let end: usize = chars.len();
            let query = slice_text(&chars, 0, tilde);
            let cap_text = slice_text(&chars, tilde + 1, end);
            match parse_up_to(trim(cap_text.as_str()).as_str(), usize::MAX as u64) {
                Some(n) => {
                    if n >= 1 {
                        Ok(TitleQuery { query: trim(query.as_str()), cap: n as usize })
                    } else {
                        Err(ItemsError::TitleCap(String::from_str(raw)))
                    }
                },
                None => Err(ItemsError::TitleCap(String::from_str(raw))),
            }
        },
    }
}

/// How podcast shows and their episodes are treated.
#[derive(Clone, Copy, Debug, PartialEq, Eq, Structural)]
pub enum PodcastMode {
    /// Episodes are not searched; shows pass through as items.
    ItemsOnly,
    /// Episodes are targets of a title search; shows pass through.
    Episodes,
    /// Episodes are targets, and a show stands for its episodes. Without
    /// `podcasts` all podcast content is dropped.
    Download {
        /// Whether podcast content is wanted.
        podcasts: bool,
    },
}

impl PodcastMode {
    /// Whether a title search finds episodes.
    pub fn surfaces_episodes(self) -> (yes: bool)
        ensures
            yes == !(self is ItemsOnly),
    {
        !matches!(self, PodcastMode::ItemsOnly)
    }
}

/// What an item of the library is.
#[derive(Clone, Copy, Debug, PartialEq, Eq, Structural)]
pub enum ItemKind {
    /// A podcast show.
    Podcast,
    /// An episode of a podcast.
    Episode,
    /// Anything else.
    Book,
}

/// The kind that a word stands for.
pub open spec fn kind_of(word: Seq<char>) -> ItemKind {
    if word == "podcast"@ {
        ItemKind::Podcast
    } else if word == "episode"@ {
        ItemKind::Episode
    } else {
        ItemKind::Book
    }
}

/// Reads the kind of an item.
pub fn item_kind(word: &str) -> (kind: ItemKind)
    ensures
        kind == kind_of(word@),
{
    if same(word, "podcast") {
        ItemKind::Podcast
    } else if same(word, "episode") {
        ItemKind::Episode
    } else {
        ItemKind::Book
    }
}

/// The kind of an item as a column eight characters wide.
pub open spec fn kind_column(kind: ItemKind) -> Seq<char> {
    match kind {
        ItemKind::Podcast => "podcast "@,
        ItemKind::Episode => "episode "@,
        ItemKind::Book => "book    "@,
    }
}

fn show_kind(kind: ItemKind) -> (column: &'static str)
    ensures
        column@ == kind_column(kind),
{
    match kind {
        ItemKind::Podcast => "podcast ",
        ItemKind::Episode => "episode ",
        ItemKind::Book => "book    ",
    }
}

/// An episode of a show.
#[derive(Debug)]
pub struct ShowEpisode {
    /// Its id.
    pub asin: String,
    /// Its title.
    pub full_title: String,
}

/// An item that a title search found.
#[derive(Debug)]
pub struct FoundItem {
    /// Its id.
    pub asin: String,
    /// What it is: `podcast`, `episode` or anything else.
    pub kind: String,
    /// Its title.
    pub full_title: String,
    /// Its episodes, for a show that is to be expanded.
    pub episodes: Vec<ShowEpisode>,
}

/// An episode that a title search found.
#[derive(Debug)]
pub struct FoundEpisode {
    /// Its id.
    pub asin: String,
    /// Its title.
    pub full_title: String,
    /// The title of its show.
    pub parent_title: String,
}

/// A row that is offered for a title search.
#[derive(Debug)]
pub struct Candidate {
    /// Its own id.
    pub asin: String,
    /// What it is.
    pub kind: ItemKind,
    /// Its title.
    pub title: String,
    /// How it is shown.
    pub label: String,
    /// For a show, the episodes that stand for it.
    pub expand: Option<Vec<String>>,
}

/// A row that is offered for a title search, in texts.
pub struct CandidateView {
    /// Its own id.
    pub asin: Seq<char>,
    /// What it is.
    pub kind: ItemKind,
    /// Its title.
    pub title: Seq<char>,
    /// How it is shown.
    pub label: Seq<char>,
    /// For a show, the episodes that stand for it.
    pub expand: Option<Seq<Seq<char>>>,
}

impl View for Candidate {
    type V = CandidateView;

    open spec fn view(&self) -> CandidateView {
        CandidateView {
            asin: self.asin@,
            kind: self.kind,
            title: self.title@,
            label: self.label@,
            expand: match self.expand {
                Some(list) => Some(texts(list@)),
                None => None,
            },
        }
    }
}

/// The rows of a list.
pub open spec fn rows_of(list: Seq<Candidate>) -> Seq<CandidateView> {
    list.map_values(|row: Candidate| row@)
}

/// The ids of episodes.
pub open spec fn episode_asins(list: Seq<ShowEpisode>) -> Seq<Seq<char>> {
    list.map_values(|episode: ShowEpisode| episode.asin@)
}

/// Whether the mode expands shows.
pub open spec fn expands(mode: PodcastMode) -> bool {
    mode matches PodcastMode::Download { podcasts } && podcasts
}

/// Whether the mode drops podcast content.
pub open spec fn excludes(mode: PodcastMode) -> bool {
    mode matches PodcastMode::Download { podcasts } && !podcasts
}

/// The row of a show: it stands for its episodes, never for itself.
pub open spec fn show_row(item: FoundItem) -> CandidateView {
    CandidateView {
        asin: item.asin@,
        kind: ItemKind::Podcast,
        title: item.full_title@,
        label: "podcast  "@ + item.asin@ + "  "@ + item.full_title@ + "  ("@ + decimal(
            item.episodes@.len() as int,
        ) + " episodes)"@,
        expand: Some(episode_asins(item.episodes@)),
    }
}

/// The row of an episode beneath its show.
pub open spec fn beneath_row(episode: ShowEpisode) -> CandidateView {
    CandidateView {
        asin: episode.asin@,
        kind: ItemKind::Episode,
        title: episode.full_title@,
        label: "  episode "@ + episode.asin@ + "  "@ + episode.full_title@,
        expand: None,
    }
}

/// The row of an item that stands for itself.
pub open spec fn item_row(item: FoundItem, mode: PodcastMode) -> CandidateView {
    CandidateView {
        asin: item.asin@,
        kind: kind_of(item.kind@),
        title: item.full_title@,
        label: if mode is Download {
            kind_column(kind_of(item.kind@)) + " "@ + item.asin@ + "  "@ + item.full_title@
        } else {
            item.asin@ + "  "@ + item.full_title@
        },
        expand: None,
    }
}

/// The row of an episode that was found by its own title.
pub open spec fn episode_row(hit: FoundEpisode, mode: PodcastMode) -> CandidateView {
    CandidateView {
        asin: hit.asin@,
        kind: ItemKind::Episode,
        title: hit.full_title@,
        label: if mode is Download {
            "episode  "@ + hit.asin@ + "  "@ + hit.full_title@ + "  (episode of "@
                + hit.parent_title@ + ")"@
        } else {
            hit.asin@ + "  "@ + hit.full_title@ + "  (episode of "@ + hit.parent_title@ + ")"@
        },
        expand: None,
    }
}

/// Whether an item is a show that the mode expands.
pub open spec fn is_show(item: FoundItem, mode: PodcastMode) -> bool {
    expands(mode) && kind_of(item.kind@) is Podcast
}

/// The rows of one found item; `beneath` says whether the episodes of a show
/// have rows of their own.
pub open spec fn rows_for_item(item: FoundItem, mode: PodcastMode, beneath: bool) -> Seq<
    CandidateView,
> {
    if excludes(mode) && !(kind_of(item.kind@) is Book) {
        Seq::empty()
    } else if is_show(item, mode) {
        seq![show_row(item)] + (if beneath {
            item.episodes@.map_values(|episode: ShowEpisode| beneath_row(episode))
        } else {
            Seq::empty()
        })
    } else {
        seq![item_row(item, mode)]
    }
}

/// The rows of the found items.
pub open spec fn rows_for_items(items: Seq<FoundItem>, mode: PodcastMode, beneath: bool) -> Seq<
    CandidateView,
>
    decreases items.len(),
{
    if items.len() == 0 {
        Seq::empty()
    } else {
        rows_for_items(items.drop_last(), mode, beneath) + rows_for_item(
            items.last(),
            mode,
            beneath,
        )
    }
}

/// The ids that the found items, and the episodes beneath them, have used up.
pub open spec fn seen_in_items(items: Seq<FoundItem>, mode: PodcastMode, beneath: bool) -> Set<
    Seq<char>,
>
    decreases items.len(),
{
    if items.len() == 0 {
        Set::empty()
    } else {
        let before = seen_in_items(items.drop_last(), mode, beneath).insert(items.last().asin@);
        if is_show(items.last(), mode) && beneath {
            before.union(episode_asins(items.last().episodes@).to_set())
        } else {
            before
        }
    }
}

/// The rows with those of the found episodes behind them whose ids are new.
pub open spec fn with_episodes(
    rows: Seq<CandidateView>,
    seen: Set<Seq<char>>,
    hits: Seq<FoundEpisode>,
    mode: PodcastMode,
) -> Seq<CandidateView>
    decreases hits.len(),
{
    if hits.len() == 0 {
        rows
    } else if seen.contains(hits[0].asin@) {
        with_episodes(rows, seen, hits.drop_first(), mode)
    } else {
        with_episodes(
            rows.push(episode_row(hits[0], mode)),
            seen.insert(hits[0].asin@),
            hits.drop_first(),
            mode,
        )
    }
}

/// How many of the found items are shows.
pub open spec fn show_count(items: Seq<FoundItem>) -> int
    decreases items.len(),
{
    if items.len() == 0 {
        0
    } else {
        show_count(items.drop_last()) + (if kind_of(items.last().kind@) is Podcast {
            1int
        } else {
            0int
        })
    }
}

/// The rows that a title search offers. Only a lone show has its episodes
/// beneath it; several stay collapsed.
pub open spec fn candidates(
    items: Seq<FoundItem>,
    hits: Seq<FoundEpisode>,
    mode: PodcastMode,
) -> Seq<CandidateView> {
    let beneath = expands(mode) && show_count(items) == 1;
    let rows = rows_for_items(items, mode, beneath);
    if mode is ItemsOnly || excludes(mode) {
        rows
    } else {
        with_episodes(rows, seen_in_items(items, mode, beneath), hits, mode)
    }
}

fn lone_show(items: &Vec<FoundItem>) -> (lone: bool)
    ensures
        lone == (show_count(items@) == 1),
{
    let mut count: usize = 0;
    let mut i: usize = 0;
    assert(show_count(items@.subrange(0, 0)) == 0);
    while i < items.len()
        invariant
            i <= items@.len(),
            count == show_count(items@.subrange(0, i as int)),
            count <= i,
        decreases items.len() - i,
    {
        assert(items@.subrange(0, i + 1).drop_last() =~= items@.subrange(0, i as int));
        if item_kind(items[i].kind.as_str()) == ItemKind::Podcast {
            count = count + 1;
        }
        i = i + 1;
    }
    assert(items@.subrange(0, i as int) =~= items@);
    count == 1
}

fn push_show(rows: &mut Vec<Candidate>, item: &FoundItem, beneath: bool, seen: &mut TextSet)
    ensures
        rows_of(final(rows)@) == rows_of(old(rows)@) + seq![show_row(*item)] + (if beneath {
            item.episodes@.map_values(|episode: ShowEpisode| beneath_row(episode))
        } else {
            Seq::empty()
        }),
        final(seen)@ == (if beneath {
            old(seen)@.union(episode_asins(item.episodes@).to_set())
        } else {
            old(seen)@
        }),
{
    let ghost start = rows_of(rows@);
    let ghost known = seen@;
    let ghost asins = episode_asins(item.episodes@);
    let mut expand: Vec<String> = Vec::new();
    let mut i: usize = 0;
    while i < item.episodes.len()
        invariant
            i <= item.episodes@.len(),
            expand@.len() == i,
            forall|k: int| 0 <= k < i ==> (#[trigger] expand@[k])@ == item.episodes@[k].asin@,
        decreases item.episodes.len() - i,
    {
        expand.push(item.episodes[i].asin.clone());
        i = i + 1;
    }
    assert(texts(expand@) =~= asins);
    let mut label = cat5(
        "podcast  ",
        item.asin.as_str(),
        "  ",
        item.full_title.as_str(),
        "  (",
    );
    label.append(number(item.episodes.len() as u64).as_str());
    label.append(" episodes)");
    let row = Candidate {
        asin: item.asin.clone(),
        kind: ItemKind::Podcast,
        title: item.full_title.clone(),
        label,
        expand: Some(expand),
    };
    rows.push(row);
    assert(rows_of(rows@) =~= start.push(row@));
    assert(row@ == show_row(*item));
    let ghost with_show = start + seq![show_row(*item)];
    assert(rows_of(rows@) =~= with_show);
    if !beneath {
        assert(with_show + Seq::<CandidateView>::empty() =~= with_show);
        return;
    }
    let ghost below = item.episodes@.map_values(|episode: ShowEpisode| beneath_row(episode));
    let mut k: usize = 0;
    assert(with_show + below.subrange(0, 0) =~= with_show);
    assert(known.union(asins.subrange(0, 0).to_set()) =~= known);
    while k < item.episodes.len()
        invariant
            k <= item.episodes@.len(),
            below == item.episodes@.map_values(|episode: ShowEpisode| beneath_row(episode)),
            asins == episode_asins(item.episodes@),
            rows_of(rows@) == with_show + below.subrange(0, k as int),
            seen@ == known.union(asins.subrange(0, k as int).to_set()),
        decreases item.episodes.len() - k,
    {
        let episode = &item.episodes[k];
        let ghost rows_before = rows_of(rows@);
        let mut label = cat3("  episode ", episode.asin.as_str(), "  ");
        label.append(episode.full_title.as_str());
        let row = Candidate {
            asin: episode.asin.clone(),
            kind: ItemKind::Episode,
            title: episode.full_title.clone(),
            label,
            expand: None,
        };
        assert(row@ == beneath_row(*episode));
        rows.push(row);
        seen.insert(episode.asin.clone());
        assert(rows_of(rows@) =~= rows_before.push(row@));
        assert(below.subrange(0, k + 1) =~= below.subrange(0, k as int).push(beneath_row(*episode)));
        assert(rows_of(rows@) =~= with_show + below.subrange(0, k + 1));
        assert(asins.subrange(0, k + 1) =~= asins.subrange(0, k as int).push(episode.asin@));
        assert(seen@ =~= known.union(asins.subrange(0, k + 1).to_set())) by {
            let small = asins.subrange(0, k as int);
            let big = asins.subrange(0, k + 1);
            assert forall|a: Seq<char>| big.contains(a) <==> small.contains(a) || a == episode.asin@ by {
                if small.contains(a) {
                    let j = choose|j: int| 0 <= j < small.len() && small[j] == a;
                    assert(big[j] == a);
                }
                assert(big[k as int] == episode.asin@);
            }
        }
        k = k + 1;
    }
    assert(below.subrange(0, k as int) =~= below);
    assert(asins.subrange(0, k as int) =~= asins);
}

/// Builds the rows that a title search offers, from the items and the episodes
/// that it found.
pub fn title_candidates(
    items: &Vec<FoundItem>,
    hits: &Vec<FoundEpisode>,
    mode: PodcastMode,
) -> (rows: Vec<Candidate>)
    ensures
        rows_of(rows@) == candidates(items@, hits@, mode),
{
    let (download, podcasts) = match mode {
        PodcastMode::Download { podcasts } => (true, podcasts),
        _ => (false, false),
    };
    let exclude = download && !podcasts;
    let beneath = download && podcasts && lone_show(items);
    let mut rows: Vec<Candidate> = Vec::new();
    let mut seen = TextSet::new();
    let mut i: usize = 0;
    assert(rows_of(rows@) =~= rows_for_items(items@.subrange(0, 0), mode, beneath));
    assert(seen@ =~= seen_in_items(items@.subrange(0, 0), mode, beneath));
    while i < items.len()
        invariant
            i <= items@.len(),
            download == (mode is Download),
            exclude == excludes(mode),
            (download && podcasts) == expands(mode),
            rows_of(rows@) == rows_for_items(items@.subrange(0, i as int), mode, beneath),
            seen@ == seen_in_items(items@.subrange(0, i as int), mode, beneath),
        decreases items.len() - i,
    {
        let item = &items[i];
        let ghost front = items@.subrange(0, i + 1);
        assert(front.drop_last() =~= items@.subrange(0, i as int));
        let ghost before = rows_of(rows@);
        seen.insert(item.asin.clone());
        let kind = item_kind(item.kind.as_str());
        if exclude && kind != ItemKind::Book {
            assert(before + Seq::<CandidateView>::empty() =~= before);
        } else if download && podcasts && kind == ItemKind::Podcast {
            push_show(&mut rows, item, beneath, &mut seen);
            assert(rows_of(rows@) =~= before + rows_for_item(*item, mode, beneath));
        } else {
            let label = if download {
                cat5(
                    show_kind(kind),
                    " ",
                    item.asin.as_str(),
                    "  ",
                    item.full_title.as_str(),
                )
            } else {
                cat3(item.asin.as_str(), "  ", item.full_title.as_str())
            };
            let row = Candidate {
                asin: item.asin.clone(),
                kind,
                title: item.full_title.clone(),
                label,
                expand: None,
            };
            assert(row@ == item_row(*item, mode));
            rows.push(row);
            assert(rows_of(rows@) =~= before + seq![item_row(*item, mode)]);
        }
        i = i + 1;
    }
    assert(items@.subrange(0, i as int) =~= items@);
    if !mode.surfaces_episodes() || exclude {
        return rows;
    }
    let ghost all = with_episodes(rows_of(rows@), seen@, hits@, mode);
    let mut k: usize = 0;
    assert(hits@.subrange(0, hits@.len() as int) =~= hits@);
    while k < hits.len()
        invariant
            k <= hits@.len(),
            download == (mode is Download),
            all == with_episodes(
                rows_of(rows@),
                seen@,
                hits@.subrange(k as int, hits@.len() as int),
                mode,
            ),
        decreases hits.len() - k,
    {
        let hit = &hits[k];
        let ghost rest = hits@.subrange(k as int, hits@.len() as int);
        let ghost before = rows_of(rows@);
        assert(rest[0] == *hit);
        assert(rest.drop_first() =~= hits@.subrange(k + 1, hits@.len() as int));
        if !seen.contains(hit.asin.as_str()) {
            seen.insert(hit.asin.clone());
            let mut label = if download {
                cat2("episode  ", hit.asin.as_str())
            } else {
                hit.asin.clone()
            };
            label.append("  ");
            label.append(hit.full_title.as_str());
            label.append("  (episode of ");
            label.append(hit.parent_title.as_str());
            label.append(")");
            let row = Candidate {
                asin: hit.asin.clone(),
                kind: ItemKind::Episode,
                title: hit.full_title.clone(),
                label,
                expand: None,
            };
            assert(row@ == episode_row(*hit, mode));
            rows.push(row);
            assert(rows_of(rows@) =~= before.push(episode_row(*hit, mode)));
        }
        k = k + 1;
    }
    rows
}

/// The ids that a chosen row stands for.
pub open spec fn chosen(row: CandidateView) -> Seq<Seq<char>> {
    match row.expand {
        None => seq![row.asin],
        Some(episodes) => episodes,
    }
}

/// Adds the ids that a chosen row stands for, those that are new.
pub fn choose_row(row: &Candidate, list: &mut Vec<String>)
    ensures
        texts(final(list)@) == unique_from(texts(old(list)@), chosen(row@)),
{
    let ghost start = texts(list@);
    match &row.expand {
        None => {
            let ghost one = seq![row.asin@];
            assert(one.drop_first() =~= Seq::<Seq<char>>::empty());
            assert(unique_from(start, one) == (if start.contains(row.asin@) {
                unique_from(start, one.drop_first())
            } else {
                unique_from(start.push(row.asin@), one.drop_first())
            }));
            add_text(list, row.asin.clone());
        },
        Some(episodes) => {
            add_texts(list, episodes);
        },
    }
}

fn add_texts(list: &mut Vec<String>, more: &Vec<String>)
    ensures
        texts(final(list)@) == unique_from(texts(old(list)@), texts(more@)),
{
    let ghost start = texts(list@);
    let ghost all = texts(more@);
    let mut i: usize = 0;
    assert(all.subrange(0, all.len() as int) =~= all);
    while i < more.len()
        invariant
            i <= more@.len(),
            all == texts(more@),
            unique_from(start, all) == unique_from(
                texts(list@),
                all.subrange(i as int, all.len() as int),
            ),
        decreases more.len() - i,
    {
        let ghost rest = all.subrange(i as int, all.len() as int);
        assert(rest[0] == more@[i as int]@);
        assert(rest.drop_first() =~= all.subrange(i + 1, all.len() as int));
        add_text(list, more[i].clone());
        i = i + 1;
    }
}

/// What the library knows of an id that was given.
#[derive(Debug)]
pub enum AsinClass {
    /// A show, with the ids of its episodes.
    Parent {
        /// The ids of its episodes.
        episodes: Vec<String>,
    },
    /// An episode.
    Episode,
    /// A book, or nothing that the library holds.
    Other,
}

/// What the library knows of an id that was given.
pub open spec fn class_of(
    item: Option<Seq<char>>,
    episodes: Vec<String>,
    is_episode: bool,
) -> AsinClass {
    match item {
        Some(word) => match kind_of(word) {
            ItemKind::Podcast => AsinClass::Parent { episodes },
            ItemKind::Episode => AsinClass::Episode,
            ItemKind::Book => AsinClass::Other,
        },
        None => if is_episode {
            AsinClass::Episode
        } else {
            AsinClass::Other
        },
    }
}

/// Classifies an id that was given: by the kind of the item that has it, else
/// as an episode where one has it.
pub fn classify_asin(item: Option<&str>, episodes: Vec<String>, is_episode: bool) -> (class: AsinClass)
    ensures
        class == class_of(opt_str(item), episodes, is_episode),
{
    match item {
        Some(word) => match item_kind(word) {
            ItemKind::Podcast => AsinClass::Parent { episodes },
            ItemKind::Episode => AsinClass::Episode,
            ItemKind::Book => AsinClass::Other,
        },
        None => if is_episode {
            AsinClass::Episode
        } else {
            AsinClass::Other
        },
    }
}

/// The ids that an id that was given stands for: in a download a show stands
/// for its episodes, and podcast content can be left out; everywhere else the
/// id is taken as it is.
pub open spec fn picked(asin: Seq<char>, class: AsinClass, mode: PodcastMode) -> Seq<Seq<char>> {
    match mode {
        PodcastMode::Download { podcasts } => match class {
            AsinClass::Parent { episodes } => if podcasts {
                texts(episodes@)
            } else {
                Seq::empty()
            },
            AsinClass::Episode => if podcasts {
                seq![asin]
            } else {
                Seq::empty()
            },
            AsinClass::Other => seq![asin],
        },
        _ => seq![asin],
    }
}

/// An id that was given, and what the library knows of it.
#[derive(Debug)]
pub struct GivenAsin {
    /// The id as it was given.
    pub asin: String,
    /// What the library knows of it.
    pub class: AsinClass,
}

/// A title search that was given, with what came of it.
#[derive(Debug)]
pub struct GivenTitle {
    /// The search as it was given.
    pub raw: String,
    /// The rows that it offers.
    pub candidates: Vec<Candidate>,
    /// Which rows the user picked; nothing where nobody can be asked.
    pub selection: Option<Vec<usize>>,
}

/// The list with the ids that were given behind it, those that are new; a blank
/// one is passed over.
pub open spec fn with_asins(
    list: Seq<Seq<char>>,
    given: Seq<GivenAsin>,
    mode: PodcastMode,
) -> Seq<Seq<char>>
    decreases given.len(),
{
    if given.len() == 0 {
        list
    } else {
        let asin = trimmed(given[0].asin@);
        with_asins(
            if asin.len() == 0 {
                list
            } else {
                unique_from(list, picked(asin, given[0].class, mode))
            },
            given.drop_first(),
            mode,
        )
    }
}

/// The list with the rows that were picked behind it, those ids that are new.
pub open spec fn with_selection(
    list: Seq<Seq<char>>,
    rows: Seq<CandidateView>,
    selection: Seq<usize>,
) -> Seq<Seq<char>>
    decreases selection.len(),
{
    if selection.len() == 0 {
        list
    } else {
        with_selection(
            unique_from(list, chosen(rows[selection[0] as int])),
            rows,
            selection.drop_first(),
        )
    }
}

/// What to do about several matches when nobody can be asked.
pub open spec fn ambiguity_hint(rows: Seq<CandidateView>) -> Seq<char> {
    if exists|i: int| 0 <= i < rows.len() && (#[trigger] rows[i]).kind is Podcast {
        "; a podcast show is among them — use --asin <ASIN> to take all its episodes, or narrow the query"@
    } else {
        "; pass --asin or run interactively"@
    }
}

/// The lines that name the first matches.
pub open spec fn ambiguity_lines(rows: Seq<CandidateView>) -> Seq<Seq<char>> {
    if rows.len() > MAX_LISTED {
        rows.subrange(0, MAX_LISTED as int).map_values(|row: CandidateView| "  "@ + row.label).push(
            "  … and "@ + decimal(rows.len() - MAX_LISTED) + " more"@,
        )
    } else {
        rows.map_values(|row: CandidateView| "  "@ + row.label)
    }
}

/// The fault of several matches when nobody can be asked.
pub open spec fn ambiguity(query: Seq<char>, rows: Seq<CandidateView>) -> ItemsError<Seq<char>> {
    ItemsError::Ambiguous {
        count: rows.len() as usize,
        query,
        hint: ambiguity_hint(rows),
        listing: joined(ambiguity_lines(rows), "\n"@),
    }
}

/// The list with what the title searches come to behind it, or the first
/// fault. A search without a match adds nothing, a single match is taken, of
/// several the user picks.
pub open spec fn with_titles(list: Seq<Seq<char>>, given: Seq<GivenTitle>) -> Result<
    Seq<Seq<char>>,
    ItemsError<Seq<char>>,
>
    decreases given.len(),
{
    if given.len() == 0 {
        Ok(list)
    } else {
        let rows = rows_of(given[0].candidates@);
        match title_query(given[0].raw@) {
            Err(error) => Err(error),
            Ok((query, _)) => if query.len() == 0 || rows.len() == 0 {
                with_titles(list, given.drop_first())
            } else if rows.len() == 1 {
                with_titles(unique_from(list, chosen(rows[0])), given.drop_first())
            } else {
                match given[0].selection {
                    None => Err(ambiguity(query, rows)),
                    Some(selection) => with_titles(
                        with_selection(list, rows, selection@),
                        given.drop_first(),
                    ),
                }
            },
        }
    }
}

/// Whether every pick is one of the rows.
pub open spec fn picks_in_range(title: GivenTitle) -> bool {
    title.selection matches Some(selection) ==> forall|i: int|
        0 <= i < selection@.len() ==> (#[trigger] selection@[i]) < title.candidates@.len()
}

fn ambiguous(query: String, rows: &Vec<Candidate>) -> (error: ItemsError<String>)
    ensures
        error@ == ambiguity(query@, rows_of(rows@)),
{
    let ghost all = rows_of(rows@);
    let mut show = false;
    let mut k: usize = 0;
    while k < rows.len()
        invariant
            k <= rows@.len(),
            all == rows_of(rows@),
            show == exists|i: int| 0 <= i < k && (#[trigger] all[i]).kind is Podcast,
        decreases rows.len() - k,
    {
        assert(all[k as int] == rows@[k as int]@);
        if rows[k].kind == ItemKind::Podcast {
            show = true;
        }
        k = k + 1;
    }
    let hint = if show {
        String::from_str(
            "; a podcast show is among them — use --asin <ASIN> to take all its episodes, or narrow the query",
        )
    } else {
        String::from_str("; pass --asin or run interactively")
    };
    let named: usize = if rows.len() > MAX_LISTED {
        MAX_LISTED
    } else {
        rows.len()
    };
    let mut lines: Vec<String> = Vec::new();
    let mut i: usize = 0;
    while i < named
        invariant
            i <= named <= rows@.len(),
            all == rows_of(rows@),
            lines@.len() == i,
            forall|m: int| 0 <= m < i ==> (#[trigger] lines@[m])@ == "  "@ + all[m].label,
        decreases named - i,
    {
        lines.push(cat2("  ", rows[i].label.as_str()));
        i = i + 1;
    }
    if rows.len() > MAX_LISTED {
        lines.push(cat3("  … and ", number((rows.len() - MAX_LISTED) as u64).as_str(), " more"));
    }
    assert(texts(lines@) =~= ambiguity_lines(all));
    ItemsError::Ambiguous { count: rows.len(), query, hint, listing: join(&lines, "\n") }
}

/// Resolves ids that were given and title searches into one list, in order and
/// without repeats.
pub fn resolve_asins(
    asins: &Vec<GivenAsin>,
    titles: &Vec<GivenTitle>,
    mode: PodcastMode,
) -> (result: Result<Vec<String>, ItemsError<String>>)
    requires
        forall|i: int| 0 <= i < titles@.len() ==> picks_in_range(#[trigger] titles@[i]),
    ensures
        match result {
            Ok(list) => with_titles(with_asins(Seq::empty(), asins@, mode), titles@) == Ok::<
                Seq<Seq<char>>,
                ItemsError<Seq<char>>,
            >(texts(list@)),
            Err(e) => with_titles(with_asins(Seq::empty(), asins@, mode), titles@) == Err::<
                Seq<Seq<char>>,
                ItemsError<Seq<char>>,
            >(e@),
        },
{
    let mut list: Vec<String> = Vec::new();
    let mut i: usize = 0;
    assert(texts(list@) =~= Seq::<Seq<char>>::empty());
    assert(asins@.subrange(0, asins@.len() as int) =~= asins@);
    while i < asins.len()
        invariant
            i <= asins@.len(),
            with_asins(Seq::empty(), asins@, mode) == with_asins(
                texts(list@),
                asins@.subrange(i as int, asins@.len() as int),
                mode,
            ),
        decreases asins.len() - i,
    {
        let ghost rest = asins@.subrange(i as int, asins@.len() as int);
        let ghost start = texts(list@);
        assert(rest.drop_first() =~= asins@.subrange(i + 1, asins@.len() as int));
        let asin = trim(asins[i].asin.as_str());
        if !asin.as_str().is_empty() {
            let taken = match (mode, &asins[i].class) {
                (PodcastMode::Download { podcasts: false }, AsinClass::Other) => true,
                (PodcastMode::Download { podcasts: false }, _) => false,
                (PodcastMode::Download { podcasts: true }, AsinClass::Parent { episodes }) => {
                    add_texts(&mut list, episodes);
                    false
                },
                _ => true,
            };
            if taken {
                let ghost one = seq![asin@];
                assert(one.drop_first() =~= Seq::<Seq<char>>::empty());
                assert(unique_from(start, one) == (if start.contains(asin@) {
                    unique_from(start, one.drop_first())
                } else {
                    unique_from(start.push(asin@), one.drop_first())
                }));
                add_text(&mut list, asin);
            }
        }
        i = i + 1;
    }
    let ghost first = texts(list@);
    let mut k: usize = 0;
    assert(titles@.subrange(0, titles@.len() as int) =~= titles@);
    while k < titles.len()
        invariant
            k <= titles@.len(),
            first == with_asins(Seq::empty(), asins@, mode),
            forall|i: int| 0 <= i < titles@.len() ==> picks_in_range(#[trigger] titles@[i]),
            with_titles(first, titles@) == with_titles(
                texts(list@),
                titles@.subrange(k as int, titles@.len() as int),
            ),
        decreases titles.len() - k,
    {
        let title = &titles[k];
        let ghost rest = titles@.subrange(k as int, titles@.len() as int);
        assert(rest[0] == *title);
        assert(rest.drop_first() =~= titles@.subrange(k + 1, titles@.len() as int));
        assert(picks_in_range(titles@[k as int]));
        let query = match parse_title_arg(title.raw.as_str()) {
            Ok(query) => query.query,
            Err(error) => {
                return Err(error);
            },
        };
        let ghost rows = rows_of(title.candidates@);
        if query.as_str().is_empty() || title.candidates.len() == 0 {
        } else if title.candidates.len() == 1 {
            assert(rows[0] == title.candidates@[0]@);
            choose_row(&title.candidates[0], &mut list);
        } else {
            match &title.selection {
                None => {
                    return Err(ambiguous(query, &title.candidates));
                },
                Some(selection) => {
                    let ghost start = texts(list@);
                    let mut m: usize = 0;
                    assert(selection@.subrange(0, selection@.len() as int) =~= selection@);
                    while m < selection.len()
                        invariant
                            m <= selection@.len(),
                            rows == rows_of(title.candidates@),
                            forall|i: int|
                                0 <= i < selection@.len() ==> (#[trigger] selection@[i])
                                    < title.candidates@.len(),
                            with_selection(start, rows, selection@) == with_selection(
                                texts(list@),
                                rows,
                                selection@.subrange(m as int, selection@.len() as int),
                            ),
                        decreases selection.len() - m,
                    {
                        let ghost left = selection@.subrange(m as int, selection@.len() as int);
                        assert(left[0] == selection@[m as int]);
                        assert(left.drop_first() =~= selection@.subrange(
                            m + 1,
                            selection@.len() as int,
                        ));
                        let at = selection[m];
                        assert(rows[at as int] == title.candidates@[at as int]@);
                        choose_row(&title.candidates[at], &mut list);
                        m = m + 1;
                    }
                },
            }
        }
        k = k + 1;
    }
    Ok(list)
}

fn picks_fit(title: &GivenTitle) -> (yes: bool)
    ensures
        yes == picks_in_range(*title),
{
    let picks = match &title.selection {
        Some(picks) => picks,
        None => {
            return true;
        },
    };
    let mut i: usize = 0;
    while i < picks.len()
        invariant
            i <= picks@.len(),
            title.selection == Some(*picks),
            forall|k: int| 0 <= k < i ==> (#[trigger] picks@[k]) < title.candidates@.len(),
        decreases picks.len() - i,
    {
        if picks[i] >= title.candidates.len() {
            assert(!(title.selection->Some_0@[i as int] < title.candidates@.len()));
            return false;
        }
        i = i + 1;
    }
    true
}

/// The ids of the items that are meant, as `resolve_asins` gives them; nothing
/// where a pick lies outside the rows that were offered.
pub fn resolve_checked(
    asins: &Vec<GivenAsin>,
    titles: &Vec<GivenTitle>,
    mode: PodcastMode,
) -> (result: Option<Result<Vec<String>, ItemsError<String>>>)
    ensures
        ({
            let want = with_titles(with_asins(Seq::empty(), asins@, mode), titles@);
            let sound = forall|i: int|
                0 <= i < titles@.len() ==> picks_in_range(#[trigger] titles@[i]);
            match result {
                Some(Ok(list)) => sound && want == Ok::<Seq<Seq<char>>, ItemsError<Seq<char>>>(
                    texts(list@),
                ),
                Some(Err(e)) => sound && want == Err::<Seq<Seq<char>>, ItemsError<Seq<char>>>(e@),
                None => !sound,
            }
        }),
{
    let mut i: usize = 0;
    while i < titles.len()
        invariant
            i <= titles@.len(),
            forall|k: int| 0 <= k < i ==> picks_in_range(#[trigger] titles@[k]),
        decreases titles.len() - i,
    {
        if !picks_fit(&titles[i]) {
            return None;
        }
        i = i + 1;
    }
    Some(resolve_asins(asins, titles, mode))
}

proof fn lemma_asins_no_repeats(list: Seq<Seq<char>>, given: Seq<GivenAsin>, mode: PodcastMode)
    requires
        list.no_duplicates(),
    ensures
        with_asins(list, given, mode).no_duplicates(),
    decreases given.len(),
{
    if given.len() > 0 {
        let asin = trimmed(given[0].asin@);
        lemma_unique_from(list, picked(asin, given[0].class, mode));
        lemma_asins_no_repeats(
            if asin.len() == 0 {
                list
            } else {
                unique_from(list, picked(asin, given[0].class, mode))
            },
            given.drop_first(),
            mode,
        );
    }
}

proof fn lemma_selection_no_repeats(
    list: Seq<Seq<char>>,
    rows: Seq<CandidateView>,
    selection: Seq<usize>,
)
    requires
        list.no_duplicates(),
    ensures
        with_selection(list, rows, selection).no_duplicates(),
    decreases selection.len(),
{
    if selection.len() > 0 {
        let more = chosen(rows[selection[0] as int]);
        lemma_unique_from(list, more);
        lemma_selection_no_repeats(unique_from(list, more), rows, selection.drop_first());
    }
}

proof fn lemma_titles_no_repeats(list: Seq<Seq<char>>, given: Seq<GivenTitle>)
    requires
        list.no_duplicates(),
    ensures
        with_titles(list, given) matches Ok(all) ==> all.no_duplicates(),
    decreases given.len(),
{
    if given.len() > 0 {
        let rows = rows_of(given[0].candidates@);
        if let Ok((query, _)) = title_query(given[0].raw@) {
            if query.len() == 0 || rows.len() == 0 {
                lemma_titles_no_repeats(list, given.drop_first());
            } else if rows.len() == 1 {
                lemma_unique_from(list, chosen(rows[0]));
                lemma_titles_no_repeats(unique_from(list, chosen(rows[0])), given.drop_first());
            } else if let Some(selection) = given[0].selection {
                lemma_selection_no_repeats(list, rows, selection@);
                lemma_titles_no_repeats(
                    with_selection(list, rows, selection@),
                    given.drop_first(),
                );
            }
        }
    }
}

/// However an item was named, and however often, it is worked on once.
pub proof fn law_resolved_without_repeats(
    asins: Seq<GivenAsin>,
    titles: Seq<GivenTitle>,
    mode: PodcastMode,
)
    ensures
        with_titles(with_asins(Seq::empty(), asins, mode), titles) matches Ok(all)
            ==> all.no_duplicates(),
{
    lemma_asins_no_repeats(Seq::empty(), asins, mode);
    lemma_titles_no_repeats(with_asins(Seq::empty(), asins, mode), titles);
}

proof fn lemma_rows_for_items(items: Seq<FoundItem>, mode: PodcastMode, beneath: bool, i: int)
    requires
        0 <= i < rows_for_items(items, mode, beneath).len(),
    ensures
        excludes(mode) ==> rows_for_items(items, mode, beneath)[i].kind is Book,
        expands(mode) ==> (rows_for_items(items, mode, beneath)[i].kind is Podcast
            <==> rows_for_items(items, mode, beneath)[i].expand is Some),
    decreases items.len(),
{
    let before = rows_for_items(items.drop_last(), mode, beneath);
    if i < before.len() {
        lemma_rows_for_items(items.drop_last(), mode, beneath, i);
    }
}

proof fn lemma_with_episodes(
    rows: Seq<CandidateView>,
    seen: Set<Seq<char>>,
    hits: Seq<FoundEpisode>,
    mode: PodcastMode,
)
    requires
        forall|i: int|
            0 <= i < rows.len() ==> ((#[trigger] rows[i]).kind is Podcast <==> rows[i].expand is Some),
    ensures
        forall|i: int|
            #![trigger with_episodes(rows, seen, hits, mode)[i]]
            0 <= i < with_episodes(rows, seen, hits, mode).len() ==> (with_episodes(
                rows,
                seen,
                hits,
                mode,
            )[i].kind is Podcast <==> with_episodes(rows, seen, hits, mode)[i].expand is Some),
    decreases hits.len(),
{
    if hits.len() > 0 {
        if seen.contains(hits[0].asin@) {
            lemma_with_episodes(rows, seen, hits.drop_first(), mode);
        } else {
            lemma_with_episodes(
                rows.push(episode_row(hits[0], mode)),
                seen.insert(hits[0].asin@),
                hits.drop_first(),
                mode,
            );
        }
    }
}

/// A download that leaves podcasts out offers no podcast content; one that
/// takes them offers a show only as its episodes, and nothing else as several
/// ids.
pub proof fn law_download_offers(
    items: Seq<FoundItem>,
    hits: Seq<FoundEpisode>,
    mode: PodcastMode,
    i: int,
)
    requires
        0 <= i < candidates(items, hits, mode).len(),
    ensures
        excludes(mode) ==> candidates(items, hits, mode)[i].kind is Book,
        expands(mode) ==> (candidates(items, hits, mode)[i].kind is Podcast <==> candidates(
            items,
            hits,
            mode,
        )[i].expand is Some),
{
    let beneath = expands(mode) && show_count(items) == 1;
    let rows = rows_for_items(items, mode, beneath);
    if excludes(mode) {
        lemma_rows_for_items(items, mode, beneath, i);
    } else if expands(mode) {
        assert forall|k: int| 0 <= k < rows.len() implies ((#[trigger] rows[k]).kind is Podcast
            <==> rows[k].expand is Some) by {
            lemma_rows_for_items(items, mode, beneath, k);
        }
        lemma_with_episodes(rows, seen_in_items(items, mode, beneath), hits, mode);
    }
}

proof fn lemma_asins_give(
    list: Seq<Seq<char>>,
    given: Seq<GivenAsin>,
    mode: PodcastMode,
    id: Seq<char>,
)
    requires
        list.no_duplicates(),
    ensures
        with_asins(list, given, mode).contains(id) <==> list.contains(id) || exists|i: int|
            0 <= i < given.len() && trimmed((#[trigger] given[i]).asin@).len() > 0 && picked(
                trimmed(given[i].asin@),
                given[i].class,
                mode,
            ).contains(id),
    decreases given.len(),
{
    if given.len() > 0 {
        let asin = trimmed(given[0].asin@);
        let more = picked(asin, given[0].class, mode);
        let rest = given.drop_first();
        lemma_unique_from(list, more);
        let next = if asin.len() == 0 {
            list
        } else {
            unique_from(list, more)
        };
        lemma_asins_give(next, rest, mode, id);
        if exists|i: int|
            0 <= i < rest.len() && trimmed((#[trigger] rest[i]).asin@).len() > 0 && picked(
                trimmed(rest[i].asin@),
                rest[i].class,
                mode,
            ).contains(id) {
            let i = choose|i: int|
                0 <= i < rest.len() && trimmed((#[trigger] rest[i]).asin@).len() > 0 && picked(
                    trimmed(rest[i].asin@),
                    rest[i].class,
                    mode,
                ).contains(id);
            assert(given[i + 1] == rest[i]);
        }
        if exists|i: int|
            0 <= i < given.len() && trimmed((#[trigger] given[i]).asin@).len() > 0 && picked(
                trimmed(given[i].asin@),
                given[i].class,
                mode,
            ).contains(id) {
            let i = choose|i: int|
                0 <= i < given.len() && trimmed((#[trigger] given[i]).asin@).len() > 0 && picked(
                    trimmed(given[i].asin@),
                    given[i].class,
                    mode,
                ).contains(id);
            if i > 0 {
                assert(rest[i - 1] == given[i]);
            }
        }
    }
}

/// Whether a title search takes a row: the only one that it offers, or one that
/// the user picked.
pub open spec fn row_taken(title: GivenTitle, row: int) -> bool {
    &&& 0 <= row < title.candidates@.len()
    &&& title_query(title.raw@) matches Ok((query, _)) && query.len() > 0
    &&& title.candidates@.len() == 1 || (title.selection matches Some(selection)
        && exists|m: int| 0 <= m < selection@.len() && #[trigger] selection@[m] == row)
}

proof fn lemma_selection_gives(
    list: Seq<Seq<char>>,
    rows: Seq<CandidateView>,
    selection: Seq<usize>,
    id: Seq<char>,
)
    requires
        list.no_duplicates(),
    ensures
        with_selection(list, rows, selection).contains(id) <==> list.contains(id) || exists|m: int|
            0 <= m < selection.len() && chosen(rows[#[trigger] selection[m] as int]).contains(id),
    decreases selection.len(),
{
    if selection.len() > 0 {
        let more = chosen(rows[selection[0] as int]);
        let rest = selection.drop_first();
        lemma_unique_from(list, more);
        lemma_selection_gives(unique_from(list, more), rows, rest, id);
        if exists|m: int|
            0 <= m < rest.len() && chosen(rows[#[trigger] rest[m] as int]).contains(id) {
            let m = choose|m: int|
                0 <= m < rest.len() && chosen(rows[#[trigger] rest[m] as int]).contains(id);
            assert(selection[m + 1] == rest[m]);
        }
        if exists|m: int|
            0 <= m < selection.len() && chosen(rows[#[trigger] selection[m] as int]).contains(id) {
            let m = choose|m: int|
                0 <= m < selection.len() && chosen(rows[#[trigger] selection[m] as int]).contains(
                    id,
                );
            if m > 0 {
                assert(rest[m - 1] == selection[m]);
            }
        }
    }
}

/// Whether a title search brings an id.
pub open spec fn title_gives(title: GivenTitle, id: Seq<char>) -> bool {
    exists|row: int|
        #![trigger title.candidates@[row]]
        row_taken(title, row) && match title.candidates@[row].expand {
            None => id == title.candidates@[row].asin@,
            Some(episodes) => texts(episodes@).contains(id),
        }
}

proof fn lemma_titles_give(list: Seq<Seq<char>>, given: Seq<GivenTitle>, id: Seq<char>)
    requires
        list.no_duplicates(),
        with_titles(list, given) is Ok,
        forall|i: int| 0 <= i < given.len() ==> picks_in_range(#[trigger] given[i]),
    ensures
        with_titles(list, given)->Ok_0.contains(id) <==> list.contains(id) || exists|k: int|
            0 <= k < given.len() && title_gives(#[trigger] given[k], id),
    decreases given.len(),
{
    if given.len() > 0 {
        let title = given[0];
        let rows = rows_of(title.candidates@);
        let rest = given.drop_first();
        assert forall|i: int| 0 <= i < rest.len() implies picks_in_range(#[trigger] rest[i]) by {
            assert(rest[i] == given[i + 1]);
        }
        let query = title_query(title.raw@)->Ok_0.0;
        assert(picks_in_range(given[0]));
        let next = if query.len() == 0 || rows.len() == 0 {
            list
        } else if rows.len() == 1 {
            unique_from(list, chosen(rows[0]))
        } else {
            with_selection(list, rows, title.selection->Some_0@)
        };
        assert forall|row: int| 0 <= row < rows.len() implies (chosen(#[trigger] rows[row]).contains(
            id,
        ) <==> match title.candidates@[row].expand {
            None => id == title.candidates@[row].asin@,
            Some(episodes) => texts(episodes@).contains(id),
        }) by {
            if rows[row].expand is None {
                assert(chosen(rows[row])[0] == rows[row].asin);
            }
        }
        assert(next.contains(id) <==> list.contains(id) || title_gives(title, id)) by {
            if query.len() == 0 || rows.len() == 0 {
            } else if rows.len() == 1 {
                lemma_unique_from(list, chosen(rows[0]));
                if chosen(rows[0]).contains(id) {
                    assert(row_taken(title, 0));
                    let _ = title.candidates@[0];
                }
            } else {
                let selection = title.selection->Some_0@;
                lemma_selection_gives(list, rows, selection, id);
                if exists|m: int|
                    0 <= m < selection.len() && chosen(
                        rows[#[trigger] selection[m] as int],
                    ).contains(id) {
                    let m = choose|m: int|
                        0 <= m < selection.len() && chosen(
                            rows[#[trigger] selection[m] as int],
                        ).contains(id);
                    let row = selection[m] as int;
                    assert(selection[m] < title.candidates@.len());
                    assert(row_taken(title, row));
                    let _ = title.candidates@[row];
                }
                if title_gives(title, id) {
                    let row = choose|row: int|
                        #![trigger title.candidates@[row]]
                        row_taken(title, row) && match title.candidates@[row].expand {
                            None => id == title.candidates@[row].asin@,
                            Some(episodes) => texts(episodes@).contains(id),
                        };
                    let m = choose|m: int|
                        0 <= m < selection.len() && #[trigger] selection[m] == row;
                    assert(chosen(rows[selection[m] as int]).contains(id));
                }
            }
        }
        if query.len() == 0 || rows.len() == 0 {
        } else if rows.len() == 1 {
            lemma_unique_from(list, chosen(rows[0]));
        } else {
            lemma_selection_no_repeats(list, rows, title.selection->Some_0@);
        }
        lemma_titles_give(next, rest, id);
        if exists|k: int| 0 <= k < rest.len() && title_gives(#[trigger] rest[k], id) {
            let k = choose|k: int| 0 <= k < rest.len() && title_gives(#[trigger] rest[k], id);
            assert(given[k + 1] == rest[k]);
        }
        if exists|k: int| 0 <= k < given.len() && title_gives(#[trigger] given[k], id) {
            let k = choose|k: int| 0 <= k < given.len() && title_gives(#[trigger] given[k], id);
            if k > 0 {
                assert(rest[k - 1] == given[k]);
            }
        }
    }
}

/// Nothing that was asked for by its id is lost: an id that is not blank is
/// among the results, trimmed, unless it is podcast content that a download
/// leaves out; of a show that a download expands, every episode is.
pub proof fn law_no_given_id_is_lost(
    asins: Seq<GivenAsin>,
    titles: Seq<GivenTitle>,
    mode: PodcastMode,
    all: Seq<Seq<char>>,
    i: int,
)
    requires
        with_titles(with_asins(Seq::empty(), asins, mode), titles) == Ok::<
            Seq<Seq<char>>,
            ItemsError<Seq<char>>,
        >(all),
        forall|k: int| 0 <= k < titles.len() ==> picks_in_range(#[trigger] titles[k]),
        0 <= i < asins.len(),
        trimmed(asins[i].asin@).len() > 0,
    ensures
        !(mode is Download) ==> all.contains(trimmed(asins[i].asin@)),
        asins[i].class is Other ==> all.contains(trimmed(asins[i].asin@)),
        asins[i].class is Episode && mode == (PodcastMode::Download { podcasts: true })
            ==> all.contains(trimmed(asins[i].asin@)),
        asins[i].class matches AsinClass::Parent { episodes } ==> mode == (PodcastMode::Download {
            podcasts: true,
        }) ==> forall|e: int|
            0 <= e < episodes@.len() ==> all.contains(#[trigger] texts(episodes@)[e]),
{
    let first = with_asins(Seq::empty(), asins, mode);
    lemma_asins_no_repeats(Seq::empty(), asins, mode);
    let asin = trimmed(asins[i].asin@);
    let ids = picked(asin, asins[i].class, mode);
    assert forall|e: int| 0 <= e < ids.len() implies all.contains(#[trigger] ids[e]) by {
        assert(ids.contains(ids[e]));
        lemma_asins_give(Seq::empty(), asins, mode, ids[e]);
        lemma_titles_give(first, titles, ids[e]);
    }
    assert(ids == seq![asin] ==> ids[0] == asin);
}

/// Every row that a title search takes is among the results: its own id, or, of a
/// show, the ids of its episodes.
pub proof fn law_no_taken_row_is_lost(
    asins: Seq<GivenAsin>,
    titles: Seq<GivenTitle>,
    mode: PodcastMode,
    all: Seq<Seq<char>>,
    k: int,
    row: int,
)
    requires
        with_titles(with_asins(Seq::empty(), asins, mode), titles) == Ok::<
            Seq<Seq<char>>,
            ItemsError<Seq<char>>,
        >(all),
        forall|k: int| 0 <= k < titles.len() ==> picks_in_range(#[trigger] titles[k]),
        0 <= k < titles.len(),
        row_taken(titles[k], row),
    ensures
        match titles[k].candidates@[row].expand {
            None => all.contains(titles[k].candidates@[row].asin@),
            Some(episodes) => forall|e: int|
                0 <= e < episodes@.len() ==> all.contains(#[trigger] texts(episodes@)[e]),
        },
{
    let first = with_asins(Seq::empty(), asins, mode);
    lemma_asins_no_repeats(Seq::empty(), asins, mode);
    let found = titles[k].candidates@[row];
    match found.expand {
        None => {
            assert(title_gives(titles[k], found.asin@));
            lemma_titles_give(first, titles, found.asin@);
        },
        Some(episodes) => {
            assert forall|e: int| 0 <= e < episodes@.len() implies all.contains(
                #[trigger] texts(episodes@)[e],
            ) by {
                let id = texts(episodes@)[e];
                assert(texts(episodes@).contains(id));
                assert(title_gives(titles[k], id));
                lemma_titles_give(first, titles, id);
            }
        },
    }
}

/// Nothing is worked on that was not asked for: every result is an id that was
/// given, an episode of a show that was given, or comes out of a row that a title
/// search took. A download that leaves podcasts out takes no show and no episode
/// that was given.
pub proof fn law_nothing_else_is_resolved(
    asins: Seq<GivenAsin>,
    titles: Seq<GivenTitle>,
    mode: PodcastMode,
    all: Seq<Seq<char>>,
    id: Seq<char>,
)
    requires
        with_titles(with_asins(Seq::empty(), asins, mode), titles) == Ok::<
            Seq<Seq<char>>,
            ItemsError<Seq<char>>,
        >(all),
        forall|k: int| 0 <= k < titles.len() ==> picks_in_range(#[trigger] titles[k]),
        all.contains(id),
    ensures
        (exists|i: int|
            0 <= i < asins.len() && trimmed((#[trigger] asins[i]).asin@).len() > 0 && if mode
                == (PodcastMode::Download { podcasts: true }) && asins[i].class is Parent {
                texts(asins[i].class->episodes@).contains(id)
            } else {
                id == trimmed(asins[i].asin@) && (mode == (PodcastMode::Download {
                    podcasts: false,
                }) ==> asins[i].class is Other)
            }) || exists|k: int| 0 <= k < titles.len() && title_gives(#[trigger] titles[k], id),
{
    let first = with_asins(Seq::empty(), asins, mode);
    lemma_asins_no_repeats(Seq::empty(), asins, mode);
    lemma_asins_give(Seq::empty(), asins, mode, id);
    lemma_titles_give(first, titles, id);
    if first.contains(id) {
        let i = choose|i: int|
            0 <= i < asins.len() && trimmed((#[trigger] asins[i]).asin@).len() > 0 && picked(
                trimmed(asins[i].asin@),
                asins[i].class,
                mode,
            ).contains(id);
        assert(0 <= i < asins.len());
    }
}

/// The results are owed wherever every search can be read and nothing is left to
/// ask: a search that matches several rows needs a pick, and nothing else does.
pub proof fn law_resolving_fails_for_cause(list: Seq<Seq<char>>, given: Seq<GivenTitle>)
    ensures
        with_titles(list, given) is Ok <==> forall|k: int|
            0 <= k < given.len() ==> {
                &&& title_query((#[trigger] given[k]).raw@) is Ok
                &&& title_query(given[k].raw@)->Ok_0.0.len() > 0 && given[k].candidates@.len() > 1
                    ==> given[k].selection is Some
            },
    decreases given.len(),
{
    if given.len() > 0 {
        let rows = rows_of(given[0].candidates@);
        let rest = given.drop_first();
        let next = if title_query(given[0].raw@) is Err || title_query(given[0].raw@)->Ok_0.0.len()
            == 0 || rows.len() == 0 {
            list
        } else if rows.len() == 1 {
            unique_from(list, chosen(rows[0]))
        } else if given[0].selection is Some {
            with_selection(list, rows, given[0].selection->Some_0@)
        } else {
            list
        };
        law_resolving_fails_for_cause(next, rest);
        assert forall|k: int| 0 < k < given.len() implies (#[trigger] given[k]) == rest[k - 1] by {}
        assert forall|k: int| 0 <= k < rest.len() implies (#[trigger] rest[k]) == given[k + 1] by {}
    }
}

/// A search says how many matches it takes behind its last tilde, and what is
/// searched for before it; without one it takes as many as by default.
pub proof fn law_title_caps_are_read(query: Seq<char>, cap: Seq<char>)
    requires
        !cap.contains('~'),
    ensures
        !query.contains('~') ==> title_query(query) == Ok::<
            (Seq<char>, usize),
            ItemsError<Seq<char>>,
        >((trimmed(query), 15)),
        title_query(query + seq!['~'] + cap) == match unsigned_value(
            trimmed(cap),
            usize::MAX as int,
        ) {
            Some(n) => if n >= 1 {
                Ok((trimmed(query), n as usize))
            } else {
                Err(ItemsError::TitleCap(query + seq!['~'] + cap))
            },
            None => Err(ItemsError::TitleCap(query + seq!['~'] + cap)),
        },
{
    let raw = query + seq!['~'] + cap;
    assert forall|k: int| query.len() < k < raw.len() implies raw[k] != '~' by {
        assert(cap.contains(cap[k - query.len() - 1]));
    }
    crate::text::lemma_last_at_is(raw, '~', query.len() as int);
    assert(raw.subrange(query.len() as int + 1, raw.len() as int) =~= cap);
    assert(raw.subrange(0, query.len() as int) =~= query);
    if !query.contains('~') {
        assert forall|k: int| -1 < k < query.len() implies query[k] != '~' by {
            assert(query.contains(query[k]));
        }
        crate::text::lemma_last_at_is(query, '~', -1);
    }
}

proof fn lemma_item_has_a_row(items: Seq<FoundItem>, mode: PodcastMode, beneath: bool, i: int)
    requires
        0 <= i < items.len(),
        !(excludes(mode) && !(kind_of(items[i].kind@) is Book)),
    ensures
        exists|r: int|
            0 <= r < rows_for_items(items, mode, beneath).len() && (#[trigger] rows_for_items(
                items,
                mode,
                beneath,
            )[r]) == (if is_show(items[i], mode) {
                show_row(items[i])
            } else {
                item_row(items[i], mode)
            }),
    decreases items.len(),
{
    let before = rows_for_items(items.drop_last(), mode, beneath);
    let rows = rows_for_items(items, mode, beneath);
    if i < items.len() - 1 {
        let front = items.drop_last();
        assert(front[i] == items[i]);
        lemma_item_has_a_row(front, mode, beneath, i);
        let want = if is_show(items[i], mode) {
            show_row(items[i])
        } else {
            item_row(items[i], mode)
        };
        let r = choose|r: int| 0 <= r < before.len() && (#[trigger] before[r]) == want;
        assert(rows[r] == before[r]);
    } else {
        assert(rows[before.len() as int] == rows_for_item(items[i], mode, beneath)[0]);
    }
}

proof fn lemma_with_episodes_keeps(
    rows: Seq<CandidateView>,
    seen: Set<Seq<char>>,
    hits: Seq<FoundEpisode>,
    mode: PodcastMode,
)
    ensures
        rows.len() <= with_episodes(rows, seen, hits, mode).len(),
        forall|r: int|
            0 <= r < rows.len() ==> (#[trigger] with_episodes(rows, seen, hits, mode)[r])
                == rows[r],
    decreases hits.len(),
{
    if hits.len() > 0 {
        let more = rows.push(episode_row(hits[0], mode));
        if seen.contains(hits[0].asin@) {
            lemma_with_episodes_keeps(rows, seen, hits.drop_first(), mode);
        } else {
            lemma_with_episodes_keeps(
                more,
                seen.insert(hits[0].asin@),
                hits.drop_first(),
                mode,
            );
            assert forall|r: int| 0 <= r < rows.len() implies (#[trigger] with_episodes(
                rows,
                seen,
                hits,
                mode,
            )[r]) == rows[r] by {
                assert(more[r] == rows[r]);
            }
        }
    }
}

proof fn lemma_hit_has_a_row(
    rows: Seq<CandidateView>,
    seen: Set<Seq<char>>,
    hits: Seq<FoundEpisode>,
    mode: PodcastMode,
    h: int,
)
    requires
        0 <= h < hits.len(),
        !seen.contains(hits[h].asin@),
    ensures
        exists|r: int|
            0 <= r < with_episodes(rows, seen, hits, mode).len() && (#[trigger] with_episodes(
                rows,
                seen,
                hits,
                mode,
            )[r]).asin == hits[h].asin@,
    decreases hits.len(),
{
    let rest = hits.drop_first();
    let all = with_episodes(rows, seen, hits, mode);
    if seen.contains(hits[0].asin@) {
        assert(rest[h - 1] == hits[h]);
        lemma_hit_has_a_row(rows, seen, rest, mode, h - 1);
        assert(all == with_episodes(rows, seen, rest, mode));
    } else {
        let more = rows.push(episode_row(hits[0], mode));
        let known = seen.insert(hits[0].asin@);
        lemma_with_episodes_keeps(more, known, rest, mode);
        assert(all == with_episodes(more, known, rest, mode));
        if hits[0].asin@ == hits[h].asin@ {
            assert(all[rows.len() as int] == more[rows.len() as int]);
        } else {
            assert(rest[h - 1] == hits[h]);
            lemma_hit_has_a_row(more, known, rest, mode, h - 1);
        }
    }
}

/// Every item that a search found is offered, under its own id, kind and title:
/// a show as its episodes where a download takes them, everything else as
/// itself. A download that leaves podcasts out offers the books.
pub proof fn law_found_items_are_offered(
    items: Seq<FoundItem>,
    hits: Seq<FoundEpisode>,
    mode: PodcastMode,
    i: int,
)
    requires
        0 <= i < items.len(),
        mode == (PodcastMode::Download { podcasts: false }) ==> kind_of(items[i].kind@) is Book,
    ensures
        exists|r: int|
            0 <= r < candidates(items, hits, mode).len() && {
                let row = #[trigger] candidates(items, hits, mode)[r];
                &&& row.asin == items[i].asin@
                &&& row.kind == kind_of(items[i].kind@)
                &&& row.title == items[i].full_title@
                &&& row.expand == if mode == (PodcastMode::Download { podcasts: true })
                    && items[i].kind@ == "podcast"@ {
                    Some(episode_asins(items[i].episodes@))
                } else {
                    None
                }
            },
{
    let beneath = expands(mode) && show_count(items) == 1;
    let rows = rows_for_items(items, mode, beneath);
    lemma_item_has_a_row(items, mode, beneath, i);
    let want = if is_show(items[i], mode) {
        show_row(items[i])
    } else {
        item_row(items[i], mode)
    };
    let r = choose|r: int| 0 <= r < rows.len() && (#[trigger] rows[r]) == want;
    reveal_strlit("podcast");
    reveal_strlit("episode");
    assert("podcast"@[0] == 'p');
    assert("episode"@[0] == 'e');
    if !(mode is ItemsOnly || excludes(mode)) {
        lemma_with_episodes_keeps(rows, seen_in_items(items, mode, beneath), hits, mode);
    }
    assert(candidates(items, hits, mode)[r] == rows[r]);
}

proof fn lemma_seen_has_a_row(
    items: Seq<FoundItem>,
    mode: PodcastMode,
    beneath: bool,
    id: Seq<char>,
)
    requires
        !excludes(mode),
        seen_in_items(items, mode, beneath).contains(id),
    ensures
        exists|r: int|
            0 <= r < rows_for_items(items, mode, beneath).len() && (#[trigger] rows_for_items(
                items,
                mode,
                beneath,
            )[r]).asin == id,
    decreases items.len(),
{
    let front = items.drop_last();
    let before = rows_for_items(front, mode, beneath);
    let rows = rows_for_items(items, mode, beneath);
    let item = items.last();
    if seen_in_items(front, mode, beneath).contains(id) {
        lemma_seen_has_a_row(front, mode, beneath, id);
        let r = choose|r: int| 0 <= r < before.len() && (#[trigger] before[r]).asin == id;
        assert(rows[r] == before[r]);
    } else if id == item.asin@ {
        assert(rows[before.len() as int].asin == id);
    } else {
        let asins = episode_asins(item.episodes@);
        assert(asins.contains(id));
        let e = choose|e: int| 0 <= e < asins.len() && asins[e] == id;
        assert(rows[before.len() + 1 + e] == beneath_row(item.episodes@[e]));
    }
}

/// Every episode that a search found is offered where episodes are searched and
/// podcasts are not left out: some row has its id.
pub proof fn law_found_episodes_are_offered(
    items: Seq<FoundItem>,
    hits: Seq<FoundEpisode>,
    mode: PodcastMode,
    h: int,
)
    requires
        0 <= h < hits.len(),
        mode is Episodes || mode == (PodcastMode::Download { podcasts: true }),
    ensures
        exists|r: int|
            0 <= r < candidates(items, hits, mode).len() && (#[trigger] candidates(
                items,
                hits,
                mode,
            )[r]).asin == hits[h].asin@,
{
    let beneath = expands(mode) && show_count(items) == 1;
    let rows = rows_for_items(items, mode, beneath);
    let seen = seen_in_items(items, mode, beneath);
    if seen.contains(hits[h].asin@) {
        lemma_seen_has_a_row(items, mode, beneath, hits[h].asin@);
        lemma_with_episodes_keeps(rows, seen, hits, mode);
        let r = choose|r: int| 0 <= r < rows.len() && (#[trigger] rows[r]).asin == hits[h].asin@;
        assert(candidates(items, hits, mode)[r] == rows[r]);
    } else {
        lemma_hit_has_a_row(rows, seen, hits, mode, h);
        assert(candidates(items, hits, mode) == with_episodes(rows, seen, hits, mode));
    }
}

/// An id is that of a show, with all its episodes, or of an episode, where the item
/// that has it says so; one that no item has is an episode where an episode has it.
pub proof fn law_ids_are_classified_by_their_item(
    word: Seq<char>,
    episodes: Vec<String>,
    is_episode: bool,
)
    ensures
        class_of(Some(word), episodes, is_episode) is Parent <==> word == "podcast"@,
        word == "podcast"@ ==> class_of(Some(word), episodes, is_episode) == (AsinClass::Parent {
            episodes,
        }),
        class_of(Some(word), episodes, is_episode) is Episode <==> word == "episode"@,
        class_of(None, episodes, is_episode) is Episode <==> is_episode,
        !is_episode ==> class_of(None, episodes, is_episode) is Other,
{
    reveal_strlit("podcast");
    reveal_strlit("episode");
    assert("podcast"@[0] == 'p');
    assert("episode"@[0] == 'e');
}

/// Several matches of which nobody can pick are listed, the first twenty of them one a
/// line, with the search and their number; a show among them is hinted at.
pub proof fn law_ambiguous_searches_list_their_matches(
    query: Seq<char>,
    rows: Seq<CandidateView>,
    i: int,
)
    requires
        rows.len() <= usize::MAX,
    ensures
        ambiguity(query, rows) matches ItemsError::Ambiguous { count, query: named, hint, listing }
            && count == rows.len() && named == query && hint == ambiguity_hint(rows) && listing
            == joined(ambiguity_lines(rows), "\n"@),
        0 <= i < rows.len() && i < 20 ==> ambiguity_lines(rows)[i] == "  "@ + rows[i].label,
        rows.len() <= 20 ==> ambiguity_lines(rows).len() == rows.len(),
        rows.len() > 20 ==> ambiguity_lines(rows).len() == 21 && ambiguity_lines(rows)[20]
            == "  … and "@ + decimal(rows.len() - 20) + " more"@,
        0 <= i < rows.len() && rows[i].kind is Podcast ==> ambiguity_hint(rows)
            == "; a podcast show is among them — use --asin <ASIN> to take all its episodes, or narrow the query"@,
        (forall|k: int| 0 <= k < rows.len() ==> !((#[trigger] rows[k]).kind is Podcast))
            ==> ambiguity_hint(rows) == "; pass --asin or run interactively"@,
{
}

/// A kind is told by its word: a show and an episode by their own, anything else is a
/// book.
pub proof fn law_kinds_are_told_by_their_words(word: Seq<char>)
    ensures
        kind_of(word) is Podcast <==> word == "podcast"@,
        kind_of(word) is Episode <==> word == "episode"@,
{
    reveal_strlit("podcast");
    reveal_strlit("episode");
    assert("podcast"@[0] == 'p');
    assert("episode"@[0] == 'e');
}

/// What is offered names the item that it stands for: its id and its title stand in its
/// label, in a download behind its kind.
pub proof fn law_labels_name_the_item(item: FoundItem, episode: ShowEpisode, hit: FoundEpisode)
    ensures
        item_row(item, PodcastMode::ItemsOnly).label == item.asin@ + "  "@ + item.full_title@,
        item_row(item, PodcastMode::Episodes).label == item.asin@ + "  "@ + item.full_title@,
        kind_of(item.kind@) is Book ==> item_row(
            item,
            PodcastMode::Download { podcasts: true },
        ).label == "book    "@ + " "@ + item.asin@ + "  "@ + item.full_title@,
        show_row(item).label == "podcast  "@ + item.asin@ + "  "@ + item.full_title@ + "  ("@
            + decimal(item.episodes@.len() as int) + " episodes)"@,
        beneath_row(episode).asin == episode.asin@,
        beneath_row(episode).expand is None,
        episode_row(hit, PodcastMode::Episodes).label == hit.asin@ + "  "@ + hit.full_title@
            + "  (episode of "@ + hit.parent_title@ + ")"@,
{
}

} // verus!
