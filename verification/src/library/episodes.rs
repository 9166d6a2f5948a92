//! The episodes of a followed podcast.

use vstd::prelude::*;
use vstd::string::StringExecFns;
use super::error::LibraryError;
use crate::lists::push_text;
use crate::tables::cells;
use crate::tables::push_row;
use crate::tables::row4;
use crate::text::cat5;
use crate::text::cat2;
use crate::text::contains;
use crate::text::decimal;
use crate::text::holds;
use crate::text::join;
use crate::text::joined;
use crate::text::number;
use crate::text::opt_text;
use crate::text::or_empty;
use crate::text::same;
use crate::text::text_or_empty;
use crate::text::texts;
use crate::text::to_lower;
use crate::text::unicode_lower;

verus! {

/// A followed podcast.
#[derive(Debug)]
pub struct PodcastRow {
    /// Its id.
    pub asin: String,
    /// Its title.
    pub full_title: String,
    /// Its marketplace.
    pub marketplace: String,
    /// How many of its episodes are stored.
    pub stored_episodes: u64,
    /// How many it is said to have.
    pub announced_episodes: Option<String>,
}

/// Whether a podcast is meant: by its id, or by a part of its title, whatever
/// the case of letters.
pub open spec fn is_meant(row: PodcastRow, show: Seq<char>) -> bool {
    row.asin@ == show || holds(unicode_lower(row.full_title@), unicode_lower(show))
}

/// The places of the podcasts that are meant.
pub open spec fn meant_places(rows: Seq<PodcastRow>, show: Seq<char>) -> Seq<int>
    decreases rows.len(),
{
    if rows.len() == 0 {
        Seq::empty()
    } else if is_meant(rows.last(), show) {
        meant_places(rows.drop_last(), show).push(rows.len() - 1)
    } else {
        meant_places(rows.drop_last(), show)
    }
}

/// How a podcast is named among several.
pub open spec fn podcast_text(row: PodcastRow) -> Seq<char> {
    row.full_title@ + " ("@ + row.asin@ + ", "@ + row.marketplace@ + ")"@
}

/// The podcasts at some places, one behind the other.
pub open spec fn podcasts_text(rows: Seq<PodcastRow>, places: Seq<int>) -> Seq<char> {
    joined(places.map_values(|place: int| podcast_text(rows[place])), ", "@)
}

/// The one podcast that is meant, by its place.
pub open spec fn show_of(rows: Seq<PodcastRow>, show: Seq<char>) -> Result<
    int,
    LibraryError<Seq<char>>,
> {
    let found = meant_places(rows, show);
    if found.len() == 0 {
        Err(LibraryError::NoShow(show))
    } else if found.len() == 1 {
        Ok(found[0])
    } else {
        Err(LibraryError::AmbiguousShow { show, listing: podcasts_text(rows, found) })
    }
}

/// Finds the one podcast that is meant; none, or more than one, is an error.
pub fn pick_show(rows: &Vec<PodcastRow>, show: &str) -> (place: Result<usize, LibraryError<String>>)
    ensures
        match place {
            Ok(i) => i < rows@.len() && show_of(rows@, show@) == Ok::<
                int,
                LibraryError<Seq<char>>,
            >(i as int),
            Err(e) => show_of(rows@, show@) == Err::<int, LibraryError<Seq<char>>>(e@),
        },
{
    let needle = to_lower(show);
    let mut first: Option<usize> = None;
    let mut names: Vec<String> = Vec::new();
    let mut i: usize = 0;
    let ghost mut found: Seq<int> = Seq::empty();
    let ghost as_text = |place: int| podcast_text(rows@[place]);
    assert(texts(names@) =~= found.map_values(as_text));
    while i < rows.len()
        invariant
            i <= rows@.len(),
            needle@ == unicode_lower(show@),
            as_text == (|place: int| podcast_text(rows@[place])),
            found == meant_places(rows@.subrange(0, i as int), show@),
            texts(names@) == found.map_values(as_text),
            match first {
                Some(p) => found.len() > 0 && found[0] == p && p < i,
                None => found.len() == 0,
            },
        decreases rows.len() - i,
    {
        let row = &rows[i];
        proof {
            let next = rows@.subrange(0, i + 1);
            assert(next.drop_last() =~= rows@.subrange(0, i as int));
            assert(next.last() == *row);
        }
        let meant = same(row.asin.as_str(), show) || contains(
            to_lower(row.full_title.as_str()).as_str(),
            needle.as_str(),
        );
        if meant {
            let head = cat5(
                row.full_title.as_str(),
                " (",
                row.asin.as_str(),
                ", ",
                row.marketplace.as_str(),
            );
            let ghost before = found;
            push_text(&mut names, cat2(head.as_str(), ")"));
            if first.is_none() {
                first = Some(i);
            }
            proof {
                found = found.push(i as int);
                assert(texts(names@) =~= found.map_values(as_text));
            }
        }
        i = i + 1;
    }
    assert(rows@.subrange(0, i as int) =~= rows@);
    assert(names@.len() == texts(names@).len());
    match first {
        None => Err(LibraryError::NoShow(String::from_str(show))),
        Some(p) => {
            if names.len() == 1 {
                Ok(p)
            } else {
                Err(
                    LibraryError::AmbiguousShow {
                        show: String::from_str(show),
                        listing: join(&names, ", "),
                    },
                )
            }
        },
    }
}

/// The line above the episodes of a podcast.
pub fn show_line(row: &PodcastRow) -> (text: String)
    ensures
        text@ == row.full_title@ + " — "@ + decimal(row.stored_episodes as int) + " stored / "@ + (
        match row.announced_episodes {
            Some(count) => count@,
            None => "?"@,
        }) + " announced episode(s)"@,
{
    let announced: &str = match &row.announced_episodes {
        Some(count) => count.as_str(),
        None => "?",
    };
    let head = cat5(
        row.full_title.as_str(),
        " — ",
        number(row.stored_episodes).as_str(),
        " stored / ",
        announced,
    );
    cat2(head.as_str(), " announced episode(s)")
}

/// An episode as it is listed; `last` is its runtime, or what is missing of it.
#[derive(Debug)]
pub struct EpisodeRow {
    /// Its id.
    pub asin: String,
    /// Its title.
    pub full_title: String,
    /// When it came out.
    pub release_date: Option<String>,
    /// The last column.
    pub last: Option<String>,
}



/// The row of an episode.
pub open spec fn episode_cells(row: EpisodeRow) -> Seq<Seq<char>> {
    seq![
        row.asin@,
        row.full_title@,
        or_empty(opt_text(row.release_date)),
        or_empty(opt_text(row.last)),
    ]
}

/// The rows of episodes.
pub fn episode_rows(list: &Vec<EpisodeRow>) -> (rows: Vec<Vec<String>>)
    ensures
        cells(rows@) == list@.map_values(|row: EpisodeRow| episode_cells(row)),
{
    let mut rows: Vec<Vec<String>> = Vec::new();
    let ghost want = list@.map_values(|row: EpisodeRow| episode_cells(row));
    let mut i: usize = 0;
    assert(cells(rows@) =~= want.subrange(0, 0));
    while i < list.len()
        invariant
            i <= list@.len(),
            want == list@.map_values(|row: EpisodeRow| episode_cells(row)),
            cells(rows@) == want.subrange(0, i as int),
        decreases list.len() - i,
    {
        let row = &list[i];
        push_row(
            &mut rows,
            row4(
                row.asin.clone(),
                row.full_title.clone(),
                text_or_empty(&row.release_date),
                text_or_empty(&row.last),
            ),
        );
        i = i + 1;
        assert(cells(rows@) =~= want.subrange(0, i as int));
    }
    assert(want.subrange(0, i as int) =~= want);
    rows
}

proof fn lemma_meant_places(rows: Seq<PodcastRow>, show: Seq<char>, place: int)
    ensures
        meant_places(rows, show).contains(place) <==> 0 <= place < rows.len() && is_meant(
            rows[place],
            show,
        ),
        meant_places(rows, show).no_duplicates(),
    decreases rows.len(),
{
    if rows.len() > 0 {
        let front = rows.drop_last();
        let before = meant_places(front, show);
        let all = meant_places(rows, show);
        lemma_meant_places(front, show, place);
        lemma_meant_places(front, show, rows.len() - 1);
        if before.contains(place) {
            let k = choose|k: int| 0 <= k < before.len() && before[k] == place;
            assert(all[k] == place);
        }
        if is_meant(rows.last(), show) {
            assert(all[before.len() as int] == rows.len() - 1);
            assert forall|i: int, j: int| 0 <= i < j < all.len() implies all[i] != all[j] by {
                if j == before.len() {
                    assert(before.contains(before[i]));
                }
            }
        }
        if all.contains(place) {
            let k = choose|k: int| 0 <= k < all.len() && all[k] == place;
            if k < before.len() {
                assert(before[k] == place);
            }
        }
        if 0 <= place < front.len() {
            assert(front[place] == rows[place]);
        }
    }
}

/// The show that is picked is the only one that is meant, by its id or by a part of
/// its title whatever the case of its letters; it is picked wherever there is
/// exactly one, and where there is none, or where there are several, that is
/// said.
pub proof fn law_the_only_show_is_picked(rows: Seq<PodcastRow>, show: Seq<char>, i: int)
    requires
        0 <= i < rows.len(),
    ensures
        ({
            let meant = |k: int|
                0 <= k < rows.len() && (rows[k].asin@ == show || holds(
                    unicode_lower(rows[k].full_title@),
                    unicode_lower(show),
                ));
            &&& show_of(rows, show) == Ok::<int, LibraryError<Seq<char>>>(i) <==> meant(i)
                && forall|k: int| #[trigger] meant(k) ==> k == i
            &&& show_of(rows, show) == Err::<int, LibraryError<Seq<char>>>(
                LibraryError::NoShow(show),
            ) <==> forall|k: int| !#[trigger] meant(k)
        }),
{
    let meant = |k: int|
        0 <= k < rows.len() && (rows[k].asin@ == show || holds(
            unicode_lower(rows[k].full_title@),
            unicode_lower(show),
        ));
    let found = meant_places(rows, show);
    assert forall|k: int| #[trigger] meant(k) <==> found.contains(k) by {
        lemma_meant_places(rows, show, k);
    }
    lemma_meant_places(rows, show, i);
    if found.len() == 1 {
        assert(found.contains(found[0]));
        assert(meant(found[0]));
    }
    if found.len() > 1 {
        assert(found.contains(found[0]));
        assert(found.contains(found[1]));
        assert(meant(found[0]));
        assert(meant(found[1]));
        assert(found[0] != found[1]);
    }
    if found.len() == 0 {
        assert forall|k: int| !#[trigger] meant(k) by {
            assert(!found.contains(k));
        }
    } else {
        assert(found.contains(found[0]));
        assert(meant(found[0]));
    }
}

/// Several shows that are meant are all named, each by its title, its id and its
/// marketplace.
pub proof fn law_meant_shows_are_named(rows: Seq<PodcastRow>, show: Seq<char>, i: int)
    requires
        0 <= i < rows.len(),
        rows[i].asin@ == show || holds(unicode_lower(rows[i].full_title@), unicode_lower(show)),
        show_of(rows, show) is Err,
    ensures
        show_of(rows, show)->Err_0 matches LibraryError::AmbiguousShow { show: named, listing }
            && named == show && listing == podcasts_text(rows, meant_places(rows, show)),
        meant_places(rows, show).contains(i),
        podcast_text(rows[i]) == rows[i].full_title@ + " ("@ + rows[i].asin@ + ", "@
            + rows[i].marketplace@ + ")"@,
{
    lemma_meant_places(rows, show, i);
}

/// The row of an episode shows each of its properties in its column; an absent one
/// is empty.
pub proof fn law_episode_rows_show_each_property(row: EpisodeRow)
    ensures
        episode_cells(row).len() == 4,
        episode_cells(row)[0] == row.asin@,
        episode_cells(row)[1] == row.full_title@,
        row.release_date matches Some(text) ==> episode_cells(row)[2] == text@,
        row.release_date is None ==> episode_cells(row)[2].len() == 0,
        row.last matches Some(text) ==> episode_cells(row)[3] == text@,
        row.last is None ==> episode_cells(row)[3].len() == 0,
{
}

} // verus!
