//! Syncing the library: what is asked for, what came of it, and how long a
//! change is waited for.

use vstd::prelude::*;
use vstd::string::StringExecFns;
use super::changes::ApplyOutcome;
use super::changes::add_section;
use super::changes::section_lines;
use super::error::LibraryError;
use crate::lists::push_text;
use crate::tables::cells;
use crate::tables::push_row;
use crate::tables::row2;
use crate::text::before;
use crate::text::cat3;
use crate::text::cat5;
use crate::text::decimal;
use crate::text::join;
use crate::text::joined;
use crate::text::lemma_before_irreflexive;
use crate::text::lemma_before_total;
use crate::text::lemma_before_transitive;
use crate::text::number;
use crate::text::text_before;
use crate::text::texts;

verus! {

/// How many marketplaces are synced at once.
pub const SYNC_MARKETPLACE_CONCURRENCY: usize = 4;

/// What a sync is to do.
#[derive(Clone, Copy, Debug, PartialEq, Eq, Structural)]
pub struct SyncOptions {
    /// Fetch everything, not only what changed.
    pub full: bool,
    /// How many items a page holds.
    pub page_size: u32,
    /// Fetch the episodes of podcasts.
    pub resolve_podcasts: bool,
    /// Keep a log of changes.
    pub record_changes: bool,
    /// For how many days the log is kept.
    pub change_retention_days: u32,
}

/// The size of a page, within what the server takes.
pub open spec fn page_size_of(configured: u32) -> u32 {
    if configured < 10 {
        10
    } else if configured > 1000 {
        1000
    } else {
        configured
    }
}

/// Keeps the size of a page within what the server takes.
pub fn page_size(configured: u32) -> (size: u32)
    ensures
        size == page_size_of(configured),
{
    if configured < 10 {
        10
    } else if configured > 1000 {
        1000
    } else {
        configured
    }
}

/// What a sync is to do, by its flags and the settings.
pub open spec fn options_for(
    full: bool,
    no_podcasts: bool,
    configured_page_size: u32,
    resolve_podcasts: bool,
    record_changes: bool,
    change_retention_days: u32,
) -> SyncOptions {
    SyncOptions {
        full,
        page_size: page_size_of(configured_page_size),
        resolve_podcasts: resolve_podcasts && !no_podcasts,
        record_changes,
        change_retention_days,
    }
}

/// What a sync is to do, by the settings and what was asked for.
pub fn sync_options(
    full: bool,
    no_podcasts: bool,
    configured_page_size: u32,
    resolve_podcasts: bool,
    record_changes: bool,
    change_retention_days: u32,
) -> (options: SyncOptions)
    ensures
        options == options_for(
            full,
            no_podcasts,
            configured_page_size,
            resolve_podcasts,
            record_changes,
            change_retention_days,
        ),
{
    SyncOptions {
        full,
        page_size: page_size(configured_page_size),
        resolve_podcasts: resolve_podcasts && !no_podcasts,
        record_changes,
        change_retention_days,
    }
}

/// What came of the sync of a marketplace.
#[derive(Debug)]
pub struct SyncSummary {
    /// `full` or `delta`.
    pub mode: String,
    /// How many pages were fetched.
    pub pages: u32,
    /// Whether the library was empty before.
    pub initial: bool,
    /// What changed.
    pub changes: ApplyOutcome,
    /// How many podcasts were looked into.
    pub podcasts_resolved: usize,
    /// How many episodes are new or changed.
    pub episodes_upserted: usize,
    /// How many episodes are gone.
    pub episodes_deleted: usize,
}

/// What came of the sync of a marketplace, or why nothing did.
#[derive(Debug)]
pub struct SyncResult {
    /// The marketplace.
    pub marketplace: String,
    /// What came of it.
    pub outcome: Result<SyncSummary, String>,
}

/// The list with a result behind all whose marketplaces do not come after it.
pub open spec fn placed(list: Seq<SyncResult>, result: SyncResult) -> Seq<SyncResult>
    decreases list.len(),
{
    if list.len() > 0 && before(result.marketplace@, list.last().marketplace@) {
        placed(list.drop_last(), result).push(list.last())
    } else {
        list.push(result)
    }
}

/// The results in the order of their marketplaces; those of one marketplace
/// keep theirs.
pub open spec fn by_marketplace(list: Seq<SyncResult>) -> Seq<SyncResult>
    decreases list.len(),
{
    if list.len() == 0 {
        Seq::empty()
    } else {
        placed(by_marketplace(list.drop_last()), list.last())
    }
}

proof fn lemma_placed(list: Seq<SyncResult>, result: SyncResult, i: int)
    requires
        0 <= i <= list.len(),
        forall|k: int|
            i <= k < list.len() ==> before(result.marketplace@, (#[trigger] list[k]).marketplace@),
        i > 0 ==> !before(result.marketplace@, list[i - 1].marketplace@),
    ensures
        placed(list, result) == list.insert(i, result),
    decreases list.len(),
{
    if i == list.len() {
        assert(list.insert(i, result) =~= list.push(result));
    } else {
        assert(before(result.marketplace@, list[list.len() - 1].marketplace@));
        let front = list.drop_last();
        assert forall|k: int| i <= k < front.len() implies before(
            result.marketplace@,
            (#[trigger] front[k]).marketplace@,
        ) by {
            assert(front[k] == list[k]);
        }
        lemma_placed(front, result, i);
        assert(list.insert(i, result) =~= front.insert(i, result).push(list.last()));
    }
}

fn place(list: &mut Vec<SyncResult>, result: SyncResult)
    ensures
        final(list)@ == placed(old(list)@, result),
{
    let mut i: usize = list.len();
    while i > 0 && text_before(result.marketplace.as_str(), list[i - 1].marketplace.as_str())
        invariant
            i <= list@.len(),
            forall|k: int|
                i <= k < list@.len() ==> before(
                    result.marketplace@,
                    (#[trigger] list@[k]).marketplace@,
                ),
        decreases i,
    {
        i = i - 1;
    }
    proof {
        lemma_placed(list@, result, i as int);
    }
    list.insert(i, result);
}

/// Puts results in the order of their marketplaces.
pub fn sort_results(results: Vec<SyncResult>) -> (sorted: Vec<SyncResult>)
    ensures
        sorted@ == by_marketplace(results@),
{
    let ghost all = results@;
    let mut reversed: Vec<SyncResult> = Vec::new();
    let mut rest = results;
    assert(all.subrange(0, all.len() as int) =~= all);
    while rest.len() > 0
        invariant
            rest@.len() <= all.len(),
            rest@ == all.subrange(0, rest@.len() as int),
            reversed@.len() == all.len() - rest@.len(),
            forall|k: int|
                0 <= k < reversed@.len() ==> #[trigger] reversed@[k] == all[all.len() - 1 - k],
        decreases rest.len(),
    {
        let ghost was = rest@;
        match rest.pop() {
            Some(item) => {
                assert(item == all[was.len() - 1]);
                reversed.push(item);
                assert(rest@ =~= all.subrange(0, rest@.len() as int));
            },
            None => {},
        }
    }
    let mut sorted: Vec<SyncResult> = Vec::new();
    assert(sorted@ =~= by_marketplace(all.subrange(0, 0)));
    while reversed.len() > 0
        invariant
            reversed@.len() <= all.len(),
            forall|k: int|
                0 <= k < reversed@.len() ==> #[trigger] reversed@[k] == all[all.len() - 1 - k],
            sorted@ == by_marketplace(all.subrange(0, all.len() - reversed@.len())),
        decreases reversed.len(),
    {
        let ghost done = all.len() - reversed@.len();
        assert(reversed@[reversed@.len() - 1] == all[done]);
        match reversed.pop() {
            Some(item) => {
                assert(item == all[done]);
                assert(all.subrange(0, done + 1).drop_last() =~= all.subrange(0, done));
                place(&mut sorted, item);
            },
            None => {},
        }
    }
    assert(all.subrange(0, all.len() as int) =~= all);
    sorted
}

/// Whether no result comes before one that stands ahead of it.
pub open spec fn in_marketplace_order(list: Seq<SyncResult>) -> bool {
    forall|i: int, j: int|
        0 <= i < j < list.len() ==> !before(
            (#[trigger] list[j]).marketplace@,
            (#[trigger] list[i]).marketplace@,
        )
}

proof fn lemma_placed_keeps(list: Seq<SyncResult>, result: SyncResult)
    requires
        in_marketplace_order(list),
    ensures
        in_marketplace_order(placed(list, result)),
        placed(list, result).to_multiset() == list.to_multiset().insert(result),
        forall|i: int|
            0 <= i < placed(list, result).len() ==> (#[trigger] placed(list, result)[i]) == result
                || list.contains(placed(list, result)[i]),
    decreases list.len(),
{
    broadcast use vstd::seq_lib::group_to_multiset_ensures;

    let all = placed(list, result);
    if list.len() > 0 && before(result.marketplace@, list.last().marketplace@) {
        let front = list.drop_last();
        let rest = placed(front, result);
        assert forall|i: int, j: int| 0 <= i < j < front.len() implies !before(
            (#[trigger] front[j]).marketplace@,
            (#[trigger] front[i]).marketplace@,
        ) by {
            assert(front[i] == list[i] && front[j] == list[j]);
        }
        lemma_placed_keeps(front, result);
        assert(list =~= front.push(list.last()));
        assert(all.to_multiset() =~= list.to_multiset().insert(result));
        assert forall|i: int| 0 <= i < rest.len() implies !before(
            list.last().marketplace@,
            (#[trigger] rest[i]).marketplace@,
        ) && (rest[i] == result || list.contains(rest[i])) by {
            if rest[i] == result {
                if before(list.last().marketplace@, result.marketplace@) {
                    lemma_before_transitive(
                        result.marketplace@,
                        list.last().marketplace@,
                        result.marketplace@,
                    );
                    lemma_before_irreflexive(result.marketplace@);
                }
            } else {
                let k = choose|k: int| 0 <= k < front.len() && front[k] == rest[i];
                assert(list[k] == rest[i]);
                assert(!before(list[list.len() - 1].marketplace@, list[k].marketplace@));
            }
        }
        assert(list.contains(list[list.len() - 1]));
    } else {
        assert(all.to_multiset() =~= list.to_multiset().insert(result));
        assert forall|i: int| 0 <= i < list.len() implies !before(
            result.marketplace@,
            (#[trigger] list[i]).marketplace@,
        ) by {
            let last = list[list.len() - 1];
            if before(result.marketplace@, list[i].marketplace@) && i < list.len() - 1 {
                assert(!before(last.marketplace@, list[i].marketplace@));
                lemma_before_total(last.marketplace@, list[i].marketplace@);
                if last.marketplace@ != list[i].marketplace@ {
                    lemma_before_transitive(
                        result.marketplace@,
                        list[i].marketplace@,
                        last.marketplace@,
                    );
                }
            }
        }
        assert forall|i: int| 0 <= i < all.len() implies (#[trigger] all[i]) == result
            || list.contains(all[i]) by {
            if i < list.len() {
                assert(list[i] == all[i]);
            }
        }
    }
}

/// Putting results in order loses none and adds none, and they stand in the
/// order of their marketplaces.
pub proof fn law_results_are_sorted(results: Seq<SyncResult>)
    ensures
        in_marketplace_order(by_marketplace(results)),
        by_marketplace(results).to_multiset() == results.to_multiset(),
    decreases results.len(),
{
    broadcast use vstd::seq_lib::group_to_multiset_ensures;

    if results.len() > 0 {
        law_results_are_sorted(results.drop_last());
        lemma_placed_keeps(by_marketplace(results.drop_last()), results.last());
        assert(results =~= results.drop_last().push(results.last()));
        assert(by_marketplace(results).to_multiset() =~= results.to_multiset());
    } else {
        assert(results =~= Seq::<SyncResult>::empty());
    }
}

/// The sums over what came of several syncs.
pub struct Totals {
    /// How the last that succeeded was done.
    pub mode: Seq<char>,
    /// Pages.
    pub pages: int,
    /// Items that are new.
    pub added: int,
    /// Items that changed.
    pub changed: int,
    /// Items that are gone.
    pub removed: int,
    /// Podcasts that were looked into.
    pub podcasts_resolved: int,
    /// Episodes that are new or changed.
    pub episodes_upserted: int,
    /// Episodes that are gone.
    pub episodes_deleted: int,
    /// Marketplaces that could not be synced.
    pub failures: int,
}

/// The sums over what came of several syncs.
pub open spec fn totals_of(results: Seq<SyncResult>) -> Totals
    decreases results.len(),
{
    if results.len() == 0 {
        Totals {
            mode: "delta"@,
            pages: 0,
            added: 0,
            changed: 0,
            removed: 0,
            podcasts_resolved: 0,
            episodes_upserted: 0,
            episodes_deleted: 0,
            failures: 0,
        }
    } else {
        let front = totals_of(results.drop_last());
        match results.last().outcome {
            Ok(summary) => Totals {
                mode: summary.mode@,
                pages: front.pages + summary.pages,
                added: front.added + summary.changes.added@.len(),
                changed: front.changed + summary.changes.changed@.len(),
                removed: front.removed + summary.changes.removed@.len(),
                podcasts_resolved: front.podcasts_resolved + summary.podcasts_resolved,
                episodes_upserted: front.episodes_upserted + summary.episodes_upserted,
                episodes_deleted: front.episodes_deleted + summary.episodes_deleted,
                failures: front.failures,
            },
            Err(_) => Totals { failures: front.failures + 1, ..front },
        }
    }
}

/// Whether the sums fit the machine's numbers.
pub open spec fn sums_fit(totals: Totals) -> bool {
    &&& totals.pages <= u32::MAX
    &&& totals.added <= usize::MAX
    &&& totals.changed <= usize::MAX
    &&& totals.removed <= usize::MAX
    &&& totals.podcasts_resolved <= usize::MAX
    &&& totals.episodes_upserted <= usize::MAX
    &&& totals.episodes_deleted <= usize::MAX
}

proof fn lemma_totals_grow(results: Seq<SyncResult>, i: int)
    requires
        0 <= i <= results.len(),
    ensures
        ({
            let part = totals_of(results.subrange(0, i));
            let whole = totals_of(results);
            &&& 0 <= part.pages <= whole.pages
            &&& 0 <= part.added <= whole.added
            &&& 0 <= part.changed <= whole.changed
            &&& 0 <= part.removed <= whole.removed
            &&& 0 <= part.podcasts_resolved <= whole.podcasts_resolved
            &&& 0 <= part.episodes_upserted <= whole.episodes_upserted
            &&& 0 <= part.episodes_deleted <= whole.episodes_deleted
            &&& 0 <= part.failures <= whole.failures <= results.len()
        }),
    decreases results.len(),
{
    if results.len() > 0 {
        let front = results.drop_last();
        if i == results.len() {
            assert(results.subrange(0, i) =~= results);
            assert(front.subrange(0, front.len() as int) =~= front);
            lemma_totals_grow(front, front.len() as int);
        } else {
            assert(results.subrange(0, i) =~= front.subrange(0, i));
            lemma_totals_grow(front, i);
        }
    } else {
        assert(results.subrange(0, i) =~= results);
    }
}

/// What is said of the sync of each marketplace: of one that failed why, of the
/// others, where there are several, what came of them.
pub open spec fn progress_lines(results: Seq<SyncResult>, multi: bool) -> Seq<Seq<char>>
    decreases results.len(),
{
    if results.len() == 0 {
        Seq::empty()
    } else {
        let front = progress_lines(results.drop_last(), multi);
        let name = results.last().marketplace@;
        match results.last().outcome {
            Ok(summary) => if multi {
                front.push(
                    name + ": "@ + summary.mode@ + " mode, +"@ + decimal(
                        summary.changes.added@.len() as int,
                    ) + " ~"@ + decimal(summary.changes.changed@.len() as int) + " -"@ + decimal(
                        summary.changes.removed@.len() as int,
                    ),
                )
            } else {
                front
            },
            Err(error) => front.push(name + ": sync failed: "@ + error@),
        }
    }
}

/// The lines of what changed; the first sync is passed over, in which all is
/// new.
pub open spec fn changes_lines(results: Seq<SyncResult>, multi: bool, show_volatile: bool) -> Seq<
    Seq<char>,
>
    decreases results.len(),
{
    if results.len() == 0 {
        Seq::empty()
    } else {
        let front = changes_lines(results.drop_last(), multi, show_volatile);
        match results.last().outcome {
            Ok(summary) => if summary.initial {
                front
            } else {
                front + section_lines(
                    results.last().marketplace@,
                    summary.changes,
                    multi,
                    show_volatile,
                )
            },
            Err(_) => front,
        }
    }
}

/// The lines that sum up a sync.
pub open spec fn summary_cells(
    marketplaces: Seq<Seq<char>>,
    totals: Totals,
    database: Seq<char>,
) -> Seq<Seq<Seq<char>>> {
    seq![
        seq!["marketplaces"@, joined(marketplaces, ","@)],
        seq!["mode"@, totals.mode],
        seq!["pages"@, decimal(totals.pages)],
        seq!["added"@, decimal(totals.added)],
        seq!["changed"@, decimal(totals.changed)],
        seq!["removed"@, decimal(totals.removed)],
        seq!["podcasts_resolved"@, decimal(totals.podcasts_resolved)],
        seq!["episodes_upserted"@, decimal(totals.episodes_upserted)],
        seq!["episodes_deleted"@, decimal(totals.episodes_deleted)],
        seq!["database"@, database],
    ]
}

/// The fault of a sync, where a marketplace failed.
pub open spec fn sync_fault(totals: Totals, marketplaces: nat) -> Option<
    LibraryError<Seq<char>>,
> {
    if totals.failures > 0 {
        Some(
            LibraryError::SyncFailed {
                failures: totals.failures as usize,
                total: marketplaces as usize,
            },
        )
    } else {
        None
    }
}

/// What is shown once a sync is done.
#[derive(Debug)]
pub struct SyncReport {
    /// What is said of each marketplace.
    pub progress: Vec<String>,
    /// The lines that sum it up.
    pub rows: Vec<Vec<String>>,
    /// The lines of what changed.
    pub changes: Vec<String>,
    /// The fault, where some marketplaces could not be synced.
    pub fault: Option<LibraryError<String>>,
}

fn sum_line(rows: &mut Vec<Vec<String>>, name: &str, value: String)
    ensures
        cells(final(rows)@) == cells(old(rows)@).push(seq![name@, value@]),
{
    push_row(rows, row2(String::from_str(name), value));
}

/// Sums in the machine's numbers.
struct Sums {
    pages: u32,
    added: usize,
    changed: usize,
    removed: usize,
    podcasts_resolved: usize,
    episodes_upserted: usize,
    episodes_deleted: usize,
}

spec fn sums_are(sums: Sums, totals: Totals) -> bool {
    &&& sums.pages == totals.pages
    &&& sums.added == totals.added
    &&& sums.changed == totals.changed
    &&& sums.removed == totals.removed
    &&& sums.podcasts_resolved == totals.podcasts_resolved
    &&& sums.episodes_upserted == totals.episodes_upserted
    &&& sums.episodes_deleted == totals.episodes_deleted
}

fn sum_rows(marketplaces: &Vec<String>, mode: &str, sums: &Sums, database: &str, Ghost(totals): Ghost<Totals>) -> (rows: Vec<Vec<String>>)
    requires
        mode@ == totals.mode,
        sums_are(*sums, totals),
    ensures
        cells(rows@) == summary_cells(texts(marketplaces@), totals, database@),
{
    let mut rows: Vec<Vec<String>> = Vec::new();
    assert(cells(rows@) =~= Seq::<Seq<Seq<char>>>::empty());
    sum_line(&mut rows, "marketplaces", join(marketplaces, ","));
    sum_line(&mut rows, "mode", String::from_str(mode));
    sum_line(&mut rows, "pages", number(sums.pages as u64));
    sum_line(&mut rows, "added", number(sums.added as u64));
    sum_line(&mut rows, "changed", number(sums.changed as u64));
    sum_line(&mut rows, "removed", number(sums.removed as u64));
    sum_line(&mut rows, "podcasts_resolved", number(sums.podcasts_resolved as u64));
    sum_line(&mut rows, "episodes_upserted", number(sums.episodes_upserted as u64));
    sum_line(&mut rows, "episodes_deleted", number(sums.episodes_deleted as u64));
    sum_line(&mut rows, "database", String::from_str(database));
    assert(cells(rows@) =~= summary_cells(texts(marketplaces@), totals, database@));
    rows
}

fn progress_line(name: &str, summary: &SyncSummary) -> (text: String)
    ensures
        text@ == name@ + ": "@ + summary.mode@ + " mode, +"@ + decimal(
            summary.changes.added@.len() as int,
        ) + " ~"@ + decimal(summary.changes.changed@.len() as int) + " -"@ + decimal(
            summary.changes.removed@.len() as int,
        ),
{
    let mut text = cat5(
        name,
        ": ",
        summary.mode.as_str(),
        " mode, +",
        number(summary.changes.added.len() as u64).as_str(),
    );
    text.append(" ~");
    text.append(number(summary.changes.changed.len() as u64).as_str());
    text.append(" -");
    text.append(number(summary.changes.removed.len() as u64).as_str());
    text
}

/// Reports what came of the syncs of the marketplaces, in the order of their
/// names. One that fails does not keep the others from being reported; it is
/// named, and the whole counts as failed.
pub fn sync_report(
    results: Vec<SyncResult>,
    marketplaces: &Vec<String>,
    database: &str,
    show_volatile: bool,
) -> (report: SyncReport)
    requires
        sums_fit(totals_of(by_marketplace(results@))),
    ensures
        ({
            let sorted = by_marketplace(results@);
            let totals = totals_of(sorted);
            let multi = marketplaces@.len() > 1;
            &&& texts(report.progress@) == progress_lines(sorted, multi)
            &&& cells(report.rows@) == summary_cells(texts(marketplaces@), totals, database@)
            &&& texts(report.changes@) == changes_lines(sorted, multi, show_volatile)
            &&& match report.fault {
                None => sync_fault(totals, marketplaces@.len()) is None,
                Some(e) => sync_fault(totals, marketplaces@.len()) == Some(e@),
            }
        }),
{
    let sorted = sort_results(results);
    let ghost all = sorted@;
    let multi = marketplaces.len() > 1;
    let mut sums = Sums {
        pages: 0,
        added: 0,
        changed: 0,
        removed: 0,
        podcasts_resolved: 0,
        episodes_upserted: 0,
        episodes_deleted: 0,
    };
    let mut mode = String::from_str("delta");
    let mut failures: usize = 0;
    let mut progress: Vec<String> = Vec::new();
    let mut changes: Vec<String> = Vec::new();
    let mut i: usize = 0;
    assert(texts(progress@) =~= progress_lines(all.subrange(0, 0), multi));
    assert(texts(changes@) =~= changes_lines(all.subrange(0, 0), multi, show_volatile));
    while i < sorted.len()
        invariant
            i <= sorted@.len(),
            all == sorted@,
            sums_fit(totals_of(all)),
            sums_are(sums, totals_of(all.subrange(0, i as int))),
            mode@ == totals_of(all.subrange(0, i as int)).mode,
            failures == totals_of(all.subrange(0, i as int)).failures,
            texts(progress@) == progress_lines(all.subrange(0, i as int), multi),
            texts(changes@) == changes_lines(all.subrange(0, i as int), multi, show_volatile),
        decreases sorted.len() - i,
    {
        let ghost next = all.subrange(0, i + 1);
        proof {
            assert(next.drop_last() =~= all.subrange(0, i as int));
            assert(next.last() == sorted@[i as int]);
            lemma_totals_grow(all, i + 1);
        }
        let result = &sorted[i];
        let name = result.marketplace.as_str();
        match &result.outcome {
            Ok(summary) => {
                if multi {
                    push_text(&mut progress, progress_line(name, summary));
                }
                mode = summary.mode.clone();
                sums.pages = sums.pages + summary.pages;
                sums.added = sums.added + summary.changes.added.len();
                sums.changed = sums.changed + summary.changes.changed.len();
                sums.removed = sums.removed + summary.changes.removed.len();
                sums.podcasts_resolved = sums.podcasts_resolved + summary.podcasts_resolved;
                sums.episodes_upserted = sums.episodes_upserted + summary.episodes_upserted;
                sums.episodes_deleted = sums.episodes_deleted + summary.episodes_deleted;
                if !summary.initial {
                    add_section(&mut changes, name, &summary.changes, multi, show_volatile);
                }
            },
            Err(error) => {
                push_text(&mut progress, cat3(name, ": sync failed: ", error.as_str()));
                failures = failures + 1;
            },
        }
        i = i + 1;
    }
    assert(all.subrange(0, i as int) =~= all);
    let rows = sum_rows(marketplaces, mode.as_str(), &sums, database, Ghost(totals_of(all)));
    let fault = if failures > 0 {
        Some(LibraryError::SyncFailed { failures, total: marketplaces.len() })
    } else {
        None
    };
    SyncReport { progress, rows, changes, fault }
}

/// One marketplace that fails never hides what came of another: the change of
/// every one that succeeded, and was not the first sync, is among the lines.
pub proof fn law_failures_hide_nothing(
    results: Seq<SyncResult>,
    multi: bool,
    show_volatile: bool,
    i: int,
    line: Seq<char>,
)
    requires
        0 <= i < results.len(),
        results[i].outcome is Ok,
        !results[i].outcome->Ok_0.initial,
        section_lines(
            results[i].marketplace@,
            results[i].outcome->Ok_0.changes,
            multi,
            show_volatile,
        ).contains(line),
    ensures
        changes_lines(results, multi, show_volatile).contains(line),
    decreases results.len(),
{
    let front = results.drop_last();
    let shown = changes_lines(front, multi, show_volatile);
    let all = changes_lines(results, multi, show_volatile);
    if i == results.len() - 1 {
        let own = section_lines(
            results[i].marketplace@,
            results[i].outcome->Ok_0.changes,
            multi,
            show_volatile,
        );
        let k = choose|k: int| 0 <= k < own.len() && own[k] == line;
        assert(all[shown.len() + k] == line);
    } else {
        assert(front[i] == results[i]);
        law_failures_hide_nothing(front, multi, show_volatile, i, line);
        let k = choose|k: int| 0 <= k < shown.len() && shown[k] == line;
        assert(all[k] == line);
    }
}

/// What is done while a change is waited for.
#[derive(Debug)]
pub enum PollStep {
    /// Nothing is waited for; this is said.
    Hint(String),
    /// A sync is tried after some seconds.
    Attempt {
        /// Which try it is, from zero.
        attempt: usize,
        /// After how many seconds.
        delay_secs: u64,
        /// What is said first.
        note: Option<String>,
    },
    /// The change is there.
    Done,
    /// The change is not there, and this is said.
    GiveUp(String),
}

/// After how many seconds each try is made.
pub open spec fn delays() -> Seq<u64> {
    seq![2u64, 5u64, 10u64]
}

fn delay(attempt: usize) -> (secs: u64)
    requires
        attempt < 3,
    ensures
        secs == delays()[attempt as int],
{
    if attempt == 0 {
        2
    } else if attempt == 1 {
        5
    } else {
        10
    }
}

/// Starts to wait for a change, where a sync was asked for.
pub fn poll_begin(sync_requested: bool) -> (step: PollStep)
    ensures
        match step {
            PollStep::Hint(text) => !sync_requested && text@
                == "note: run `audible library sync` to reflect the change in the local library"@,
            PollStep::Attempt { attempt, delay_secs, note } => sync_requested && attempt == 0
                && delay_secs == delays()[0] && note is None,
            _ => false,
        },
{
    if !sync_requested {
        return PollStep::Hint(
            String::from_str(
                "note: run `audible library sync` to reflect the change in the local library",
            ),
        );
    }
    PollStep::Attempt { attempt: 0, delay_secs: delay(0), note: None }
}

/// Whether a step is what follows from a try.
pub open spec fn follows_try(attempt: int, reflected: bool, what: Seq<char>, step: PollStep) -> bool {
    match step {
        PollStep::Done => reflected,
        PollStep::Attempt { attempt: next, delay_secs, note } => !reflected && next == attempt + 1
            && next < delays().len() && delay_secs == delays()[next as int] && note is Some
            && note->Some_0@ == "change not in the library view yet; retrying the sync…"@,
        PollStep::GiveUp(text) => !reflected && attempt + 1 >= delays().len() && text@
            == "warning: "@ + what
            + " has not reached the library view yet — run `audible library sync` again in a moment"@,
        PollStep::Hint(_) => false,
    }
}

/// Goes on once a try was made: done where the change is there for every item,
/// else one more try, until there are no more; `what` names the change.
pub fn poll_next(attempt: usize, reflected: bool, what: &str) -> (step: PollStep)
    ensures
        follows_try(attempt as int, reflected, what@, step),
{
    if reflected {
        return PollStep::Done;
    }
    if attempt >= 2 {
        return PollStep::GiveUp(
            cat3(
                "warning: ",
                what,
                " has not reached the library view yet — run `audible library sync` again in a moment",
            ),
        );
    }
    PollStep::Attempt {
        attempt: attempt + 1,
        delay_secs: delay(attempt + 1),
        note: Some(String::from_str("change not in the library view yet; retrying the sync…")),
    }
}

/// The size of a page is the configured one wherever the server takes it, and
/// never outside what it takes.
pub proof fn law_page_sizes_fit_the_server(configured: u32)
    ensures
        10 <= page_size_of(configured) <= 1000,
        10 <= configured <= 1000 ==> page_size_of(configured) == configured,
        configured < 10 ==> page_size_of(configured) == 10,
        configured > 1000 ==> page_size_of(configured) == 1000,
{
}

/// Every sync that came to an end adds what it did to the sums, each number to
/// its own; one that failed adds a failure and nothing else.
pub proof fn law_sums_count_every_sync(results: Seq<SyncResult>, result: SyncResult)
    ensures
        ({
            let before = totals_of(results);
            let sums = totals_of(results.push(result));
            match result.outcome {
                Ok(summary) => {
                    &&& sums.pages - before.pages == summary.pages
                    &&& sums.added - before.added == summary.changes.added@.len()
                    &&& sums.changed - before.changed == summary.changes.changed@.len()
                    &&& sums.removed - before.removed == summary.changes.removed@.len()
                    &&& sums.podcasts_resolved - before.podcasts_resolved
                        == summary.podcasts_resolved
                    &&& sums.episodes_upserted - before.episodes_upserted
                        == summary.episodes_upserted
                    &&& sums.episodes_deleted - before.episodes_deleted == summary.episodes_deleted
                    &&& sums.failures == before.failures
                    &&& sums.mode == summary.mode@
                },
                Err(_) => sums == (Totals { failures: before.failures + 1, ..before }),
            }
        }),
        totals_of(Seq::empty()) == (Totals {
            mode: "delta"@,
            pages: 0,
            added: 0,
            changed: 0,
            removed: 0,
            podcasts_resolved: 0,
            episodes_upserted: 0,
            episodes_deleted: 0,
            failures: 0,
        }),
{
    assert(results.push(result).drop_last() =~= results);
}

/// A sync that failed is never kept quiet: the sums have a failure exactly where
/// one of them failed.
pub proof fn law_failures_are_counted(results: Seq<SyncResult>)
    ensures
        totals_of(results).failures >= 0,
        totals_of(results).failures > 0 <==> exists|i: int|
            0 <= i < results.len() && (#[trigger] results[i]).outcome is Err,
    decreases results.len(),
{
    if results.len() > 0 {
        let front = results.drop_last();
        law_failures_are_counted(front);
        if exists|i: int| 0 <= i < front.len() && (#[trigger] front[i]).outcome is Err {
            let i = choose|i: int| 0 <= i < front.len() && (#[trigger] front[i]).outcome is Err;
            assert(results[i].outcome is Err);
        }
        if exists|i: int| 0 <= i < results.len() && (#[trigger] results[i]).outcome is Err {
            let i = choose|i: int| 0 <= i < results.len() && (#[trigger] results[i]).outcome is Err;
            if i < front.len() {
                assert(front[i].outcome is Err);
            }
        }
        assert(results[results.len() - 1] == results.last());
    }
}

/// Of every sync that failed it is said why, and where there are several
/// marketplaces, of every other what came of it.
pub proof fn law_every_sync_is_told_of(results: Seq<SyncResult>, multi: bool, i: int)
    requires
        0 <= i < results.len(),
    ensures
        match results[i].outcome {
            Err(error) => progress_lines(results, multi).contains(
                results[i].marketplace@ + ": sync failed: "@ + error@,
            ),
            Ok(summary) => multi ==> progress_lines(results, multi).contains(
                results[i].marketplace@ + ": "@ + summary.mode@ + " mode, +"@ + decimal(
                    summary.changes.added@.len() as int,
                ) + " ~"@ + decimal(summary.changes.changed@.len() as int) + " -"@ + decimal(
                    summary.changes.removed@.len() as int,
                ),
            ),
        },
    decreases results.len(),
{
    let front = results.drop_last();
    let before = progress_lines(front, multi);
    let all = progress_lines(results, multi);
    if i < front.len() {
        assert(front[i] == results[i]);
        law_every_sync_is_told_of(front, multi, i);
        assert forall|line: Seq<char>| before.contains(line) implies all.contains(line) by {
            let k = choose|k: int| 0 <= k < before.len() && before[k] == line;
            assert(all[k] == line);
        }
    } else {
        if all.len() > before.len() {
            assert(all.contains(all[before.len() as int]));
        }
    }
}

/// Nothing is shown as changed that no sync changed: every line is of a
/// marketplace whose sync came to an end and was not its first.
pub proof fn law_changes_are_of_a_sync(
    results: Seq<SyncResult>,
    multi: bool,
    show_volatile: bool,
    line: Seq<char>,
)
    requires
        changes_lines(results, multi, show_volatile).contains(line),
    ensures
        exists|i: int|
            0 <= i < results.len() && (#[trigger] results[i]).outcome is Ok
                && !results[i].outcome->Ok_0.initial && section_lines(
                results[i].marketplace@,
                results[i].outcome->Ok_0.changes,
                multi,
                show_volatile,
            ).contains(line),
    decreases results.len(),
{
    if results.len() > 0 {
        let front = results.drop_last();
        let before = changes_lines(front, multi, show_volatile);
        let all = changes_lines(results, multi, show_volatile);
        let k = choose|k: int| 0 <= k < all.len() && all[k] == line;
        if k < before.len() {
            assert(before[k] == line);
            law_changes_are_of_a_sync(front, multi, show_volatile, line);
            let i = choose|i: int|
                0 <= i < front.len() && (#[trigger] front[i]).outcome is Ok
                    && !front[i].outcome->Ok_0.initial && section_lines(
                    front[i].marketplace@,
                    front[i].outcome->Ok_0.changes,
                    multi,
                    show_volatile,
                ).contains(line);
            assert(results[i] == front[i]);
        } else {
            let last = results[results.len() - 1];
            let lines = section_lines(
                last.marketplace@,
                last.outcome->Ok_0.changes,
                multi,
                show_volatile,
            );
            assert(lines[k - before.len()] == line);
        }
    }
}

/// The summary shows each sum beside its own name.
pub proof fn law_summaries_name_each_sum(
    marketplaces: Seq<Seq<char>>,
    totals: Totals,
    database: Seq<char>,
)
    ensures
        ({
            let rows = summary_cells(marketplaces, totals, database);
            &&& rows.contains(seq!["marketplaces"@, joined(marketplaces, ","@)])
            &&& rows.contains(seq!["mode"@, totals.mode])
            &&& rows.contains(seq!["pages"@, decimal(totals.pages)])
            &&& rows.contains(seq!["added"@, decimal(totals.added)])
            &&& rows.contains(seq!["changed"@, decimal(totals.changed)])
            &&& rows.contains(seq!["removed"@, decimal(totals.removed)])
            &&& rows.contains(seq!["podcasts_resolved"@, decimal(totals.podcasts_resolved)])
            &&& rows.contains(seq!["episodes_upserted"@, decimal(totals.episodes_upserted)])
            &&& rows.contains(seq!["episodes_deleted"@, decimal(totals.episodes_deleted)])
            &&& rows.contains(seq!["database"@, database])
            &&& rows.len() == 10
        }),
{
    let rows = summary_cells(marketplaces, totals, database);
    assert(rows.contains(rows[0]));
    assert(rows.contains(rows[1]));
    assert(rows.contains(rows[2]));
    assert(rows.contains(rows[3]));
    assert(rows.contains(rows[4]));
    assert(rows.contains(rows[5]));
    assert(rows.contains(rows[6]));
    assert(rows.contains(rows[7]));
    assert(rows.contains(rows[8]));
    assert(rows.contains(rows[9]));
}

/// Each try comes later than the one before it.
pub proof fn law_tries_come_later_and_later(i: int)
    ensures
        delays().len() == 3,
        0 < i < delays().len() ==> delays()[i - 1] < delays()[i],
        delays()[0] == 2,
        delays()[2] == 10,
{
}

/// A sync does what is asked of it: all where that is asked, podcasts where the settings
/// say so and no flag says otherwise, and changes are recorded and kept as the settings
/// say.
pub proof fn law_syncs_do_what_is_asked(
    full: bool,
    no_podcasts: bool,
    configured_page_size: u32,
    resolve_podcasts: bool,
    record_changes: bool,
    change_retention_days: u32,
)
    ensures
        ({
            let options = options_for(
                full,
                no_podcasts,
                configured_page_size,
                resolve_podcasts,
                record_changes,
                change_retention_days,
            );
            &&& options.full == full
            &&& options.resolve_podcasts <==> resolve_podcasts && !no_podcasts
            &&& options.record_changes == record_changes
            &&& options.change_retention_days == change_retention_days
            &&& 10 <= configured_page_size <= 1000 ==> options.page_size == configured_page_size
        }),
{
}

/// A change that is there ends the wait, and nothing else does before the third try;
/// after it the wait is given up, in words that name the change.
pub proof fn law_changes_are_waited_for(
    attempt: int,
    reflected: bool,
    what: Seq<char>,
    step: PollStep,
)
    requires
        follows_try(attempt, reflected, what, step),
        0 <= attempt,
    ensures
        step is Done <==> reflected,
        step is GiveUp <==> !reflected && attempt >= 2,
        step matches PollStep::Attempt { attempt: next, delay_secs, .. } ==> next == attempt + 1
            && next <= 2 && (next == 1 ==> delay_secs == 5) && (next == 2 ==> delay_secs == 10),
        !reflected && attempt < 2 ==> step is Attempt,
{
}

/// A sync fails exactly where one of its marketplaces did.
pub proof fn law_failed_marketplaces_fail_the_sync(results: Seq<SyncResult>, marketplaces: nat)
    ensures
        sync_fault(totals_of(results), marketplaces) is Some <==> exists|i: int|
            0 <= i < results.len() && (#[trigger] results[i]).outcome is Err,
        sync_fault(totals_of(results), marketplaces) matches Some(fault) ==> fault == (
        LibraryError::<Seq<char>>::SyncFailed {
            failures: totals_of(results).failures as usize,
            total: marketplaces as usize,
        }),
{
    law_failures_are_counted(results);
}

} // verus!
