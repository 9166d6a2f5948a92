//! The download records of an account's database, and how they are listed,
//! checked and pruned; and the care that is taken of the database itself.

use vstd::prelude::*;
use vstd::string::StringExecFns;
use crate::lists::holds_text;
use crate::lists::lemma_filtered;
use crate::lists::push_text;
use crate::paths::extension_dot;
use crate::paths::components;
use crate::paths::file_name;
use crate::paths::file_name_of;
use crate::paths::find_extension;
use crate::paths::same_path;
use crate::paths::sidecar_of;
use crate::paths::sidecar_path;
use crate::paths::strip_tail;
use crate::paths::without_tail;
use crate::tables::cells;
use crate::tables::push_row;
use crate::tables::row2;
use crate::tables::row5;
use crate::text::cat2;
use crate::text::cat3;
use crate::text::cat4;
use crate::text::cat5;
use crate::text::chars_of;
use crate::text::copy_text;
use crate::text::decimal;
use crate::text::number;
use crate::text::opt_str;
use crate::text::opt_text;
use crate::text::or_empty;
use crate::text::same;
use crate::text::slice_text;
use crate::text::str_or_empty;
use crate::text::texts;
use crate::units::human_size;
use crate::units::size_text;

verus! {

/// A recorded download.
#[derive(Debug)]
pub struct DownloadEntry {
    /// The item.
    pub asin: String,
    /// The marketplace of the item.
    pub marketplace: String,
    /// What was downloaded: `audio`, `chapter`, `pdf` or `cover`.
    pub kind: String,
    /// The format, or the size of a cover.
    pub content_format: String,
    /// `original`, `decrypted` or `reencoded`.
    pub variant: String,
    /// Where the file was put.
    pub file_path: String,
    /// How large the file was.
    pub file_size: Option<u64>,
}

/// A recorded download, in texts.
pub struct EntryView {
    /// The item.
    pub asin: Seq<char>,
    /// The marketplace of the item.
    pub marketplace: Seq<char>,
    /// What was downloaded.
    pub kind: Seq<char>,
    /// The format, or the size of a cover.
    pub content_format: Seq<char>,
    /// Which variant.
    pub variant: Seq<char>,
    /// Where the file was put.
    pub file_path: Seq<char>,
    /// How large the file was.
    pub file_size: Option<u64>,
}

impl View for DownloadEntry {
    type V = EntryView;

    open spec fn view(&self) -> EntryView {
        EntryView {
            asin: self.asin@,
            marketplace: self.marketplace@,
            kind: self.kind@,
            content_format: self.content_format@,
            variant: self.variant@,
            file_path: self.file_path@,
            file_size: self.file_size,
        }
    }
}

impl DownloadEntry {
    /// A second record with the same contents.
    pub fn copy(&self) -> (entry: DownloadEntry)
        ensures
            entry@ == self@,
    {
        DownloadEntry {
            asin: self.asin.clone(),
            marketplace: self.marketplace.clone(),
            kind: self.kind.clone(),
            content_format: self.content_format.clone(),
            variant: self.variant.clone(),
            file_path: self.file_path.clone(),
            file_size: self.file_size,
        }
    }
}

/// What the records hold, in texts.
pub open spec fn entries(list: Seq<DownloadEntry>) -> Seq<EntryView> {
    list.map_values(|entry: DownloadEntry| entry@)
}

fn push_entry(list: &mut Vec<DownloadEntry>, entry: DownloadEntry)
    ensures
        entries(final(list)@) == entries(old(list)@).push(entry@),
{
    let ghost known = entries(list@);
    list.push(entry);
    assert(entries(list@) =~= known.push(entry@));
}

/// What keeps a command on the database from being carried out; `T` holds the
/// texts that are named.
#[derive(Debug)]
pub enum DbError<T> {
    /// Nothing says which records to remove.
    NoFilter,
    /// A request kind was given for something other than audio.
    RequestKind,
    /// The file to record is not there.
    NoFile(T),
    /// There is something where the backup should go.
    BackupExists(T),
    /// The snapshot is no database.
    NotSqlite(T),
    /// The snapshot is the database itself.
    SameFile(T),
    /// The database has faults.
    Corrupt(usize),
}

impl View for DbError<String> {
    type V = DbError<Seq<char>>;

    open spec fn view(&self) -> DbError<Seq<char>> {
        match *self {
            DbError::NoFilter => DbError::NoFilter,
            DbError::RequestKind => DbError::RequestKind,
            DbError::NoFile(file) => DbError::NoFile(file@),
            DbError::BackupExists(file) => DbError::BackupExists(file@),
            DbError::NotSqlite(file) => DbError::NotSqlite(file@),
            DbError::SameFile(file) => DbError::SameFile(file@),
            DbError::Corrupt(count) => DbError::Corrupt(count),
        }
    }
}

impl DbError<String> {
    /// The words that tell the user of the fault.
    pub fn message(&self) -> (text: String)
        ensures
            text@ == match self@ {
                DbError::NoFilter =>
                    "specify at least one of --asin/--title/--kind/--format/--variant (to clear the whole database use `db reset`)"@,
                DbError::RequestKind => "--request-kind only applies to --kind audio"@,
                DbError::NoFile(file) => file
                    + " does not exist (drop --require-file to record it anyway)"@,
                DbError::BackupExists(file) => file
                    + " already exists (choose another path or remove it first)"@,
                DbError::NotSqlite(file) => file + " is not a SQLite database"@,
                DbError::SameFile(file) => file + " is the current database"@,
                DbError::Corrupt(count) => "integrity check found "@ + decimal(count as int)
                    + " problem(s)"@,
            },
    {
        match self {
            DbError::NoFilter => String::from_str(
                "specify at least one of --asin/--title/--kind/--format/--variant (to clear the whole database use `db reset`)",
            ),
            DbError::RequestKind => String::from_str("--request-kind only applies to --kind audio"),
            DbError::NoFile(file) => cat2(
                file.as_str(),
                " does not exist (drop --require-file to record it anyway)",
            ),
            DbError::BackupExists(file) => cat2(
                file.as_str(),
                " already exists (choose another path or remove it first)",
            ),
            DbError::NotSqlite(file) => cat2(file.as_str(), " is not a SQLite database"),
            DbError::SameFile(file) => cat2(file.as_str(), " is the current database"),
            DbError::Corrupt(count) => cat3(
                "integrity check found ",
                number(*count as u64).as_str(),
                " problem(s)",
            ),
        }
    }
}

/// The path of a file that belongs to a database: its own with a suffix behind
/// it (`-wal`, `-shm`).
pub fn sidecar(path: &str, suffix: &str) -> (file: String)
    ensures
        file@ == path@ + suffix@,
{
    cat2(path, suffix)
}

/// The path of the lock of a database: its own with another extension; a path
/// that names no file has none to change.
pub open spec fn lock_of(path: Seq<char>) -> Seq<char> {
    match file_name_of(path) {
        Some(_) => match extension_dot(path) {
            Some(dot) => path.subrange(0, dot) + ".lock"@,
            None => without_tail(path) + ".lock"@,
        },
        None => path,
    }
}

/// The path of the lock of a database.
pub fn lock_path(path: &str) -> (lock: String)
    ensures
        lock@ == lock_of(path@),
{
    if file_name(path).is_none() {
        return String::from_str(path);
    }
    let chars = chars_of(path);
    match find_extension(&chars) {
        Some(dot) => cat2(slice_text(&chars, 0, dot).as_str(), ".lock"),
        None => cat2(strip_tail(path).as_str(), ".lock"),
    }
}

/// The files that go with a database when it is reset.
pub open spec fn files_of_db(path: Seq<char>) -> Seq<Seq<char>> {
    seq![path, path + "-wal"@, path + "-shm"@, lock_of(path)]
}

/// The files that go with a database when it is reset: the database, what it
/// has yet to write, and its lock.
pub fn reset_files(path: &str) -> (files: Vec<String>)
    ensures
        texts(files@) == files_of_db(path@),
{
    let mut files: Vec<String> = Vec::new();
    push_text(&mut files, String::from_str(path));
    push_text(&mut files, sidecar(path, "-wal"));
    push_text(&mut files, sidecar(path, "-shm"));
    push_text(&mut files, lock_path(path));
    assert(texts(files@) =~= seq![path@, path@ + "-wal"@, path@ + "-shm"@, lock_of(path@)]);
    files
}

/// What every database starts with.
pub open spec fn sqlite_magic() -> Seq<u8> {
    seq![83, 81, 76, 105, 116, 101, 32, 102, 111, 114, 109, 97, 116, 32, 51, 0]
}

/// Whether a file whose first bytes are these is a database: sixteen bytes have
/// to be there, and to read `SQLite format 3` and a zero.
pub fn is_sqlite(header: &Vec<u8>) -> (yes: bool)
    ensures
        yes == (header@ == sqlite_magic()),
{
    let magic: Vec<u8> = vec![83, 81, 76, 105, 116, 101, 32, 102, 111, 114, 109, 97, 116, 32, 51, 0];
    assert(magic@ =~= sqlite_magic());
    if header.len() != magic.len() {
        return false;
    }
    let mut i: usize = 0;
    while i < magic.len()
        invariant
            i <= magic@.len(),
            header@.len() == magic@.len(),
            magic@ == sqlite_magic(),
            forall|k: int| 0 <= k < i ==> header@[k] == magic@[k],
        decreases magic.len() - i,
    {
        if header[i] != magic[i] {
            return false;
        }
        i = i + 1;
    }
    assert(header@ =~= magic@);
    true
}

/// Whether two paths lead to the same file: to be known only where both resolve.
pub fn same_file(a: Option<&str>, b: Option<&str>) -> (yes: bool)
    ensures
        yes == (a is Some && b is Some && components(a->Some_0@) == components(b->Some_0@)),
{
    match (a, b) {
        (Some(x), Some(y)) => same_path(x, y),
        _ => false,
    }
}

/// Checks that a backup may be written: nothing is there yet.
pub fn check_backup(dest: &str, there: bool) -> (result: Result<(), DbError<String>>)
    ensures
        match result {
            Ok(_) => !there,
            Err(e) => there && e@ == DbError::BackupExists(dest@),
        },
{
    if there {
        Err(DbError::BackupExists(String::from_str(dest)))
    } else {
        Ok(())
    }
}

/// What keeps a snapshot from taking the place of the database.
pub open spec fn restore_fault(
    source: Seq<char>,
    header: Seq<u8>,
    from: Option<Seq<char>>,
    to: Option<Seq<char>>,
) -> Option<DbError<Seq<char>>> {
    if header != sqlite_magic() {
        Some(DbError::NotSqlite(source))
    } else if from is Some && to is Some && components(from->Some_0) == components(to->Some_0) {
        Some(DbError::SameFile(source))
    } else {
        None
    }
}

/// Checks that a snapshot may take the place of the database. `header` is what
/// it starts with; the other two are the places that it and the database
/// resolve to.
pub fn check_restore(source: &str, header: &Vec<u8>, from: Option<&str>, to: Option<&str>) -> (result: Result<
    (),
    DbError<String>,
>)
    ensures
        match result {
            Ok(_) => restore_fault(source@, header@, opt_str(from), opt_str(to)) is None,
            Err(e) => restore_fault(source@, header@, opt_str(from), opt_str(to)) == Some(e@),
        },
{
    if !is_sqlite(header) {
        return Err(DbError::NotSqlite(String::from_str(source)));
    }
    if same_file(from, to) {
        return Err(DbError::SameFile(String::from_str(source)));
    }
    Ok(())
}

/// Judges an integrity check by its lines: a single `ok` says that all is well.
pub fn integrity(lines: &Vec<String>) -> (result: Result<(), DbError<String>>)
    ensures
        match result {
            Ok(_) => texts(lines@) == seq!["ok"@],
            Err(e) => texts(lines@) != seq!["ok"@] && e@ == DbError::<Seq<char>>::Corrupt(
                lines@.len() as usize,
            ),
        },
{
    if lines.len() == 1 && same(lines[0].as_str(), "ok") {
        assert(texts(lines@) =~= seq!["ok"@]);
        return Ok(());
    }
    assert(texts(lines@) != seq!["ok"@]) by {
        if texts(lines@) == seq!["ok"@] {
            assert(texts(lines@).len() == 1);
            assert(texts(lines@)[0] == lines@[0]@);
        }
    }
    Err(DbError::Corrupt(lines.len()))
}

/// What a database holds, in numbers.
#[derive(Debug)]
pub struct Stats {
    /// The version of its tables.
    pub schema_version: u64,
    /// Items in the library.
    pub items_active: u64,
    /// Items that left the library.
    pub items_deleted: u64,
    /// Episodes.
    pub episodes_active: u64,
    /// Series.
    pub series: u64,
    /// Records of downloads.
    pub downloads: u64,
    /// Licenses.
    pub licenses: u64,
    /// When the library was last synced.
    pub last_sync_utc: Option<String>,
}

/// The lines that describe a database: where it is, how large it and its
/// `-wal` and `-shm` are, and what it holds.
pub open spec fn info_lines(
    path: Seq<char>,
    size: Option<u64>,
    wal: Option<u64>,
    shm: Option<u64>,
    stats: Stats,
) -> Seq<Seq<Seq<char>>> {
    seq![
        seq!["path"@, path],
        seq!["size"@, size_text(size)],
        seq!["wal / shm"@, size_text(wal) + " / "@ + size_text(shm)],
        seq!["schema"@, "v"@ + decimal(stats.schema_version as int)],
        seq![
            "items"@,
            decimal(stats.items_active as int) + " active, "@ + decimal(stats.items_deleted as int)
                + " deleted"@,
        ],
        seq!["episodes"@, decimal(stats.episodes_active as int)],
        seq!["series"@, decimal(stats.series as int)],
        seq!["downloads"@, decimal(stats.downloads as int)],
        seq!["licenses"@, decimal(stats.licenses as int)],
        seq![
            "last sync"@,
            match stats.last_sync_utc {
                Some(time) => time@,
                None => "never"@,
            },
        ],
    ]
}

fn line(rows: &mut Vec<Vec<String>>, name: &str, value: String)
    ensures
        cells(final(rows)@) == cells(old(rows)@).push(seq![name@, value@]),
{
    push_row(rows, row2(String::from_str(name), value));
}

/// The lines that describe a database.
pub fn info_rows(
    path: &str,
    size: Option<u64>,
    wal: Option<u64>,
    shm: Option<u64>,
    stats: &Stats,
) -> (rows: Vec<Vec<String>>)
    ensures
        cells(rows@) == info_lines(path@, size, wal, shm, *stats),
{
    let mut rows: Vec<Vec<String>> = Vec::new();
    assert(cells(rows@) =~= Seq::<Seq<Seq<char>>>::empty());
    line(&mut rows, "path", String::from_str(path));
    line(&mut rows, "size", human_size(size));
    line(
        &mut rows,
        "wal / shm",
        cat3(human_size(wal).as_str(), " / ", human_size(shm).as_str()),
    );
    line(&mut rows, "schema", cat2("v", number(stats.schema_version).as_str()));
    line(
        &mut rows,
        "items",
        cat4(
            number(stats.items_active).as_str(),
            " active, ",
            number(stats.items_deleted).as_str(),
            " deleted",
        ),
    );
    line(&mut rows, "episodes", number(stats.episodes_active));
    line(&mut rows, "series", number(stats.series));
    line(&mut rows, "downloads", number(stats.downloads));
    line(&mut rows, "licenses", number(stats.licenses));
    let sync = match &stats.last_sync_utc {
        Some(time) => time.clone(),
        None => String::from_str("never"),
    };
    line(&mut rows, "last sync", sync);
    let ghost want = info_lines(path@, size, wal, shm, *stats);
    assert(cells(rows@)[0] == want[0]);
    assert(cells(rows@)[1] == want[1]);
    assert(cells(rows@)[2] == want[2]);
    assert(cells(rows@)[3] == want[3]);
    assert(cells(rows@)[4] == want[4]);
    assert(cells(rows@)[5] == want[5]);
    assert(cells(rows@)[6] == want[6]);
    assert(cells(rows@)[7] == want[7]);
    assert(cells(rows@)[8] == want[8]);
    assert(cells(rows@)[9] == want[9]);
    assert(cells(rows@) =~= info_lines(path@, size, wal, shm, *stats));
    rows
}

/// What a format is shown as; a dash where it is empty.
pub open spec fn format_text(content_format: Seq<char>) -> Seq<char> {
    if content_format.len() == 0 {
        "-"@
    } else {
        content_format
    }
}

/// What a format is shown as.
pub fn show_format(content_format: &str) -> (text: String)
    ensures
        text@ == format_text(content_format@),
{
    if content_format.is_empty() {
        String::from_str("-")
    } else {
        String::from_str(content_format)
    }
}

/// A record, and what is found of its file.
#[derive(Debug)]
pub struct Stat {
    /// The record.
    pub entry: DownloadEntry,
    /// How large the file is; nothing where it is gone.
    pub found: Option<u64>,
    /// Whether the key beside an encrypted file is there.
    pub has_key: bool,
}

/// A record whose file is not as large as it was.
#[derive(Debug)]
pub struct SizeMismatch {
    /// The record.
    pub entry: DownloadEntry,
    /// How large the file is.
    pub found: u64,
}

/// A record of an encrypted file whose key is gone.
#[derive(Debug)]
pub struct SidecarMissing {
    /// The record.
    pub entry: DownloadEntry,
    /// Where the key should be.
    pub sidecar: String,
}

/// The records by what is found of their files.
#[derive(Debug)]
pub struct DownloadsReport {
    /// How many records there are.
    pub total: usize,
    /// Those whose file is gone.
    pub missing: Vec<DownloadEntry>,
    /// Those whose file is of another size than recorded.
    pub mismatched: Vec<SizeMismatch>,
    /// Those of an encrypted file whose key is gone. A record can be here and
    /// in `mismatched` at once.
    pub sidecar_missing: Vec<SidecarMissing>,
}

/// Whether the file of a record is gone.
pub open spec fn is_missing(stat: Stat) -> bool {
    stat.found is None
}

/// Whether the file of a record is there, but not as large as recorded. A
/// record that holds no size is never at odds with the file.
pub open spec fn is_mismatched(stat: Stat) -> bool {
    stat.found is Some && stat.entry.file_size is Some && stat.entry.file_size != stat.found
}

/// Whether the file of a record is there, but not the key that belongs to it.
pub open spec fn is_keyless(stat: Stat) -> bool {
    stat.found is Some && sidecar_of(stat.entry.file_path@) is Some && !stat.has_key
}

/// The records whose file is gone, in their order.
pub open spec fn missing_of(stats: Seq<Stat>) -> Seq<EntryView>
    decreases stats.len(),
{
    if stats.len() == 0 {
        Seq::empty()
    } else if is_missing(stats.last()) {
        missing_of(stats.drop_last()).push(stats.last().entry@)
    } else {
        missing_of(stats.drop_last())
    }
}

/// The records whose file is of another size, with that size, in their order.
pub open spec fn mismatched_of(stats: Seq<Stat>) -> Seq<(EntryView, u64)>
    decreases stats.len(),
{
    if stats.len() == 0 {
        Seq::empty()
    } else if is_mismatched(stats.last()) {
        mismatched_of(stats.drop_last()).push(
            (stats.last().entry@, stats.last().found->Some_0),
        )
    } else {
        mismatched_of(stats.drop_last())
    }
}

/// The records whose key is gone, with the place of the key, in their order.
pub open spec fn keyless_of(stats: Seq<Stat>) -> Seq<(EntryView, Seq<char>)>
    decreases stats.len(),
{
    if stats.len() == 0 {
        Seq::empty()
    } else if is_keyless(stats.last()) {
        keyless_of(stats.drop_last()).push(
            (stats.last().entry@, sidecar_of(stats.last().entry.file_path@)->Some_0),
        )
    } else {
        keyless_of(stats.drop_last())
    }
}

/// What the mismatches hold, in texts.
pub open spec fn mismatches(list: Seq<SizeMismatch>) -> Seq<(EntryView, u64)> {
    list.map_values(|item: SizeMismatch| (item.entry@, item.found))
}

/// What the missing keys hold, in texts.
pub open spec fn missing_keys(list: Seq<SidecarMissing>) -> Seq<(EntryView, Seq<char>)> {
    list.map_values(|item: SidecarMissing| (item.entry@, item.sidecar@))
}

/// Parts the records by what is found of their files.
pub fn classify_downloads(stats: &Vec<Stat>) -> (report: DownloadsReport)
    ensures
        report.total == stats@.len(),
        entries(report.missing@) == missing_of(stats@),
        mismatches(report.mismatched@) == mismatched_of(stats@),
        missing_keys(report.sidecar_missing@) == keyless_of(stats@),
{
    let mut missing: Vec<DownloadEntry> = Vec::new();
    let mut mismatched: Vec<SizeMismatch> = Vec::new();
    let mut sidecar_missing: Vec<SidecarMissing> = Vec::new();
    let mut i: usize = 0;
    assert(entries(missing@) =~= missing_of(stats@.subrange(0, 0)));
    assert(mismatches(mismatched@) =~= mismatched_of(stats@.subrange(0, 0)));
    assert(missing_keys(sidecar_missing@) =~= keyless_of(stats@.subrange(0, 0)));
    while i < stats.len()
        invariant
            i <= stats@.len(),
            entries(missing@) == missing_of(stats@.subrange(0, i as int)),
            mismatches(mismatched@) == mismatched_of(stats@.subrange(0, i as int)),
            missing_keys(sidecar_missing@) == keyless_of(stats@.subrange(0, i as int)),
        decreases stats.len() - i,
    {
        let ghost next = stats@.subrange(0, i + 1);
        assert(next.drop_last() =~= stats@.subrange(0, i as int));
        assert(next.last() == stats@[i as int]);
        let stat = &stats[i];
        match stat.found {
            None => push_entry(&mut missing, stat.entry.copy()),
            Some(found) => {
                if let Some(sidecar) = sidecar_path(stat.entry.file_path.as_str()) {
                    if !stat.has_key {
                        let ghost known = missing_keys(sidecar_missing@);
                        let item = SidecarMissing { entry: stat.entry.copy(), sidecar };
                        sidecar_missing.push(item);
                        assert(missing_keys(sidecar_missing@) =~= known.push(
                            (item.entry@, item.sidecar@),
                        ));
                    }
                }
                if let Some(expected) = stat.entry.file_size {
                    if expected != found {
                        let ghost known = mismatches(mismatched@);
                        let item = SizeMismatch { entry: stat.entry.copy(), found };
                        mismatched.push(item);
                        assert(mismatches(mismatched@) =~= known.push((item.entry@, item.found)));
                    }
                }
            },
        }
        i = i + 1;
    }
    assert(stats@.subrange(0, i as int) =~= stats@);
    DownloadsReport { total: stats.len(), missing, mismatched, sidecar_missing }
}

/// Only records whose file is gone are ever pruned: each record on that list is
/// one of those given, its file was not found, and it stands on no other list.
pub proof fn law_pruned_records_have_no_file(stats: Seq<Stat>, entry: EntryView)
    requires
        missing_of(stats).contains(entry),
    ensures
        exists|k: int|
            0 <= k < stats.len() && (#[trigger] stats[k]).entry@ == entry && is_missing(stats[k])
                && !is_mismatched(stats[k]) && !is_keyless(stats[k]),
    decreases stats.len(),
{
    if stats.len() > 0 {
        let front = stats.drop_last();
        let list = missing_of(stats);
        let i = choose|i: int| 0 <= i < list.len() && list[i] == entry;
        if is_missing(stats.last()) && i == list.len() - 1 {
            assert(stats[stats.len() - 1].entry@ == entry);
        } else {
            assert(missing_of(front)[i] == entry);
            law_pruned_records_have_no_file(front, entry);
            let k = choose|k: int|
                0 <= k < front.len() && (#[trigger] front[k]).entry@ == entry && is_missing(
                    front[k],
                ) && !is_mismatched(front[k]) && !is_keyless(front[k]);
            assert(stats[k] == front[k]);
        }
    }
}

/// No record is lost from the report: one that stands on no list has its file,
/// of the size that was recorded, and its key where it has one.
pub proof fn law_unlisted_records_are_sound(stat: Stat)
    requires
        !is_missing(stat),
        !is_mismatched(stat),
        !is_keyless(stat),
    ensures
        stat.found is Some,
        stat.entry.file_size is Some ==> stat.entry.file_size == stat.found,
        sidecar_of(stat.entry.file_path@) is Some ==> stat.has_key,
{
}

/// A row of the table of problems.
pub open spec fn problem_cells(
    entry: EntryView,
    problem: Seq<char>,
    expected: Option<u64>,
    found: Option<u64>,
    path: Seq<char>,
) -> Seq<Seq<char>> {
    seq![
        entry.asin,
        entry.kind,
        entry.variant,
        format_text(entry.content_format),
        problem,
        size_text(expected),
        size_text(found),
        path,
    ]
}

/// A row of the table of problems; `path` is the file that the problem is about.
pub fn problem_row(
    entry: &DownloadEntry,
    problem: &str,
    expected: Option<u64>,
    found: Option<u64>,
    path: &str,
) -> (row: Vec<String>)
    ensures
        texts(row@) == problem_cells(entry@, problem@, expected, found, path@),
{
    let mut row = row5(
        entry.asin.clone(),
        entry.kind.clone(),
        entry.variant.clone(),
        show_format(entry.content_format.as_str()),
        String::from_str(problem),
    );
    push_text(&mut row, human_size(expected));
    push_text(&mut row, human_size(found));
    push_text(&mut row, String::from_str(path));
    assert(texts(row@) =~= problem_cells(entry@, problem@, expected, found, path@));
    row
}

/// The rows of the table of problems: first the files that are gone, then those
/// of another size, then the keys that are gone, by the place of the key.
pub open spec fn problems(
    missing: Seq<EntryView>,
    mismatched: Seq<(EntryView, u64)>,
    keyless: Seq<(EntryView, Seq<char>)>,
) -> Seq<Seq<Seq<char>>> {
    missing.map_values(
        |entry: EntryView|
            problem_cells(entry, "missing"@, entry.file_size, None, entry.file_path),
    ) + mismatched.map_values(
        |item: (EntryView, u64)|
            problem_cells(
                item.0,
                "size mismatch"@,
                item.0.file_size,
                Some(item.1),
                item.0.file_path,
            ),
    ) + keyless.map_values(
        |item: (EntryView, Seq<char>)|
            problem_cells(item.0, "sidecar missing"@, None, None, item.1),
    )
}

/// The rows of the table of problems.
pub fn problem_rows(report: &DownloadsReport) -> (rows: Vec<Vec<String>>)
    ensures
        cells(rows@) == problems(
            entries(report.missing@),
            mismatches(report.mismatched@),
            missing_keys(report.sidecar_missing@),
        ),
{
    let mut rows: Vec<Vec<String>> = Vec::new();
    let ghost gone = entries(report.missing@);
    let ghost odd = mismatches(report.mismatched@);
    let ghost bare = missing_keys(report.sidecar_missing@);
    let mut i: usize = 0;
    assert(cells(rows@) =~= problems(gone.subrange(0, 0), odd.subrange(0, 0), bare.subrange(0, 0)));
    while i < report.missing.len()
        invariant
            i <= report.missing@.len(),
            gone == entries(report.missing@),
            cells(rows@) == problems(
                gone.subrange(0, i as int),
                odd.subrange(0, 0),
                bare.subrange(0, 0),
            ),
        decreases report.missing.len() - i,
    {
        let entry = &report.missing[i];
        push_row(
            &mut rows,
            problem_row(entry, "missing", entry.file_size, None, entry.file_path.as_str()),
        );
        i = i + 1;
        assert(cells(rows@) =~= problems(
            gone.subrange(0, i as int),
            odd.subrange(0, 0),
            bare.subrange(0, 0),
        ));
    }
    assert(gone.subrange(0, i as int) =~= gone);
    let mut j: usize = 0;
    while j < report.mismatched.len()
        invariant
            j <= report.mismatched@.len(),
            odd == mismatches(report.mismatched@),
            cells(rows@) == problems(gone, odd.subrange(0, j as int), bare.subrange(0, 0)),
        decreases report.mismatched.len() - j,
    {
        let item = &report.mismatched[j];
        push_row(
            &mut rows,
            problem_row(
                &item.entry,
                "size mismatch",
                item.entry.file_size,
                Some(item.found),
                item.entry.file_path.as_str(),
            ),
        );
        j = j + 1;
        assert(cells(rows@) =~= problems(gone, odd.subrange(0, j as int), bare.subrange(0, 0)));
    }
    assert(odd.subrange(0, j as int) =~= odd);
    let mut k: usize = 0;
    while k < report.sidecar_missing.len()
        invariant
            k <= report.sidecar_missing@.len(),
            bare == missing_keys(report.sidecar_missing@),
            cells(rows@) == problems(gone, odd, bare.subrange(0, k as int)),
        decreases report.sidecar_missing.len() - k,
    {
        let item = &report.sidecar_missing[k];
        push_row(
            &mut rows,
            problem_row(&item.entry, "sidecar missing", None, None, item.sidecar.as_str()),
        );
        k = k + 1;
        assert(cells(rows@) =~= problems(gone, odd, bare.subrange(0, k as int)));
    }
    assert(bare.subrange(0, k as int) =~= bare);
    rows
}

/// What is said under the table of problems, one line for each kind of problem
/// that there is.
pub open spec fn check_lines(total: int, missing: int, mismatched: int, keyless: int) -> Seq<Seq<char>> {
    (if missing > 0 {
        seq![
            decimal(missing) + " of "@ + decimal(total)
                + " tracked downloads reference missing files (remove with `audible db downloads prune`)"@,
        ]
    } else {
        Seq::empty()
    }) + (if mismatched > 0 {
        seq![
            decimal(mismatched) + " of "@ + decimal(total)
                + " tracked downloads differ in size from their record — truncated or replaced? Re-fetch with `audible download --force`"@,
        ]
    } else {
        Seq::empty()
    }) + (if keyless > 0 {
        seq![
            decimal(keyless) + " of "@ + decimal(total)
                + " tracked downloads are missing their key sidecar (.voucher/.wvkey) — the audio cannot be decrypted without it; re-fetch with `audible download --force`"@,
        ]
    } else {
        Seq::empty()
    })
}

/// The outcome of a check of the records.
#[derive(Debug)]
pub enum CheckOutcome {
    /// All is as recorded.
    Fine(String),
    /// There are problems.
    Problems {
        /// The table of problems.
        rows: Vec<Vec<String>>,
        /// What is said under it.
        notes: Vec<String>,
    },
}

/// Whether all is as recorded, by the numbers of the problems of each kind.
pub open spec fn checks_out(missing: nat, mismatched: nat, keyless: nat) -> bool {
    missing == 0 && mismatched == 0 && keyless == 0
}

/// Tells the outcome of a check of the records.
pub fn downloads_check(report: &DownloadsReport) -> (outcome: CheckOutcome)
    ensures
        ({
            let clean = checks_out(
                report.missing@.len(),
                report.mismatched@.len(),
                report.sidecar_missing@.len(),
            );
            match outcome {
                CheckOutcome::Fine(text) => clean && text@ == "all "@ + decimal(
                    report.total as int,
                )
                    + " tracked downloads check out (files present, sizes match, key sidecars in place)"@,
                CheckOutcome::Problems { rows, notes } => !clean && cells(rows@) == problems(
                    entries(report.missing@),
                    mismatches(report.mismatched@),
                    missing_keys(report.sidecar_missing@),
                ) && texts(notes@) == check_lines(
                    report.total as int,
                    report.missing@.len() as int,
                    report.mismatched@.len() as int,
                    report.sidecar_missing@.len() as int,
                ),
            }
        }),
{
    let total = number(report.total as u64);
    if report.missing.len() == 0 && report.mismatched.len() == 0 && report.sidecar_missing.len()
        == 0 {
        return CheckOutcome::Fine(
            cat3(
                "all ",
                total.as_str(),
                " tracked downloads check out (files present, sizes match, key sidecars in place)",
            ),
        );
    }
    let mut notes: Vec<String> = Vec::new();
    if report.missing.len() > 0 {
        push_text(
            &mut notes,
            cat4(
                number(report.missing.len() as u64).as_str(),
                " of ",
                total.as_str(),
                " tracked downloads reference missing files (remove with `audible db downloads prune`)",
            ),
        );
    }
    if report.mismatched.len() > 0 {
        push_text(
            &mut notes,
            cat4(
                number(report.mismatched.len() as u64).as_str(),
                " of ",
                total.as_str(),
                " tracked downloads differ in size from their record — truncated or replaced? Re-fetch with `audible download --force`",
            ),
        );
    }
    if report.sidecar_missing.len() > 0 {
        push_text(
            &mut notes,
            cat4(
                number(report.sidecar_missing.len() as u64).as_str(),
                " of ",
                total.as_str(),
                " tracked downloads are missing their key sidecar (.voucher/.wvkey) — the audio cannot be decrypted without it; re-fetch with `audible download --force`",
            ),
        );
    }
    assert(texts(notes@) =~= check_lines(
        report.total as int,
        report.missing@.len() as int,
        report.mismatched@.len() as int,
        report.sidecar_missing@.len() as int,
    ));
    CheckOutcome::Problems { rows: problem_rows(report), notes }
}

/// What is said of the problems that pruning leaves alone.
pub fn prune_notes(report: &DownloadsReport) -> (notes: Vec<String>)
    ensures
        texts(notes@) == (if report.mismatched@.len() > 0 {
            seq![
                "note: "@ + decimal(report.mismatched@.len() as int)
                    + " size mismatch(es) left untouched (see `audible db downloads check`)"@,
            ]
        } else {
            Seq::empty()
        }) + (if report.sidecar_missing@.len() > 0 {
            seq![
                "note: "@ + decimal(report.sidecar_missing@.len() as int)
                    + " missing key sidecar(s) left untouched (see `audible db downloads check`)"@,
            ]
        } else {
            Seq::empty()
        }),
{
    let mut notes: Vec<String> = Vec::new();
    if report.mismatched.len() > 0 {
        push_text(
            &mut notes,
            cat3(
                "note: ",
                number(report.mismatched.len() as u64).as_str(),
                " size mismatch(es) left untouched (see `audible db downloads check`)",
            ),
        );
    }
    if report.sidecar_missing.len() > 0 {
        push_text(
            &mut notes,
            cat3(
                "note: ",
                number(report.sidecar_missing.len() as u64).as_str(),
                " missing key sidecar(s) left untouched (see `audible db downloads check`)",
            ),
        );
    }
    notes
}

/// The rows of a table of records.
pub open spec fn entry_cells(list: Seq<EntryView>) -> Seq<Seq<Seq<char>>> {
    list.map_values(
        |entry: EntryView|
            seq![
                entry.asin,
                entry.kind,
                entry.variant,
                format_text(entry.content_format),
                size_text(entry.file_size),
                entry.file_path,
            ],
    )
}

/// The rows of a table of records.
pub fn download_rows(list: &Vec<DownloadEntry>) -> (rows: Vec<Vec<String>>)
    ensures
        cells(rows@) == entry_cells(entries(list@)),
{
    let mut rows: Vec<Vec<String>> = Vec::new();
    let ghost all = entries(list@);
    let mut i: usize = 0;
    assert(cells(rows@) =~= entry_cells(all.subrange(0, 0)));
    while i < list.len()
        invariant
            i <= list@.len(),
            all == entries(list@),
            cells(rows@) == entry_cells(all.subrange(0, i as int)),
        decreases list.len() - i,
    {
        let entry = &list[i];
        let mut row = row5(
            entry.asin.clone(),
            entry.kind.clone(),
            entry.variant.clone(),
            show_format(entry.content_format.as_str()),
            human_size(entry.file_size),
        );
        push_text(&mut row, entry.file_path.clone());
        let ghost want = seq![
            entry@.asin,
            entry@.kind,
            entry@.variant,
            format_text(entry@.content_format),
            size_text(entry@.file_size),
            entry@.file_path,
        ];
        assert(texts(row@) =~= want);
        push_row(&mut rows, row);
        i = i + 1;
        assert(cells(rows@) =~= entry_cells(all.subrange(0, i as int)));
    }
    assert(all.subrange(0, i as int) =~= all);
    rows
}

/// Which records are meant; what is not given does not matter.
#[derive(Debug)]
pub struct DownloadFilter {
    /// Of one of these items.
    pub asins: Option<Vec<String>>,
    /// Of this kind.
    pub kind: Option<String>,
    /// Of this format.
    pub format: Option<String>,
    /// Of this variant.
    pub variant: Option<String>,
}

impl DownloadFilter {
    /// Whether a record is meant.
    pub open spec fn admits(&self, entry: EntryView) -> bool {
        &&& self.asins matches Some(list) ==> texts(list@).contains(entry.asin)
        &&& self.kind matches Some(kind) ==> kind@ == entry.kind
        &&& self.format matches Some(format) ==> format@ == entry.content_format
        &&& self.variant matches Some(variant) ==> variant@ == entry.variant
    }

    /// Whether nothing at all is given.
    pub open spec fn is_open(&self) -> bool {
        self.asins is None && self.kind is None && self.format is None && self.variant is None
    }
}

fn fits(wanted: &Option<String>, value: &str) -> (yes: bool)
    ensures
        yes == (*wanted matches Some(text) ==> text@ == value@),
{
    match wanted {
        Some(text) => same(text.as_str(), value),
        None => true,
    }
}

fn admitted(filter: &DownloadFilter, entry: &DownloadEntry) -> (yes: bool)
    ensures
        yes == filter.admits(entry@),
{
    let listed = match &filter.asins {
        Some(list) => holds_text(list, entry.asin.as_str()),
        None => true,
    };
    listed && fits(&filter.kind, entry.kind.as_str()) && fits(
        &filter.format,
        entry.content_format.as_str(),
    ) && fits(&filter.variant, entry.variant.as_str())
}

/// The records that are meant, in their order.
pub open spec fn admitted_of(filter: DownloadFilter, list: Seq<EntryView>) -> Seq<EntryView> {
    list.filter(|entry: EntryView| filter.admits(entry))
}

/// Picks the records that are meant.
pub fn filter_downloads(list: &Vec<DownloadEntry>, filter: &DownloadFilter) -> (matched: Vec<
    DownloadEntry,
>)
    ensures
        entries(matched@) == admitted_of(*filter, entries(list@)),
{
    let mut matched: Vec<DownloadEntry> = Vec::new();
    let ghost all = entries(list@);
    let ghost keep = |entry: EntryView| filter.admits(entry);
    let mut i: usize = 0;
    proof {
        assert(all.subrange(0, 0) =~= Seq::<EntryView>::empty());
        reveal(Seq::filter);
        assert(entries(matched@) =~= all.subrange(0, 0).filter(keep));
    }
    while i < list.len()
        invariant
            i <= list@.len(),
            all == entries(list@),
            keep == (|entry: EntryView| filter.admits(entry)),
            entries(matched@) == all.subrange(0, i as int).filter(keep),
        decreases list.len() - i,
    {
        proof {
            let next = all.subrange(0, i + 1);
            assert(next.drop_last() =~= all.subrange(0, i as int));
            assert(next.last() == list@[i as int]@);
            reveal(Seq::filter);
        }
        if admitted(filter, &list[i]) {
            push_entry(&mut matched, list[i].copy());
        }
        i = i + 1;
    }
    assert(all.subrange(0, i as int) =~= all);
    matched
}

/// The records to remove; a filter in which nothing is given is refused.
pub open spec fn removal_of(filter: DownloadFilter, list: Seq<EntryView>) -> Result<
    Seq<EntryView>,
    DbError<Seq<char>>,
> {
    if filter.is_open() {
        Err(DbError::NoFilter)
    } else {
        Ok(admitted_of(filter, list))
    }
}

/// Picks the records to remove; a filter in which nothing is given is refused.
pub fn removal(list: &Vec<DownloadEntry>, filter: &DownloadFilter) -> (matched: Result<
    Vec<DownloadEntry>,
    DbError<String>,
>)
    ensures
        match matched {
            Ok(m) => removal_of(*filter, entries(list@)) == Ok::<
                Seq<EntryView>,
                DbError<Seq<char>>,
            >(entries(m@)),
            Err(e) => removal_of(*filter, entries(list@)) == Err::<
                Seq<EntryView>,
                DbError<Seq<char>>,
            >(e@),
        },
{
    if filter.asins.is_none() && filter.kind.is_none() && filter.format.is_none()
        && filter.variant.is_none() {
        return Err(DbError::NoFilter);
    }
    Ok(filter_downloads(list, filter))
}

/// Every record that is picked is one of the list and is meant, and every
/// record of the list that is meant is picked.
pub proof fn law_removal_is_exact(filter: DownloadFilter, list: Seq<EntryView>, entry: EntryView)
    ensures
        admitted_of(filter, list).contains(entry) <==> list.contains(entry) && filter.admits(entry),
{
    lemma_filtered(list, |e: EntryView| filter.admits(e), entry);
}

/// The question before records are removed.
pub fn removal_prompt(count: usize, with_files: bool) -> (text: String)
    ensures
        text@ == "Remove "@ + decimal(count as int) + (if with_files {
            " download records AND delete their files?"@
        } else {
            " download records?"@
        }),
{
    let tail = if with_files {
        " download records AND delete their files?"
    } else {
        " download records?"
    };
    cat3("Remove ", number(count as u64).as_str(), tail)
}

/// The question before items are removed.
pub fn items_prompt(count: usize, with_files: bool) -> (text: String)
    ensures
        text@ == "Remove "@ + decimal(count as int) + (if with_files {
            " item(s) AND delete their downloaded files?"@
        } else {
            " item(s)?"@
        }),
{
    let tail = if with_files {
        " item(s) AND delete their downloaded files?"
    } else {
        " item(s)?"
    };
    cat3("Remove ", number(count as u64).as_str(), tail)
}

/// The question before records are pruned.
pub fn prune_prompt(count: usize) -> (text: String)
    ensures
        text@ == "Remove "@ + decimal(count as int)
            + " download records? Their artifacts will be re-fetched on the next run."@,
{
    cat3(
        "Remove ",
        number(count as u64).as_str(),
        " download records? Their artifacts will be re-fetched on the next run.",
    )
}

/// What tells a record from every other.
#[derive(Debug)]
pub struct DownloadKey {
    /// The item.
    pub asin: String,
    /// The marketplace of the item.
    pub marketplace: String,
    /// What was downloaded.
    pub kind: String,
    /// The format, or the size of a cover.
    pub content_format: String,
    /// Which variant.
    pub variant: String,
}

/// Whether a key is that of a record.
pub open spec fn is_key_of(key: DownloadKey, entry: EntryView) -> bool {
    key.asin@ == entry.asin && key.marketplace@ == entry.marketplace && key.kind@ == entry.kind
        && key.content_format@ == entry.content_format && key.variant@ == entry.variant
}

/// The keys of records, in their order.
pub fn keys_of(list: &Vec<DownloadEntry>) -> (keys: Vec<DownloadKey>)
    ensures
        keys@.len() == list@.len(),
        forall|i: int| 0 <= i < list@.len() ==> is_key_of(#[trigger] keys@[i], list@[i]@),
{
    let mut keys: Vec<DownloadKey> = Vec::new();
    let mut i: usize = 0;
    while i < list.len()
        invariant
            i <= list@.len(),
            keys@.len() == i,
            forall|k: int| 0 <= k < i ==> is_key_of(#[trigger] keys@[k], list@[k]@),
        decreases list.len() - i,
    {
        let entry = &list[i];
        keys.push(
            DownloadKey {
                asin: entry.asin.clone(),
                marketplace: entry.marketplace.clone(),
                kind: entry.kind.clone(),
                content_format: entry.content_format.clone(),
                variant: entry.variant.clone(),
            },
        );
        i = i + 1;
    }
    keys
}

/// The files of records, in their order.
pub fn paths_of(list: &Vec<DownloadEntry>) -> (paths: Vec<String>)
    ensures
        texts(paths@) == entries(list@).map_values(|entry: EntryView| entry.file_path),
{
    let mut paths: Vec<String> = Vec::new();
    let mut i: usize = 0;
    while i < list.len()
        invariant
            i <= list@.len(),
            texts(paths@).len() == i,
            forall|k: int| 0 <= k < i ==> #[trigger] texts(paths@)[k] == list@[k].file_path@,
        decreases list.len() - i,
    {
        push_text(&mut paths, list[i].file_path.clone());
        i = i + 1;
    }
    assert(texts(paths@) =~= entries(list@).map_values(|entry: EntryView| entry.file_path));
    paths
}

/// The files that go when files are deleted: each of them, and behind it the
/// key that belongs to it, so that no key outlives its audio.
pub open spec fn with_keys(paths: Seq<Seq<char>>) -> Seq<Seq<char>>
    decreases paths.len(),
{
    if paths.len() == 0 {
        Seq::empty()
    } else {
        let front = with_keys(paths.drop_last()).push(paths.last());
        match sidecar_of(paths.last()) {
            Some(key) => front.push(key),
            None => front,
        }
    }
}

/// The files that go when files are deleted.
pub fn delete_files(paths: &Vec<String>) -> (files: Vec<String>)
    ensures
        texts(files@) == with_keys(texts(paths@)),
{
    let mut files: Vec<String> = Vec::new();
    let ghost all = texts(paths@);
    let mut i: usize = 0;
    assert(texts(files@) =~= with_keys(all.subrange(0, 0)));
    while i < paths.len()
        invariant
            i <= paths@.len(),
            all == texts(paths@),
            texts(files@) == with_keys(all.subrange(0, i as int)),
        decreases paths.len() - i,
    {
        assert(all.subrange(0, i + 1).drop_last() =~= all.subrange(0, i as int));
        assert(all.subrange(0, i + 1).last() == paths@[i as int]@);
        push_text(&mut files, paths[i].clone());
        if let Some(key) = sidecar_path(paths[i].as_str()) {
            push_text(&mut files, key);
        }
        i = i + 1;
    }
    assert(all.subrange(0, i as int) =~= all);
    files
}

/// No key outlives its audio: the key of every file that is deleted is deleted.
pub proof fn law_keys_go_with_their_audio(paths: Seq<Seq<char>>, path: Seq<char>)
    requires
        paths.contains(path),
    ensures
        with_keys(paths).contains(path),
        sidecar_of(path) matches Some(key) ==> with_keys(paths).contains(key),
    decreases paths.len(),
{
    let i = choose|i: int| 0 <= i < paths.len() && paths[i] == path;
    let front = paths.drop_last();
    let done = with_keys(front);
    let all = with_keys(paths);
    assert(all.len() >= done.len() && all.subrange(0, done.len() as int) =~= done);
    if i == paths.len() - 1 {
        assert(all[done.len() as int] == path);
        if let Some(key) = sidecar_of(path) {
            assert(all[done.len() as int + 1] == key);
        }
    } else {
        assert(front[i] == path);
        law_keys_go_with_their_audio(front, path);
        let a = choose|a: int| 0 <= a < done.len() && done[a] == path;
        assert(all.subrange(0, done.len() as int)[a] == all[a]);
        if let Some(key) = sidecar_of(path) {
            let b = choose|b: int| 0 <= b < done.len() && done[b] == key;
            assert(all.subrange(0, done.len() as int)[b] == all[b]);
        }
    }
}

/// A download that is to be recorded.
#[derive(Debug)]
pub struct DownloadRecord {
    /// The item.
    pub asin: String,
    /// What was downloaded.
    pub kind: String,
    /// The reference of its content, by the license.
    pub acr: Option<String>,
    /// The format, or the size of a cover.
    pub content_format: String,
    /// Which variant.
    pub variant: String,
    /// The request that it answers.
    pub request_kind: String,
    /// Its version, by the license.
    pub version: Option<String>,
    /// Its number in the store, by the license.
    pub sku: Option<String>,
    /// Where the file was put.
    pub file_path: String,
    /// How large the file was.
    pub file_size: Option<u64>,
}



/// Checks a `--request-kind` before anything is looked at.
pub fn check_request_kind(kind: &str, request_kind: Option<&str>) -> (result: Result<
    (),
    DbError<String>,
>)
    ensures
        match result {
            Ok(_) => request_kind is None || kind@ == "audio"@,
            Err(e) => request_kind is Some && kind@ != "audio"@ && e@ == DbError::<
                Seq<char>,
            >::RequestKind,
        },
{
    if request_kind.is_some() && !same(kind, "audio") {
        return Err(DbError::RequestKind);
    }
    Ok(())
}

/// Whether a record is of a file, and of what was downloaded.
pub open spec fn is_record_of(
    record: DownloadRecord,
    asin: Seq<char>,
    kind: Seq<char>,
    content_format: Seq<char>,
    variant: Seq<char>,
    request_kind: Seq<char>,
    file: Seq<char>,
    size: Option<u64>,
) -> bool {
    &&& record.asin@ == asin
    &&& record.kind@ == kind
    &&& record.content_format@ == content_format
    &&& record.variant@ == variant
    &&& record.request_kind@ == request_kind
    &&& record.file_path@ == file
    &&& record.file_size == size
}

/// The record of a file that was downloaded by other means. `size` is what is
/// found of the file; one that is not there is recorded without a size, unless
/// it has to be there.
pub fn downloads_add(
    asin: &str,
    kind: &str,
    file: &str,
    format: Option<&str>,
    variant: &str,
    request_kind: Option<&str>,
    size: Option<u64>,
    require_file: bool,
) -> (record: Result<DownloadRecord, DbError<String>>)
    ensures
        match record {
            Ok(r) => (request_kind is None || kind@ == "audio"@) && (size is Some || !require_file)
                && is_record_of(
                r,
                asin@,
                kind@,
                or_empty(opt_str(format)),
                variant@,
                or_empty(opt_str(request_kind)),
                file@,
                size,
            ) && r.acr is None && r.version is None && r.sku is None,
            Err(e) => if request_kind is Some && kind@ != "audio"@ {
                e@ == DbError::<Seq<char>>::RequestKind
            } else {
                size is None && require_file && e@ == DbError::NoFile(file@)
            },
        },
{
    match check_request_kind(kind, request_kind) {
        Ok(_) => {},
        Err(e) => {
            return Err(e);
        },
    }
    if size.is_none() && require_file {
        return Err(DbError::NoFile(String::from_str(file)));
    }
    Ok(
        DownloadRecord {
            asin: String::from_str(asin),
            kind: String::from_str(kind),
            acr: None,
            content_format: str_or_empty(format),
            variant: String::from_str(variant),
            request_kind: str_or_empty(request_kind),
            version: None,
            sku: None,
            file_path: String::from_str(file),
            file_size: size,
        },
    )
}

/// What a license says of the content that it is for.
#[derive(Debug)]
pub struct LicensedContent {
    /// The reference of the content.
    pub acr: Option<String>,
    /// Its version.
    pub version: Option<String>,
    /// Its number in the store.
    pub sku: Option<String>,
}


/// Whether a record names the content that a license is for; none without a license.
pub open spec fn names_content(record: DownloadRecord, license: Option<&LicensedContent>) -> bool {
    match license {
        Some(l) => opt_text(record.acr) == opt_text(l.acr) && opt_text(record.version) == opt_text(
            l.version,
        ) && opt_text(record.sku) == opt_text(l.sku),
        None => record.acr is None && record.version is None && record.sku is None,
    }
}

/// The record of a file that was downloaded or made of one; a run that leaves
/// no trace records nothing.
pub fn download_record(
    asin: &str,
    license: Option<&LicensedContent>,
    kind: &str,
    content_format: &str,
    variant: &str,
    request_kind: &str,
    file: &str,
    size: Option<u64>,
    no_db_write: bool,
) -> (record: Option<DownloadRecord>)
    ensures
        match record {
            Some(r) => !no_db_write && is_record_of(
                r,
                asin@,
                kind@,
                content_format@,
                variant@,
                request_kind@,
                file@,
                size,
            ) && names_content(r, license),
            None => no_db_write,
        },
{
    if no_db_write {
        return None;
    }
    let (acr, version, sku) = match license {
        Some(l) => (copy_text(&l.acr), copy_text(&l.version), copy_text(&l.sku)),
        None => (None, None, None),
    };
    Some(
        DownloadRecord {
            asin: String::from_str(asin),
            kind: String::from_str(kind),
            acr,
            content_format: String::from_str(content_format),
            variant: String::from_str(variant),
            request_kind: String::from_str(request_kind),
            version,
            sku,
            file_path: String::from_str(file),
            file_size: size,
        },
    )
}

/// What is said once items were removed.
pub fn removal_line(items: usize, episodes: u64, downloads: u64, licenses: u64) -> (text: String)
    ensures
        text@ == "removed "@ + decimal(items as int) + " item(s), "@ + decimal(episodes as int)
            + " episode(s), "@ + decimal(downloads as int) + " download record(s), "@ + decimal(
            licenses as int,
        ) + " license(s)"@,
{
    let head = cat5(
        "removed ",
        number(items as u64).as_str(),
        " item(s), ",
        number(episodes).as_str(),
        " episode(s), ",
    );
    cat5(
        head.as_str(),
        number(downloads).as_str(),
        " download record(s), ",
        number(licenses).as_str(),
        " license(s)",
    )
}

/// A record is picked exactly where it is one of the list and agrees with every
/// part of the filter that is given: its item is among the items, and its kind,
/// its format and its variant are those that are asked for.
pub proof fn law_picked_records_agree_with_the_filter(
    filter: DownloadFilter,
    list: Seq<EntryView>,
    entry: EntryView,
)
    ensures
        admitted_of(filter, list).contains(entry) <==> {
            &&& list.contains(entry)
            &&& filter.asins is None || exists|i: int|
                0 <= i < filter.asins->Some_0@.len() && (#[trigger] filter.asins->Some_0@[i])@
                    == entry.asin
            &&& filter.kind is None || filter.kind->Some_0@ == entry.kind
            &&& filter.format is None || filter.format->Some_0@ == entry.content_format
            &&& filter.variant is None || filter.variant->Some_0@ == entry.variant
        },
{
    lemma_filtered(list, |e: EntryView| filter.admits(e), entry);
    if let Some(asins) = filter.asins {
        if texts(asins@).contains(entry.asin) {
            let i = choose|i: int| 0 <= i < texts(asins@).len() && texts(asins@)[i] == entry.asin;
            assert(asins@[i]@ == entry.asin);
        }
        if exists|i: int| 0 <= i < asins@.len() && (#[trigger] asins@[i])@ == entry.asin {
            let i = choose|i: int| 0 <= i < asins@.len() && (#[trigger] asins@[i])@ == entry.asin;
            assert(texts(asins@)[i] == entry.asin);
        }
    }
}

/// Whether a record is picked does not depend on the others, and those that are picked
/// keep their order.
pub proof fn law_filters_work_record_by_record(
    filter: DownloadFilter,
    list: Seq<EntryView>,
    entry: EntryView,
)
    ensures
        admitted_of(filter, list.push(entry)) == if admitted_of(filter, seq![entry]).len() > 0 {
            admitted_of(filter, list).push(entry)
        } else {
            admitted_of(filter, list)
        },
{
    reveal(Seq::filter);
    let one = seq![entry];
    let keep = |e: EntryView| filter.admits(e);
    assert(list.push(entry).drop_last() =~= list);
    assert(one.drop_last() =~= Seq::<EntryView>::empty());
    assert(Seq::<EntryView>::empty().filter(keep).len() == 0);
}

/// A removal is refused exactly where neither items, nor a kind, nor a format, nor
/// a variant says what to remove.
pub proof fn law_open_removals_are_refused(filter: DownloadFilter)
    ensures
        filter.is_open() <==> filter.asins is None && filter.kind is None && filter.format is None
            && filter.variant is None,
        filter.is_open() ==> forall|entry: EntryView| filter.admits(entry),
{
}

/// No record is lost from the report, and none is on it without cause: the record
/// of a file that is gone is on the first list, that of a file of another size on
/// the second, with the size that was found, and that of an encrypted file
/// without its key on the third, with the place of the key.
pub proof fn law_every_problem_is_reported(stats: Seq<Stat>, i: int)
    requires
        0 <= i < stats.len(),
    ensures
        stats[i].found is None ==> missing_of(stats).contains(stats[i].entry@),
        stats[i].found is Some && stats[i].entry.file_size is Some
            && stats[i].entry.file_size->Some_0 != stats[i].found->Some_0 ==> mismatched_of(
            stats,
        ).contains((stats[i].entry@, stats[i].found->Some_0)),
        stats[i].found is Some && !stats[i].has_key && sidecar_of(stats[i].entry.file_path@) is Some
            ==> keyless_of(stats).contains(
            (stats[i].entry@, sidecar_of(stats[i].entry.file_path@)->Some_0),
        ),
    decreases stats.len(),
{
    let front = stats.drop_last();
    let gone = missing_of(front);
    let odd = mismatched_of(front);
    let bare = keyless_of(front);
    if i < front.len() {
        assert(front[i] == stats[i]);
        law_every_problem_is_reported(front, i);
        if gone.contains(stats[i].entry@) {
            let k = choose|k: int| 0 <= k < gone.len() && gone[k] == stats[i].entry@;
            assert(missing_of(stats)[k] == gone[k]);
        }
        let found = (stats[i].entry@, stats[i].found->Some_0);
        if odd.contains(found) {
            let k = choose|k: int| 0 <= k < odd.len() && odd[k] == found;
            assert(mismatched_of(stats)[k] == odd[k]);
        }
        let key = (stats[i].entry@, sidecar_of(stats[i].entry.file_path@)->Some_0);
        if bare.contains(key) {
            let k = choose|k: int| 0 <= k < bare.len() && bare[k] == key;
            assert(keyless_of(stats)[k] == bare[k]);
        }
    } else {
        if stats[i].found is None {
            assert(missing_of(stats)[gone.len() as int] == stats[i].entry@);
        }
        if is_mismatched(stats[i]) {
            assert(mismatched_of(stats)[odd.len() as int].0 == stats[i].entry@);
        }
        if is_keyless(stats[i]) {
            assert(keyless_of(stats)[bare.len() as int].0 == stats[i].entry@);
        }
    }
}

/// What is reported of a file that is there is true of it: a mismatch names a size
/// other than the recorded one, and a missing key the place beside the file.
pub proof fn law_reported_problems_are_there(stats: Seq<Stat>, k: int)
    ensures
        0 <= k < mismatched_of(stats).len() ==> exists|i: int|
            0 <= i < stats.len() && (#[trigger] stats[i]).entry@ == mismatched_of(stats)[k].0
                && stats[i].found == Some(mismatched_of(stats)[k].1) && stats[i].entry.file_size
                is Some && stats[i].entry.file_size != stats[i].found,
        0 <= k < keyless_of(stats).len() ==> exists|i: int|
            0 <= i < stats.len() && (#[trigger] stats[i]).entry@ == keyless_of(stats)[k].0
                && stats[i].found is Some && !stats[i].has_key && sidecar_of(
                stats[i].entry.file_path@,
            ) == Some(keyless_of(stats)[k].1),
    decreases stats.len(),
{
    if stats.len() > 0 {
        let front = stats.drop_last();
        law_reported_problems_are_there(front, k);
        let last = stats[stats.len() - 1];
        if 0 <= k < mismatched_of(front).len() {
            let i = choose|i: int|
                0 <= i < front.len() && (#[trigger] front[i]).entry@ == mismatched_of(front)[k].0
                    && front[i].found == Some(mismatched_of(front)[k].1)
                    && front[i].entry.file_size is Some && front[i].entry.file_size
                    != front[i].found;
            assert(stats[i] == front[i]);
            assert(mismatched_of(stats)[k] == mismatched_of(front)[k]);
        }
        if 0 <= k < keyless_of(front).len() {
            let i = choose|i: int|
                0 <= i < front.len() && (#[trigger] front[i]).entry@ == keyless_of(front)[k].0
                    && front[i].found is Some && !front[i].has_key && sidecar_of(
                    front[i].entry.file_path@,
                ) == Some(keyless_of(front)[k].1);
            assert(stats[i] == front[i]);
            assert(keyless_of(stats)[k] == keyless_of(front)[k]);
        }
    }
}

/// The table of problems has a row for each problem, which names the item and the
/// file, and what is wrong with it.
pub proof fn law_every_problem_has_a_row(
    missing: Seq<EntryView>,
    mismatched: Seq<(EntryView, u64)>,
    keyless: Seq<(EntryView, Seq<char>)>,
    i: int,
)
    ensures
        ({
            let rows = problems(missing, mismatched, keyless);
            &&& rows.len() == missing.len() + mismatched.len() + keyless.len()
            &&& 0 <= i < missing.len() ==> rows[i] == seq![
                missing[i].asin,
                missing[i].kind,
                missing[i].variant,
                format_text(missing[i].content_format),
                "missing"@,
                size_text(missing[i].file_size),
                size_text(None),
                missing[i].file_path,
            ]
            &&& 0 <= i < mismatched.len() ==> {
                let row = rows[missing.len() + i];
                &&& row[0] == mismatched[i].0.asin
                &&& row[4] == "size mismatch"@
                &&& row[5] == size_text(mismatched[i].0.file_size)
                &&& row[6] == size_text(Some(mismatched[i].1))
                &&& row[7] == mismatched[i].0.file_path
            }
            &&& 0 <= i < keyless.len() ==> {
                let row = rows[missing.len() + mismatched.len() + i];
                &&& row[0] == keyless[i].0.asin
                &&& row[4] == "sidecar missing"@
                &&& row[7] == keyless[i].1
            }
        }),
{
}

/// The table of records names, for each of them, the item, what was downloaded,
/// its format, its size and its file, each in its column.
pub proof fn law_record_rows_say_what_is_recorded(list: Seq<EntryView>, i: int)
    requires
        0 <= i < list.len(),
    ensures
        entry_cells(list).len() == list.len(),
        entry_cells(list)[i].len() == 6,
        entry_cells(list)[i][0] == list[i].asin,
        entry_cells(list)[i][1] == list[i].kind,
        entry_cells(list)[i][2] == list[i].variant,
        list[i].content_format.len() > 0 ==> entry_cells(list)[i][3] == list[i].content_format,
        list[i].content_format.len() == 0 ==> entry_cells(list)[i][3] == "-"@,
        entry_cells(list)[i][4] == size_text(list[i].file_size),
        entry_cells(list)[i][5] == list[i].file_path,
{
}

/// Something is said under the table for each kind of problem that there is, and
/// nothing where there is none.
pub proof fn law_each_kind_of_problem_is_told(
    total: int,
    missing: int,
    mismatched: int,
    keyless: int,
)
    requires
        missing >= 0,
        mismatched >= 0,
        keyless >= 0,
    ensures
        check_lines(total, missing, mismatched, keyless).len() == (if missing > 0 {
            1int
        } else {
            0
        }) + (if mismatched > 0 {
            1int
        } else {
            0
        }) + (if keyless > 0 {
            1int
        } else {
            0
        }),
{
}

/// A key says all of a record that tells it from others: two records with one key
/// agree in the item, the marketplace, the kind, the format and the variant.
pub proof fn law_keys_tell_records_apart(key: DownloadKey, a: EntryView, b: EntryView)
    requires
        is_key_of(key, a),
    ensures
        is_key_of(key, b) <==> a.asin == b.asin && a.marketplace == b.marketplace && a.kind
            == b.kind && a.content_format == b.content_format && a.variant == b.variant,
{
}

/// Nothing is deleted but the files that are meant and the keys beside them.
pub proof fn law_nothing_else_is_deleted(paths: Seq<Seq<char>>, file: Seq<char>)
    requires
        with_keys(paths).contains(file),
    ensures
        exists|i: int|
            0 <= i < paths.len() && ((#[trigger] paths[i]) == file || sidecar_of(paths[i]) == Some(
                file,
            )),
    decreases paths.len(),
{
    let all = with_keys(paths);
    let k = choose|k: int| 0 <= k < all.len() && all[k] == file;
    let front = paths.drop_last();
    let done = with_keys(front);
    if k < done.len() {
        assert(done[k] == file);
        law_nothing_else_is_deleted(front, file);
        let i = choose|i: int|
            0 <= i < front.len() && ((#[trigger] front[i]) == file || sidecar_of(front[i]) == Some(
                file,
            ));
        assert(paths[i] == front[i]);
    } else {
        assert(paths[paths.len() - 1] == file || sidecar_of(paths[paths.len() - 1]) == Some(file));
    }
}

/// A removal is refused exactly where nothing says what to remove, and else removes
/// each record that agrees with all that is said, and no other.
pub proof fn law_removals_take_what_agrees(
    filter: DownloadFilter,
    list: Seq<EntryView>,
    entry: EntryView,
)
    ensures
        removal_of(filter, list) is Err <==> filter.asins is None && filter.kind is None
            && filter.format is None && filter.variant is None,
        removal_of(filter, list) matches Ok(matched) ==> (matched.contains(entry)
            <==> list.contains(entry) && (filter.asins matches Some(asins) ==> texts(
            asins@,
        ).contains(entry.asin)) && (filter.kind matches Some(kind) ==> kind@ == entry.kind) && (
        filter.format matches Some(format) ==> format@ == entry.content_format) && (
        filter.variant matches Some(variant) ==> variant@ == entry.variant)),
{
    lemma_filtered(list, |e: EntryView| filter.admits(e), entry);
}

/// A record says of a download what it is, of which item, and where its file is, and of
/// which content its license was.
pub proof fn law_records_say_what_was_downloaded(
    record: DownloadRecord,
    asin: Seq<char>,
    kind: Seq<char>,
    content_format: Seq<char>,
    variant: Seq<char>,
    request_kind: Seq<char>,
    file: Seq<char>,
    size: Option<u64>,
    license: LicensedContent,
)
    requires
        is_record_of(record, asin, kind, content_format, variant, request_kind, file, size),
    ensures
        record.asin@ == asin && record.kind@ == kind && record.content_format@ == content_format,
        record.variant@ == variant && record.request_kind@ == request_kind,
        record.file_path@ == file && record.file_size == size,
        names_content(record, Some(&license)) ==> opt_text(record.acr) == opt_text(license.acr)
            && opt_text(record.version) == opt_text(license.version) && opt_text(record.sku)
            == opt_text(license.sku),
        names_content(record, None) ==> record.acr is None && record.version is None && record.sku
            is None,
{
}

/// A database that is reset goes with all that belongs to it: what it has yet to write,
/// and its lock, which has its name with another extension.
pub proof fn law_resets_leave_nothing_behind(path: Seq<char>, stem: Seq<char>, ext: Seq<char>)
    ensures
        files_of_db(path).contains(path),
        files_of_db(path).contains(path + "-wal"@),
        files_of_db(path).contains(path + "-shm"@),
        files_of_db(path).contains(lock_of(path)),
        files_of_db(path).len() == 4,
        stem.len() > 0 && stem.last() != '/' && ext.len() > 0 && !ext.contains('.') && !ext.contains(
            '/',
        ) ==> lock_of(stem + "."@ + ext) == stem + ".lock"@,
{
    let files = files_of_db(path);
    assert(files.contains(files[0]));
    assert(files.contains(files[1]));
    assert(files.contains(files[2]));
    assert(files.contains(files[3]));
    if stem.len() > 0 && stem.last() != '/' && ext.len() > 0 && !ext.contains('.') && !ext.contains(
        '/',
    ) {
        let whole = stem + "."@ + ext;
        crate::paths::law_extensions_stand_behind_the_last_dot(stem, ext);
        assert(whole.subrange(0, stem.len() as int) =~= stem);
        assert(file_name_of(whole) is Some);
    }
}

/// The lines of a database say where it is, how large it is, and what it holds, each
/// number beside its own name.
pub proof fn law_databases_are_described(
    path: Seq<char>,
    size: Option<u64>,
    wal: Option<u64>,
    shm: Option<u64>,
    stats: Stats,
)
    ensures
        ({
            let lines = info_lines(path, size, wal, shm, stats);
            &&& lines.len() == 10
            &&& lines[0] == seq!["path"@, path]
            &&& lines[1] == seq!["size"@, size_text(size)]
            &&& lines[2] == seq!["wal / shm"@, size_text(wal) + " / "@ + size_text(shm)]
            &&& lines[3] == seq!["schema"@, "v"@ + decimal(stats.schema_version as int)]
            &&& lines[4] == seq![
                "items"@,
                decimal(stats.items_active as int) + " active, "@ + decimal(
                    stats.items_deleted as int,
                ) + " deleted"@,
            ]
            &&& lines[5] == seq!["episodes"@, decimal(stats.episodes_active as int)]
            &&& lines[6] == seq!["series"@, decimal(stats.series as int)]
            &&& lines[7] == seq!["downloads"@, decimal(stats.downloads as int)]
            &&& lines[8] == seq!["licenses"@, decimal(stats.licenses as int)]
            &&& lines[9][0] == "last sync"@
            &&& stats.last_sync_utc matches Some(time) ==> lines[9][1] == time@
            &&& stats.last_sync_utc is None ==> lines[9][1] == "never"@
        }),
{
}

/// A snapshot takes the place of the database only where it is a database, by its first
/// sixteen bytes, and another file.
pub proof fn law_only_other_databases_are_restored(
    source: Seq<char>,
    header: Seq<u8>,
    from: Option<Seq<char>>,
    to: Option<Seq<char>>,
)
    ensures
        restore_fault(source, header, from, to) is None <==> header == sqlite_magic() && (from
            is None || to is None || components(from->Some_0) != components(to->Some_0)),
        header != sqlite_magic() ==> restore_fault(source, header, from, to) == Some(
            DbError::NotSqlite(source),
        ),
        sqlite_magic().len() == 16,
        sqlite_magic()[0] == 'S' as u8,
        sqlite_magic()[5] == 'e' as u8,
        sqlite_magic()[15] == 0,
{
}

/// The records check out exactly where every file is there, of the size that was recorded,
/// and has its key where it needs one.
pub proof fn law_records_check_out_without_problems(stats: Seq<Stat>, i: int)
    requires
        checks_out(
            missing_of(stats).len(),
            mismatched_of(stats).len(),
            keyless_of(stats).len(),
        ),
        0 <= i < stats.len(),
    ensures
        stats[i].found is Some,
        stats[i].entry.file_size is Some ==> stats[i].entry.file_size == stats[i].found,
        sidecar_of(stats[i].entry.file_path@) is Some ==> stats[i].has_key,
        checks_out(0, 0, 0),
        problems(Seq::empty(), Seq::empty(), Seq::empty()).len() == 0,
{
    law_every_problem_is_reported(stats, i);
}

} // verus!
