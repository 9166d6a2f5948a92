//! Files under the download directory that no record refers to. A directory
//! can serve several accounts, so the records of all of them count.

use vstd::prelude::*;
use vstd::string::StringExecFns;
use crate::lists::push_text;
use crate::paths::components;
use crate::paths::path_components;
use crate::paths::same_path;
use crate::paths::sidecar_of;
use crate::paths::sidecar_path;
use crate::tables::cells;
use crate::tables::comes_before;
use crate::tables::lemma_row_before_asymmetric;
use crate::tables::lemma_row_before_transitive;
use crate::tables::push_row;
use crate::tables::row2;
use crate::tables::row_before;
use crate::text::cat2;
use crate::text::cat5;
use crate::text::chars_of;
use crate::text::decimal;
use crate::text::ends;
use crate::text::ends_with;
use crate::text::is_hex;
use crate::text::number;
use crate::text::opt_str;
use crate::text::opt_text;
use crate::text::part_at;
use crate::text::same;
use crate::text::slice_text;
use crate::text::stands_at;
use crate::text::texts;
use crate::units::human_size;
use crate::units::size_text;

verus! {

/// What follows `account_<16 digits>.sqlite` in a name of that form.
pub open spec fn suffix_of(name: Seq<char>) -> Option<Seq<char>> {
    if stands_at(name, "account_"@, 0) && name.len() >= 24 && (forall|i: int|
        8 <= i < 24 ==> is_hex(#[trigger] name[i])) && stands_at(name, ".sqlite"@, 24) {
        Some(name.subrange(31, name.len() as int))
    } else {
        None
    }
}

/// What follows `account_<16 digits>.sqlite` in a name of that form.
pub fn account_db_suffix(name: &str) -> (suffix: Option<String>)
    ensures
        opt_text(suffix) == suffix_of(name@),
{
    let chars = chars_of(name);
    let len: usize = chars.len();
    proof {
        reveal_strlit("account_");
        reveal_strlit(".sqlite");
    }
    if !part_at(&chars, &chars_of("account_"), 0) || len < 24 {
        return None;
    }
    let mut i: usize = 8;
    while i < 24
        invariant
            8 <= i <= 24 <= chars@.len(),
            chars@ == name@,
            forall|k: int| 8 <= k < i ==> is_hex(#[trigger] chars@[k]),
        decreases 24 - i,
    {
        let c = chars[i];
        if !(('0' <= c && c <= '9') || ('a' <= c && c <= 'f') || ('A' <= c && c <= 'F')) {
            assert(!is_hex(chars@[i as int]));
            return None;
        }
        i = i + 1;
    }
    if !part_at(&chars, &chars_of(".sqlite"), 24) {
        return None;
    }
    Some(slice_text(&chars, 31, len))
}

/// Whether a name is that of the database of an account.
pub open spec fn names_db(name: Seq<char>) -> bool {
    suffix_of(name) == Some(Seq::<char>::empty())
}

/// Whether a name is that of the database of an account, or of a file that
/// belongs to one.
pub open spec fn names_db_file(name: Seq<char>) -> bool {
    names_db(name) || suffix_of(name) == Some("-wal"@) || suffix_of(name) == Some("-shm"@)
}

/// Whether a name is that of the database of an account:
/// `account_<16 digits>.sqlite`.
pub fn is_account_db(name: &str) -> (yes: bool)
    ensures
        yes == names_db(name@),
{
    match account_db_suffix(name) {
        Some(suffix) => {
            let yes = suffix.as_str().is_empty();
            assert(yes ==> suffix@ =~= Seq::<char>::empty());
            yes
        },
        None => false,
    }
}

/// Whether a name is that of the database of an account, or of its `-wal` or
/// `-shm`.
pub fn is_account_db_artifact(name: &str) -> (yes: bool)
    ensures
        yes == names_db_file(name@),
{
    match account_db_suffix(name) {
        Some(suffix) => {
            let bare = suffix.as_str().is_empty();
            assert(bare ==> suffix@ =~= Seq::<char>::empty());
            bare || same(suffix.as_str(), "-wal") || same(suffix.as_str(), "-shm")
        },
        None => false,
    }
}

/// A database is never taken for a file of the library, and neither is what
/// belongs to it: both are told by the name alone.
pub proof fn law_db_files_are_told_by_name(name: Seq<char>)
    requires
        names_db(name),
    ensures
        names_db_file(name),
        names_db_file(name + "-wal"@) && !names_db(name + "-wal"@),
        names_db_file(name + "-shm"@) && !names_db(name + "-shm"@),
{
    reveal_strlit("account_");
    reveal_strlit(".sqlite");
    reveal_strlit("-wal");
    reveal_strlit("-shm");
    assert(name.subrange(31, name.len() as int) =~= Seq::<char>::empty());
    assert(name.len() == 31);
    lemma_suffix(name, "-wal"@);
    lemma_suffix(name, "-shm"@);
}

proof fn lemma_suffix(name: Seq<char>, more: Seq<char>)
    requires
        names_db(name),
        name.len() == 31,
    ensures
        suffix_of(name + more) == Some(more),
{
    reveal_strlit("account_");
    reveal_strlit(".sqlite");
    let all = name + more;
    assert(all.subrange(0, 8) =~= name.subrange(0, 8));
    assert(all.subrange(24, 31) =~= name.subrange(24, 31));
    assert forall|i: int| 8 <= i < 24 implies is_hex(#[trigger] all[i]) by {
        assert(is_hex(name[i]));
    }
    assert(all.subrange(31, all.len() as int) =~= more);
}

/// Whether a directory is on a list.
pub open spec fn lists_dir(dirs: Seq<Seq<char>>, dir: Seq<char>) -> bool {
    exists|k: int| 0 <= k < dirs.len() && components(#[trigger] dirs[k]) == components(dir)
}

/// The directories with those of `more` behind them that are not among them.
pub open spec fn with_dirs(dirs: Seq<Seq<char>>, more: Seq<Seq<char>>) -> Seq<Seq<char>>
    decreases more.len(),
{
    if more.len() == 0 {
        dirs
    } else if lists_dir(dirs, more[0]) {
        with_dirs(dirs, more.drop_first())
    } else {
        with_dirs(dirs.push(more[0]), more.drop_first())
    }
}

fn has_dir(dirs: &Vec<String>, dir: &str) -> (yes: bool)
    ensures
        yes == lists_dir(texts(dirs@), dir@),
{
    let mut i: usize = 0;
    while i < dirs.len()
        invariant
            i <= dirs@.len(),
            forall|k: int| 0 <= k < i ==> components(#[trigger] texts(dirs@)[k]) != components(dir@),
        decreases dirs.len() - i,
    {
        if same_path(dirs[i].as_str(), dir) {
            assert(components(texts(dirs@)[i as int]) == components(dir@));
            return true;
        }
        i = i + 1;
    }
    false
}

/// Every directory that may hold databases of accounts: the usual one, and
/// those that the settings name, each once.
pub fn db_dirs(usual: &str, settings: &Vec<String>) -> (dirs: Vec<String>)
    ensures
        texts(dirs@) == with_dirs(seq![usual@], texts(settings@)),
{
    let mut dirs: Vec<String> = Vec::new();
    push_text(&mut dirs, String::from_str(usual));
    let ghost all = texts(settings@);
    let mut i: usize = 0;
    assert(texts(dirs@) =~= seq![usual@]);
    assert(all.subrange(0, all.len() as int) =~= all);
    while i < settings.len()
        invariant
            i <= settings@.len(),
            all == texts(settings@),
            with_dirs(seq![usual@], all) == with_dirs(
                texts(dirs@),
                all.subrange(i as int, all.len() as int),
            ),
        decreases settings.len() - i,
    {
        let ghost rest = all.subrange(i as int, all.len() as int);
        assert(rest[0] == settings@[i as int]@);
        assert(rest.drop_first() =~= all.subrange(i + 1, all.len() as int));
        if !has_dir(&dirs, settings[i].as_str()) {
            push_text(&mut dirs, settings[i].clone());
        }
        i = i + 1;
    }
    dirs
}

/// The paths that records refer to. Two texts that are the same path count as
/// one.
#[derive(Debug)]
pub struct References {
    paths: Vec<Vec<String>>,
}

impl View for References {
    type V = Set<Seq<Seq<char>>>;

    closed spec fn view(&self) -> Set<Seq<Seq<char>>> {
        cells(self.paths@).to_set()
    }
}

impl References {
    /// No paths.
    pub fn new() -> (refs: References)
        ensures
            refs@ == Set::<Seq<Seq<char>>>::empty(),
    {
        let refs = References { paths: Vec::new() };
        assert(refs@ =~= Set::<Seq<Seq<char>>>::empty());
        refs
    }

    fn insert(&mut self, path: &str)
        ensures
            final(self)@ == old(self)@.insert(components(path@)),
    {
        let ghost known = cells(self.paths@);
        let ghost set = self@;
        let parts = path_components(path);
        push_row(&mut self.paths, parts);
        proof {
            let all = cells(self.paths@);
            assert forall|item: Seq<Seq<char>>| self@.contains(item) <==> set.insert(
                components(path@),
            ).contains(item) by {
                if known.contains(item) {
                    let i = choose|i: int| 0 <= i < known.len() && known[i] == item;
                    assert(all[i] == item);
                }
                assert(all[known.len() as int] == components(path@));
            }
            assert(self@ =~= set.insert(components(path@)));
        }
    }

    /// Adds a path and, where it resolves to one, its canonical form: what was
    /// recorded and what is found can differ by links.
    pub fn insert_with_canonical(&mut self, path: &str, canonical: Option<&str>)
        ensures
            final(self)@ == (match canonical {
                Some(other) => old(self)@.insert(components(other@)),
                None => old(self)@,
            }).insert(components(path@)),
    {
        if let Some(other) = canonical {
            self.insert(other);
        }
        self.insert(path);
    }

    /// Adds a path that is recorded, and the path of the key that belongs to
    /// it: a key whose audio is recorded is owned. The other two are what both
    /// resolve to.
    pub fn refer(&mut self, path: &str, canonical: Option<&str>, key_canonical: Option<&str>)
        ensures
            final(self)@ == referring(old(self)@, path@, opt_str(canonical), opt_str(key_canonical)),
    {
        if let Some(key) = sidecar_path(path) {
            self.insert_with_canonical(key.as_str(), key_canonical);
        }
        self.insert_with_canonical(path, canonical);
    }

    /// Whether a path is referred to.
    pub fn contains(&self, path: &str) -> (yes: bool)
        ensures
            yes == self@.contains(components(path@)),
    {
        let ghost all = cells(self.paths@);
        let ghost want = components(path@);
        let parts = path_components(path);
        let mut i: usize = 0;
        while i < self.paths.len()
            invariant
                i <= self.paths@.len(),
                all == cells(self.paths@),
                want == texts(parts@),
                want == components(path@),
                forall|k: int| 0 <= k < i ==> (#[trigger] all[k]) != want,
            decreases self.paths.len() - i,
        {
            assert(all[i as int] == texts(self.paths@[i as int]@));
            if crate::paths::same_list(&self.paths[i], &parts) {
                assert(all.contains(want));
                return true;
            }
            i = i + 1;
        }
        false
    }
}

/// What is referred to once a path is recorded.
pub open spec fn referring(
    known: Set<Seq<Seq<char>>>,
    path: Seq<char>,
    canonical: Option<Seq<char>>,
    key_canonical: Option<Seq<char>>,
) -> Set<Seq<Seq<char>>> {
    let keyed = match sidecar_of(path) {
        Some(key) => resolved(known, key, key_canonical),
        None => known,
    };
    resolved(keyed, path, canonical)
}

/// What is referred to once a path and what it resolves to are added.
pub open spec fn resolved(
    known: Set<Seq<Seq<char>>>,
    path: Seq<char>,
    canonical: Option<Seq<char>>,
) -> Set<Seq<Seq<char>>> {
    (match canonical {
        Some(other) => known.insert(components(other)),
        None => known,
    }).insert(components(path))
}

/// Whether two directories are the same: by what they resolve to where both
/// do, by their paths otherwise.
pub open spec fn is_same_dir(
    a: Seq<char>,
    a_canonical: Option<Seq<char>>,
    b: Seq<char>,
    b_canonical: Option<Seq<char>>,
) -> bool {
    match (a_canonical, b_canonical) {
        (Some(x), Some(y)) => components(x) == components(y),
        _ => components(a) == components(b),
    }
}

/// Whether two directories are the same.
pub fn same_dir(a: &str, a_canonical: Option<&str>, b: &str, b_canonical: Option<&str>) -> (yes: bool)
    ensures
        yes == is_same_dir(a@, opt_str(a_canonical), b@, opt_str(b_canonical)),
{
    match (a_canonical, b_canonical) {
        (Some(x), Some(y)) => same_path(x, y),
        _ => same_path(a, b),
    }
}

/// A directory of databases, and what it resolves to.
#[derive(Debug)]
pub struct DbDir {
    /// Its path.
    pub path: String,
    /// What that resolves to.
    pub canonical: Option<String>,
}

/// Whether a directory holds databases.
pub open spec fn holds_databases(dirs: Seq<DbDir>, path: Seq<char>, canonical: Option<Seq<char>>) -> bool {
    exists|k: int|
        0 <= k < dirs.len() && is_same_dir(
            (#[trigger] dirs[k]).path@,
            opt_text(dirs[k].canonical),
            path,
            canonical,
        )
}

/// Whether the search goes into a directory: never into one of databases.
pub fn enters(dirs: &Vec<DbDir>, path: &str, canonical: Option<&str>) -> (yes: bool)
    ensures
        yes == !holds_databases(dirs@, path@, opt_str(canonical)),
{
    let mut i: usize = 0;
    while i < dirs.len()
        invariant
            i <= dirs@.len(),
            forall|k: int|
                0 <= k < i ==> !is_same_dir(
                    (#[trigger] dirs@[k]).path@,
                    opt_text(dirs@[k].canonical),
                    path@,
                    opt_str(canonical),
                ),
        decreases dirs.len() - i,
    {
        let dir = &dirs[i];
        let known: Option<&str> = match &dir.canonical {
            Some(text) => Some(text.as_str()),
            None => None,
        };
        if same_dir(dir.path.as_str(), known, path, canonical) {
            return false;
        }
        i = i + 1;
    }
    true
}

/// A file that was found.
#[derive(Debug)]
pub struct FoundFile {
    /// Its path.
    pub path: String,
    /// Its name.
    pub name: String,
    /// What its path resolves to.
    pub canonical: Option<String>,
    /// How large it is.
    pub size: Option<u64>,
}

/// What a file that was found is.
#[derive(Clone, Copy, Debug, PartialEq, Eq, Structural)]
pub enum Standing {
    /// A file of a database.
    Database,
    /// A download that is not finished.
    Part,
    /// A file that a record refers to.
    Owned,
    /// A file that nothing refers to.
    Orphan,
}

/// What a file that was found is.
pub open spec fn standing_of(refs: Set<Seq<Seq<char>>>, file: FoundFile) -> Standing {
    if names_db_file(file.name@) {
        Standing::Database
    } else if ends(file.name@, ".part"@) {
        Standing::Part
    } else if refs.contains(components(file.path@)) || (file.canonical is Some && refs.contains(
        components(file.canonical->Some_0@),
    )) {
        Standing::Owned
    } else {
        Standing::Orphan
    }
}

/// Tells what a file that was found is.
pub fn standing(refs: &References, file: &FoundFile) -> (result: Standing)
    ensures
        result == standing_of(refs@, *file),
{
    if is_account_db_artifact(file.name.as_str()) {
        return Standing::Database;
    }
    if ends_with(file.name.as_str(), ".part") {
        return Standing::Part;
    }
    if refs.contains(file.path.as_str()) {
        return Standing::Owned;
    }
    if let Some(canonical) = &file.canonical {
        if refs.contains(canonical.as_str()) {
            return Standing::Owned;
        }
    }
    Standing::Orphan
}

/// A file that a record refers to is never an orphan, whatever else is
/// recorded; nor is the key that belongs to it; nor is a download that is not
/// finished, or a file of a database.
pub proof fn law_owned_files_are_safe(
    known: Set<Seq<Seq<char>>>,
    path: Seq<char>,
    canonical: Option<Seq<char>>,
    key_canonical: Option<Seq<char>>,
    file: FoundFile,
)
    ensures
        ({
            let refs = referring(known, path, canonical, key_canonical);
            let standing = standing_of(refs, file);
            &&& file.path@ == path ==> standing != Standing::Orphan
            &&& sidecar_of(path) == Some(file.path@) ==> standing != Standing::Orphan
            &&& known.contains(components(file.path@)) ==> standing != Standing::Orphan
            &&& ends(file.name@, ".part"@) ==> standing != Standing::Orphan
            &&& names_db_file(file.name@) ==> standing != Standing::Orphan
        }),
{
}

/// The key of an order: the root comes first, then a dot, two dots, and names.
pub open spec fn part_key(part: Seq<char>) -> Seq<char> {
    if part == "/"@ {
        "0"@ + part
    } else if part == "."@ {
        "1"@ + part
    } else if part == ".."@ {
        "2"@ + part
    } else {
        "3"@ + part
    }
}

/// The keys of the parts of a path.
pub open spec fn path_key(path: Seq<char>) -> Seq<Seq<char>> {
    components(path).map_values(|part: Seq<char>| part_key(part))
}

/// Whether one path comes before another: by the first parts in which they
/// differ.
pub open spec fn path_before(a: Seq<char>, b: Seq<char>) -> bool {
    row_before(path_key(a), path_key(b))
}

fn order_key(path: &str) -> (key: Vec<String>)
    ensures
        texts(key@) == path_key(path@),
{
    let parts = path_components(path);
    let mut key: Vec<String> = Vec::new();
    let mut i: usize = 0;
    while i < parts.len()
        invariant
            i <= parts@.len(),
            texts(parts@) == components(path@),
            texts(key@).len() == i,
            forall|k: int| 0 <= k < i ==> #[trigger] texts(key@)[k] == path_key(path@)[k],
        decreases parts.len() - i,
    {
        let part = parts[i].as_str();
        let rank = if same(part, "/") {
            "0"
        } else if same(part, ".") {
            "1"
        } else if same(part, "..") {
            "2"
        } else {
            "3"
        };
        assert(texts(parts@)[i as int] == part@);
        push_text(&mut key, cat2(rank, part));
        i = i + 1;
    }
    assert(texts(key@) =~= path_key(path@));
    key
}

/// A file in a report: its path and how large it is.
#[derive(Debug)]
pub struct ListedFile {
    /// Its path.
    pub path: String,
    /// How large it is.
    pub size: Option<u64>,
}

/// What the files of a report hold, in texts.
pub open spec fn listed(files: Seq<ListedFile>) -> Seq<(Seq<char>, Option<u64>)> {
    files.map_values(|file: ListedFile| (file.path@, file.size))
}

/// Whether no file comes before one that stands ahead of it.
pub open spec fn in_order(files: Seq<(Seq<char>, Option<u64>)>) -> bool {
    forall|i: int, j: int|
        0 <= i < j < files.len() ==> !path_before(
            (#[trigger] files[j]).0,
            (#[trigger] files[i]).0,
        )
}

fn insert_file(sorted: &mut Vec<ListedFile>, path: &str, size: Option<u64>)
    requires
        in_order(listed(old(sorted)@)),
    ensures
        in_order(listed(final(sorted)@)),
        listed(final(sorted)@).to_multiset() == listed(old(sorted)@).to_multiset().insert(
            (path@, size),
        ),
{
    let ghost known = listed(sorted@);
    let ghost new = (path@, size);
    let key = order_key(path);
    let mut i: usize = sorted.len();
    while i > 0 && comes_before(&key, &order_key(sorted[i - 1].path.as_str()))
        invariant
            i <= sorted@.len(),
            listed(sorted@) == known,
            texts(key@) == path_key(path@),
            forall|k: int| i <= k < known.len() ==> path_before(path@, (#[trigger] known[k]).0),
        decreases i,
    {
        assert(known[i - 1].0 == sorted@[i - 1].path@);
        i = i - 1;
    }
    proof {
        if i > 0 {
            assert(known[i - 1].0 == sorted@[i - 1].path@);
        }
    }
    let file = ListedFile { path: String::from_str(path), size };
    sorted.insert(i, file);
    proof {
        let all = listed(sorted@);
        let front = known.subrange(0, i as int);
        let back = known.subrange(i as int, known.len() as int);
        assert(front + back =~= known);
        assert(all =~= front.push(new) + back);
        broadcast use vstd::seq_lib::group_to_multiset_ensures;

        vstd::seq_lib::lemma_multiset_commutative(front, back);
        vstd::seq_lib::lemma_multiset_commutative(front.push(new), back);
        assert(all.to_multiset() =~= known.to_multiset().insert(new));
        assert forall|x: int, y: int| 0 <= x < y < all.len() implies !path_before(
            (#[trigger] all[y]).0,
            (#[trigger] all[x]).0,
        ) by {
            let from = |k: int| if k < i { k } else { k - 1 };
            if x != i && y != i {
                assert(all[x] == known[from(x)] && all[y] == known[from(y)]);
            } else if y == i {
                assert(all[x] == known[x]);
                if path_before(path@, known[x].0) {
                    if x < i - 1 {
                        assert(!path_before(known[i - 1].0, known[x].0));
                        lemma_row_before_transitive(
                            path_key(path@),
                            path_key(known[x].0),
                            path_key(known[i - 1].0),
                        );
                    }
                }
            } else {
                assert(all[y] == known[y - 1]);
                assert(path_before(path@, known[y - 1].0));
                lemma_row_before_asymmetric(path_key(path@), path_key(known[y - 1].0));
            }
        }
    }
}

/// What a search found.
#[derive(Debug)]
pub struct Scan {
    /// The files that nothing refers to, in the order of their paths.
    pub orphans: Vec<ListedFile>,
    /// The downloads that are not finished, in the order of their paths.
    pub parts: Vec<ListedFile>,
    /// How many files there are.
    pub total: usize,
}

/// The files of one standing.
pub open spec fn files_of(refs: Set<Seq<Seq<char>>>, files: Seq<FoundFile>, standing: Standing) -> Seq<
    (Seq<char>, Option<u64>),
>
    decreases files.len(),
{
    if files.len() == 0 {
        Seq::empty()
    } else if standing_of(refs, files.last()) == standing {
        files_of(refs, files.drop_last(), standing).push((files.last().path@, files.last().size))
    } else {
        files_of(refs, files.drop_last(), standing)
    }
}

/// Parts the files that were found: the orphans and the downloads that are not
/// finished are listed, each in the order of their paths, and all are counted.
pub fn scan_files(refs: &References, files: &Vec<FoundFile>) -> (scan: Scan)
    ensures
        scan.total == files@.len(),
        in_order(listed(scan.orphans@)),
        listed(scan.orphans@).to_multiset() == files_of(
            refs@,
            files@,
            Standing::Orphan,
        ).to_multiset(),
        in_order(listed(scan.parts@)),
        listed(scan.parts@).to_multiset() == files_of(refs@, files@, Standing::Part).to_multiset(),
{
    let mut orphans: Vec<ListedFile> = Vec::new();
    let mut parts: Vec<ListedFile> = Vec::new();
    let mut i: usize = 0;
    assert(listed(orphans@) =~= files_of(refs@, files@.subrange(0, 0), Standing::Orphan));
    assert(listed(parts@) =~= files_of(refs@, files@.subrange(0, 0), Standing::Part));
    while i < files.len()
        invariant
            i <= files@.len(),
            in_order(listed(orphans@)),
            in_order(listed(parts@)),
            listed(orphans@).to_multiset() == files_of(
                refs@,
                files@.subrange(0, i as int),
                Standing::Orphan,
            ).to_multiset(),
            listed(parts@).to_multiset() == files_of(
                refs@,
                files@.subrange(0, i as int),
                Standing::Part,
            ).to_multiset(),
        decreases files.len() - i,
    {
        proof {
            let next = files@.subrange(0, i + 1);
            assert(next.drop_last() =~= files@.subrange(0, i as int));
            assert(next.last() == files@[i as int]);
            broadcast use vstd::seq_lib::group_to_multiset_ensures;

            let front = files@.subrange(0, i as int);
            let item = (files@[i as int].path@, files@[i as int].size);
            assert(files_of(refs@, front, Standing::Orphan).push(item).to_multiset() =~= files_of(
                refs@,
                front,
                Standing::Orphan,
            ).to_multiset().insert(item));
            assert(files_of(refs@, front, Standing::Part).push(item).to_multiset() =~= files_of(
                refs@,
                front,
                Standing::Part,
            ).to_multiset().insert(item));
        }
        let file = &files[i];
        match standing(refs, file) {
            Standing::Orphan => insert_file(&mut orphans, file.path.as_str(), file.size),
            Standing::Part => insert_file(&mut parts, file.path.as_str(), file.size),
            Standing::Database => {},
            Standing::Owned => {},
        }
        i = i + 1;
    }
    assert(files@.subrange(0, i as int) =~= files@);
    Scan { orphans, parts, total: files.len() }
}

/// The rows of the table of orphans.
pub fn orphan_rows(scan: &Scan) -> (rows: Vec<Vec<String>>)
    ensures
        cells(rows@) == listed(scan.orphans@).map_values(
            |file: (Seq<char>, Option<u64>)| seq![size_text(file.1), file.0],
        ),
{
    let mut rows: Vec<Vec<String>> = Vec::new();
    let ghost want = listed(scan.orphans@).map_values(
        |file: (Seq<char>, Option<u64>)| seq![size_text(file.1), file.0],
    );
    let mut i: usize = 0;
    assert(cells(rows@) =~= want.subrange(0, 0));
    while i < scan.orphans.len()
        invariant
            i <= scan.orphans@.len(),
            want == listed(scan.orphans@).map_values(
                |file: (Seq<char>, Option<u64>)| seq![size_text(file.1), file.0],
            ),
            cells(rows@) == want.subrange(0, i as int),
        decreases scan.orphans.len() - i,
    {
        let file = &scan.orphans[i];
        push_row(&mut rows, row2(human_size(file.size), file.path.clone()));
        i = i + 1;
        assert(cells(rows@) =~= want.subrange(0, i as int));
    }
    assert(want.subrange(0, i as int) =~= want);
    rows
}

/// What is said of the result of a search.
pub fn scan_line(scan: &Scan, root: &str, databases: usize) -> (text: String)
    ensures
        text@ == (if scan.orphans@.len() == 0 {
            "no orphans: every file under "@ + root@ + " is referenced ("@ + decimal(
                scan.total as int,
            ) + " file(s) checked against "@ + decimal(databases as int)
                + " account database(s))"@
        } else {
            decimal(scan.orphans@.len() as int) + " of "@ + decimal(scan.total as int)
                + " file(s) under "@ + root@ + " have no download or annotation record ("@
                + decimal(databases as int) + " account database(s) checked)"@
        }),
{
    let total = number(scan.total as u64);
    let count = number(databases as u64);
    if scan.orphans.len() == 0 {
        let mut text = cat5(
            "no orphans: every file under ",
            root,
            " is referenced (",
            total.as_str(),
            " file(s) checked against ",
        );
        text.append(count.as_str());
        text.append(" account database(s))");
        text
    } else {
        let mut text = cat5(
            number(scan.orphans.len() as u64).as_str(),
            " of ",
            total.as_str(),
            " file(s) under ",
            root,
        );
        text.append(" have no download or annotation record (");
        text.append(count.as_str());
        text.append(" account database(s) checked)");
        text
    }
}

/// A file is an orphan exactly where no record refers to it, by its path or by what
/// that resolves to, and it is neither a database nor a part of a download that is
/// still under way.
pub proof fn law_orphans_have_no_record(refs: Set<Seq<Seq<char>>>, file: FoundFile)
    ensures
        standing_of(refs, file) is Orphan <==> {
            &&& !names_db_file(file.name@)
            &&& !ends(file.name@, ".part"@)
            &&& !refs.contains(components(file.path@))
            &&& file.canonical matches Some(other) ==> !refs.contains(components(other@))
        },
        standing_of(refs, file) is Part <==> ends(file.name@, ".part"@) && !names_db_file(
            file.name@,
        ),
        standing_of(refs, file) is Database <==> names_db_file(file.name@),
{
}

/// Every orphan that was found is reported, with its size, and nothing else is; the
/// same holds of parts.
pub proof fn law_every_orphan_is_reported(
    refs: Set<Seq<Seq<char>>>,
    files: Seq<FoundFile>,
    standing: Standing,
    entry: (Seq<char>, Option<u64>),
)
    ensures
        files_of(refs, files, standing).contains(entry) <==> exists|i: int|
            0 <= i < files.len() && standing_of(refs, #[trigger] files[i]) == standing && entry == (
            files[i].path@, files[i].size),
    decreases files.len(),
{
    if files.len() > 0 {
        let front = files.drop_last();
        let before = files_of(refs, front, standing);
        let all = files_of(refs, files, standing);
        law_every_orphan_is_reported(refs, front, standing, entry);
        let last = files[files.len() - 1];
        if before.contains(entry) {
            let k = choose|k: int| 0 <= k < before.len() && before[k] == entry;
            assert(all[k] == entry);
            let i = choose|i: int|
                0 <= i < front.len() && standing_of(refs, #[trigger] front[i]) == standing && entry
                    == (front[i].path@, front[i].size);
            assert(files[i] == front[i]);
        }
        if standing_of(refs, last) == standing {
            assert(all[before.len() as int] == (last.path@, last.size));
        }
        if all.contains(entry) {
            let k = choose|k: int| 0 <= k < all.len() && all[k] == entry;
            if k < before.len() {
                assert(before[k] == entry);
            } else {
                assert(standing_of(refs, files[files.len() - 1]) == standing);
            }
        }
        if exists|i: int|
            0 <= i < files.len() && standing_of(refs, #[trigger] files[i]) == standing && entry == (
            files[i].path@, files[i].size) {
            let i = choose|i: int|
                0 <= i < files.len() && standing_of(refs, #[trigger] files[i]) == standing && entry
                    == (files[i].path@, files[i].size);
            if i < front.len() {
                assert(front[i] == files[i]);
            } else {
                assert(all.contains(all[before.len() as int]));
            }
        }
    }
}

/// What is referred to grows with every record: by its path, by what that resolves
/// to, and by the key beside it with what that resolves to; nothing is forgotten.
pub proof fn law_records_refer_to_file_and_key(
    known: Set<Seq<Seq<char>>>,
    path: Seq<char>,
    canonical: Option<Seq<char>>,
    key_canonical: Option<Seq<char>>,
    parts: Seq<Seq<char>>,
)
    ensures
        referring(known, path, canonical, key_canonical).contains(parts) <==> {
            ||| known.contains(parts)
            ||| parts == components(path)
            ||| canonical is Some && parts == components(canonical->Some_0)
            ||| sidecar_of(path) is Some && (parts == components(sidecar_of(path)->Some_0) || (
            key_canonical is Some && parts == components(key_canonical->Some_0)))
        },
{
}

proof fn lemma_with_dirs(dirs: Seq<Seq<char>>, more: Seq<Seq<char>>)
    ensures
        dirs.len() <= with_dirs(dirs, more).len(),
        forall|k: int| 0 <= k < dirs.len() ==> (#[trigger] with_dirs(dirs, more)[k]) == dirs[k],
        forall|k: int|
            0 <= k < more.len() ==> lists_dir(with_dirs(dirs, more), #[trigger] more[k]),
    decreases more.len(),
{
    if more.len() > 0 {
        let rest = more.drop_first();
        let next = if lists_dir(dirs, more[0]) {
            dirs
        } else {
            dirs.push(more[0])
        };
        lemma_with_dirs(next, rest);
        let all = with_dirs(dirs, more);
        assert(all == with_dirs(next, rest));
        assert forall|k: int| 0 <= k < dirs.len() implies (#[trigger] all[k]) == dirs[k] by {
            assert(next[k] == dirs[k]);
        }
        assert(lists_dir(next, more[0])) by {
            if !lists_dir(dirs, more[0]) {
                assert(components(next[dirs.len() as int]) == components(more[0]));
            }
        }
        let m = choose|m: int|
            0 <= m < next.len() && components(#[trigger] next[m]) == components(more[0]);
        assert(components(all[m]) == components(more[0]));
        assert forall|k: int| 0 <= k < more.len() implies lists_dir(all, #[trigger] more[k]) by {
            if k > 0 {
                assert(rest[k - 1] == more[k]);
            }
        }
    }
}

/// No directory of databases is passed over: the usual one and every one that the
/// settings name are looked at.
pub proof fn law_every_database_is_looked_for(usual: Seq<char>, settings: Seq<Seq<char>>, k: int)
    ensures
        lists_dir(with_dirs(seq![usual], settings), usual),
        0 <= k < settings.len() ==> lists_dir(with_dirs(seq![usual], settings), settings[k]),
{
    lemma_with_dirs(seq![usual], settings);
    let all = with_dirs(seq![usual], settings);
    assert(seq![usual][0] == usual);
    assert(all[0] == usual);
    assert(components(all[0]) == components(usual));
}

/// A directory is told from others by what both resolve to, and by their paths
/// where that is not known.
pub proof fn law_directories_are_told_by_what_they_are(
    a: Seq<char>,
    b: Seq<char>,
    x: Seq<char>,
    y: Seq<char>,
    other: Option<Seq<char>>,
)
    ensures
        is_same_dir(a, Some(x), b, Some(y)) <==> components(x) == components(y),
        is_same_dir(a, None, b, other) <==> components(a) == components(b),
        is_same_dir(a, other, b, None) <==> components(a) == components(b),
        is_same_dir(a, Some(x), a, Some(x)),
        is_same_dir(a, Some(x), b, Some(y)) == is_same_dir(b, Some(y), a, Some(x)),
{
}

/// No directory of databases is entered in the search for orphans, by whatever path it is
/// reached; every other one is.
pub proof fn law_database_directories_are_not_searched(
    dirs: Seq<DbDir>,
    path: Seq<char>,
    canonical: Option<Seq<char>>,
    k: int,
)
    ensures
        0 <= k < dirs.len() && dirs[k].path@ == path && (dirs[k].canonical is None || canonical
            is None) ==> holds_databases(dirs, path, canonical),
        0 <= k < dirs.len() && opt_text(dirs[k].canonical) is Some && opt_text(dirs[k].canonical)
            == canonical ==> holds_databases(dirs, path, canonical),
        dirs.len() == 0 ==> !holds_databases(dirs, path, canonical),
        holds_databases(dirs, path, None) ==> exists|i: int|
            0 <= i < dirs.len() && components((#[trigger] dirs[i]).path@) == components(path),
{
    if 0 <= k < dirs.len() {
        let _ = dirs[k];
    }
}

} // verus!
