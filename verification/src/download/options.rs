//! What a download run was asked for: artifacts, cover sizes, chapter layouts
//! and policies, from the command line and the settings.

use vstd::prelude::*;
use vstd::string::StringExecFns;
use super::request_kind::Quality;
use crate::lists::add_text;
use crate::lists::push_text;
use crate::text::cat2;
use crate::text::cat3;
use crate::text::decimal;
use crate::text::lowered;
use crate::text::number;
use crate::text::opt_text;
use crate::text::parse_up_to;
use crate::text::quoted;
use crate::text::quoted_form;
use crate::text::same;
use crate::text::split;
use crate::text::split_all;
use crate::text::texts;
use crate::text::to_ascii_lower;
use crate::text::trim;
use crate::text::trimmed;
use crate::text::unsigned_value;

verus! {

/// What is wrong with a download run; `T` holds the texts that are named.
#[derive(Debug)]
pub enum DownloadError<T> {
    /// No item was asked for.
    NoSource,
    /// Archived titles were asked for, and not the missing ones.
    ArchivedWithoutMissing,
    /// A `--kind` that is no artifact.
    UnknownKind(T),
    /// No `--kind` at all.
    NoKind,
    /// A cover size that is no positive number.
    CoverSize(T),
    /// No cover size at all.
    NoCoverSize,
    /// A chapter layout that is none.
    ChapterType(T),
    /// No chapter layout at all.
    NoChapterType,
    /// A throwaway directory inside the managed one.
    InsideDownloadDir(T),
    /// Some items of a batch failed.
    Failed {
        /// How many.
        failed: usize,
        /// Of how many.
        total: usize,
    },
}

impl View for DownloadError<String> {
    type V = DownloadError<Seq<char>>;

    open spec fn view(&self) -> DownloadError<Seq<char>> {
        match *self {
            DownloadError::NoSource => DownloadError::NoSource,
            DownloadError::ArchivedWithoutMissing => DownloadError::ArchivedWithoutMissing,
            DownloadError::UnknownKind(word) => DownloadError::UnknownKind(word@),
            DownloadError::NoKind => DownloadError::NoKind,
            DownloadError::CoverSize(word) => DownloadError::CoverSize(word@),
            DownloadError::NoCoverSize => DownloadError::NoCoverSize,
            DownloadError::ChapterType(word) => DownloadError::ChapterType(word@),
            DownloadError::NoChapterType => DownloadError::NoChapterType,
            DownloadError::InsideDownloadDir(dir) => DownloadError::InsideDownloadDir(dir@),
            DownloadError::Failed { failed, total } => DownloadError::Failed { failed, total },
        }
    }
}

/// The words that tell the user of a fault.
pub open spec fn fault_message(error: DownloadError<Seq<char>>) -> Seq<char> {
    match error {
        DownloadError::NoSource =>
            "specify what to download: --asin <ASIN>, --title <QUERY>, or --missing"@,
        DownloadError::ArchivedWithoutMissing =>
            "--include-archived only applies to the --missing selection"@,
        DownloadError::UnknownKind(word) => "unknown --kind value "@ + quoted_form(word)
            + " (audio, chapter, pdf, cover, all)"@,
        DownloadError::NoKind => "--kind selected nothing"@,
        DownloadError::CoverSize(word) => "invalid cover size "@ + quoted_form(word)
            + " (a positive number of px, e.g. 252, 315, 360, 408, 500, 558, 570, 882, 900, 1215)"@,
        DownloadError::NoCoverSize => "--cover-size selected nothing"@,
        DownloadError::ChapterType(word) => "unknown chapter type "@ + quoted_form(word)
            + " (flat, tree)"@,
        DownloadError::NoChapterType => "--chapter-type selected nothing"@,
        DownloadError::InsideDownloadDir(dir) =>
            "--no-db-write requires a --dir outside the configured download_dir ("@ + dir + ")"@,
        DownloadError::Failed { failed, total } => crate::text::decimal(failed as int) + " of "@
            + crate::text::decimal(total as int) + " item(s) failed"@,
    }
}

impl DownloadError<String> {
    /// The words that tell the user of the fault.
    pub fn message(&self) -> (text: String)
        ensures
            text@ == fault_message(self@),
    {
        match self {
            DownloadError::NoSource => String::from_str(
                "specify what to download: --asin <ASIN>, --title <QUERY>, or --missing",
            ),
            DownloadError::ArchivedWithoutMissing => String::from_str(
                "--include-archived only applies to the --missing selection",
            ),
            DownloadError::UnknownKind(word) => cat3(
                "unknown --kind value ",
                quoted(word.as_str()).as_str(),
                " (audio, chapter, pdf, cover, all)",
            ),
            DownloadError::NoKind => String::from_str("--kind selected nothing"),
            DownloadError::CoverSize(word) => cat3(
                "invalid cover size ",
                quoted(word.as_str()).as_str(),
                " (a positive number of px, e.g. 252, 315, 360, 408, 500, 558, 570, 882, 900, 1215)",
            ),
            DownloadError::NoCoverSize => String::from_str("--cover-size selected nothing"),
            DownloadError::ChapterType(word) => cat3(
                "unknown chapter type ",
                quoted(word.as_str()).as_str(),
                " (flat, tree)",
            ),
            DownloadError::NoChapterType => String::from_str("--chapter-type selected nothing"),
            DownloadError::InsideDownloadDir(dir) => cat3(
                "--no-db-write requires a --dir outside the configured download_dir (",
                dir.as_str(),
                ")",
            ),
            DownloadError::Failed { failed, total } => {
                let mut text = cat2(crate::text::number(*failed as u64).as_str(), " of ");
                text.append(crate::text::number(*total as u64).as_str());
                text.append(" item(s) failed");
                text
            },
        }
    }
}

/// The trimmed parts of a list that are not empty.
pub open spec fn present(list: Seq<Seq<char>>) -> Seq<Seq<char>>
    decreases list.len(),
{
    if list.len() == 0 {
        Seq::empty()
    } else if trimmed(list.last()).len() == 0 {
        present(list.drop_last())
    } else {
        present(list.drop_last()).push(trimmed(list.last()))
    }
}

/// The items of a text with commas between them.
pub open spec fn csv_items(s: Seq<char>) -> Seq<Seq<char>> {
    present(split_all(s, ','))
}

fn present_texts(list: &[String]) -> (items: Vec<String>)
    ensures
        texts(items@) == present(texts(list@)),
{
    let ghost all = texts(list@);
    let mut items: Vec<String> = Vec::new();
    let mut i: usize = 0;
    assert(texts(items@) =~= present(all.subrange(0, 0)));
    while i < list.len()
        invariant
            i <= list@.len(),
            all == texts(list@),
            texts(items@) == present(all.subrange(0, i as int)),
        decreases list.len() - i,
    {
        assert(all.subrange(0, i + 1).drop_last() =~= all.subrange(0, i as int));
        assert(all.subrange(0, i + 1).last() == list@[i as int]@);
        let item = trim(list[i].as_str());
        if !item.as_str().is_empty() {
            push_text(&mut items, item);
        }
        i = i + 1;
    }
    assert(all.subrange(0, i as int) =~= all);
    items
}

/// Splits a text at its commas into trimmed items, without empty ones.
pub fn split_csv(value: &str) -> (items: Vec<String>)
    ensures
        texts(items@) == csv_items(value@),
{
    present_texts(split(value, ',').as_slice())
}

/// Something that is fetched for an item.
#[derive(Clone, Copy, Debug, PartialEq, Eq, Structural)]
pub enum Artifact {
    /// The audio.
    Audio,
    /// The chapters.
    Chapter,
    /// The companion PDF.
    Pdf,
    /// The covers.
    Cover,
}

/// The word under which an artifact is recorded.
pub open spec fn artifact_word(artifact: Artifact) -> Seq<char> {
    match artifact {
        Artifact::Audio => "audio"@,
        Artifact::Chapter => "chapter"@,
        Artifact::Pdf => "pdf"@,
        Artifact::Cover => "cover"@,
    }
}

impl Artifact {
    /// The word under which the artifact is recorded.
    pub fn kind(self) -> (word: &'static str)
        ensures
            word@ == artifact_word(self),
    {
        match self {
            Artifact::Audio => "audio",
            Artifact::Chapter => "chapter",
            Artifact::Pdf => "pdf",
            Artifact::Cover => "cover",
        }
    }
}

/// A set of artifacts.
#[derive(Clone, Copy, Debug, PartialEq, Eq, Structural)]
pub struct ArtifactSet {
    /// Whether the audio is in it.
    pub audio: bool,
    /// Whether the chapters are in it.
    pub chapter: bool,
    /// Whether the PDF is in it.
    pub pdf: bool,
    /// Whether the covers are in it.
    pub cover: bool,
}

impl ArtifactSet {
    /// Whether the artifact is in the set.
    pub open spec fn has(self, artifact: Artifact) -> bool {
        match artifact {
            Artifact::Audio => self.audio,
            Artifact::Chapter => self.chapter,
            Artifact::Pdf => self.pdf,
            Artifact::Cover => self.cover,
        }
    }

    /// The set with one more artifact.
    pub open spec fn with(self, artifact: Artifact) -> ArtifactSet {
        ArtifactSet {
            audio: self.audio || artifact is Audio,
            chapter: self.chapter || artifact is Chapter,
            pdf: self.pdf || artifact is Pdf,
            cover: self.cover || artifact is Cover,
        }
    }

    /// The set of nothing.
    pub fn none() -> (set: ArtifactSet)
        ensures
            forall|artifact: Artifact| !set.has(artifact),
    {
        ArtifactSet { audio: false, chapter: false, pdf: false, cover: false }
    }

    /// The set of every artifact.
    pub fn all() -> (set: ArtifactSet)
        ensures
            forall|artifact: Artifact| set.has(artifact),
    {
        ArtifactSet { audio: true, chapter: true, pdf: true, cover: true }
    }

    /// Adds an artifact.
    pub fn insert(&mut self, artifact: Artifact)
        ensures
            *final(self) == old(self).with(artifact),
    {
        match artifact {
            Artifact::Audio => {
                self.audio = true;
            },
            Artifact::Chapter => {
                self.chapter = true;
            },
            Artifact::Pdf => {
                self.pdf = true;
            },
            Artifact::Cover => {
                self.cover = true;
            },
        }
    }

    /// Whether the artifact is in the set.
    pub fn contains(&self, artifact: Artifact) -> (yes: bool)
        ensures
            yes == self.has(artifact),
    {
        match artifact {
            Artifact::Audio => self.audio,
            Artifact::Chapter => self.chapter,
            Artifact::Pdf => self.pdf,
            Artifact::Cover => self.cover,
        }
    }

    /// Whether the set holds nothing.
    pub fn is_empty(&self) -> (empty: bool)
        ensures
            empty == (forall|artifact: Artifact| !self.has(artifact)),
    {
        let empty = !self.audio && !self.chapter && !self.pdf && !self.cover;
        proof {
            if !empty {
                assert(self.has(Artifact::Audio) || self.has(Artifact::Chapter) || self.has(
                    Artifact::Pdf,
                ) || self.has(Artifact::Cover));
            }
        }
        empty
    }
}

/// The set of nothing.
pub open spec fn no_artifacts() -> ArtifactSet {
    ArtifactSet { audio: false, chapter: false, pdf: false, cover: false }
}

/// The set after one more `--kind` word.
pub open spec fn with_kind(set: ArtifactSet, word: Seq<char>) -> Result<
    ArtifactSet,
    DownloadError<Seq<char>>,
> {
    if word == "all"@ {
        Ok(ArtifactSet { audio: true, chapter: true, pdf: true, cover: true })
    } else if word == "audio"@ {
        Ok(set.with(Artifact::Audio))
    } else if word == "chapter"@ {
        Ok(set.with(Artifact::Chapter))
    } else if word == "pdf"@ {
        Ok(set.with(Artifact::Pdf))
    } else if word == "cover"@ {
        Ok(set.with(Artifact::Cover))
    } else {
        Err(DownloadError::UnknownKind(word))
    }
}

/// The set after the words in turn, or the first fault.
pub open spec fn with_kinds(set: ArtifactSet, words: Seq<Seq<char>>) -> Result<
    ArtifactSet,
    DownloadError<Seq<char>>,
>
    decreases words.len(),
{
    if words.len() == 0 {
        Ok(set)
    } else {
        match with_kind(set, words[0]) {
            Err(error) => Err(error),
            Ok(more) => with_kinds(more, words.drop_first()),
        }
    }
}

/// The artifacts that a `--kind` list asks for.
pub open spec fn kinds_of(list: Seq<char>) -> Result<ArtifactSet, DownloadError<Seq<char>>> {
    match with_kinds(no_artifacts(), csv_items(list)) {
        Err(error) => Err(error),
        Ok(set) => if set == no_artifacts() {
            Err(DownloadError::NoKind)
        } else {
            Ok(set)
        },
    }
}

/// Reads a `--kind` list.
pub fn parse_kinds(list: &str) -> (set: Result<ArtifactSet, DownloadError<String>>)
    ensures
        match set {
            Ok(s) => kinds_of(list@) == Ok::<ArtifactSet, DownloadError<Seq<char>>>(s),
            Err(e) => kinds_of(list@) == Err::<ArtifactSet, DownloadError<Seq<char>>>(e@),
        },
{
    let words = split_csv(list);
    let ghost all = texts(words@);
    let mut set = ArtifactSet::none();
    let mut i: usize = 0;
    assert(!set.has(Artifact::Audio) && !set.has(Artifact::Chapter) && !set.has(Artifact::Pdf)
        && !set.has(Artifact::Cover));
    assert(all.subrange(0, all.len() as int) =~= all);
    while i < words.len()
        invariant
            i <= words@.len(),
            all == texts(words@),
            all == csv_items(list@),
            with_kinds(no_artifacts(), all) == with_kinds(
                set,
                all.subrange(i as int, all.len() as int),
            ),
        decreases words.len() - i,
    {
        let word = words[i].as_str();
        let ghost rest = all.subrange(i as int, all.len() as int);
        assert(rest[0] == word@);
        assert(rest.drop_first() =~= all.subrange(i + 1, all.len() as int));
        if same(word, "all") {
            set = ArtifactSet { audio: true, chapter: true, pdf: true, cover: true };
        } else if same(word, "audio") {
            set.insert(Artifact::Audio);
        } else if same(word, "chapter") {
            set.insert(Artifact::Chapter);
        } else if same(word, "pdf") {
            set.insert(Artifact::Pdf);
        } else if same(word, "cover") {
            set.insert(Artifact::Cover);
        } else {
            return Err(DownloadError::UnknownKind(String::from_str(word)));
        }
        i = i + 1;
    }
    if !set.audio && !set.chapter && !set.pdf && !set.cover {
        Err(DownloadError::NoKind)
    } else {
        Ok(set)
    }
}

/// Whether a text is a cover size: a positive number.
pub open spec fn is_cover_size(s: Seq<char>) -> bool {
    unsigned_value(s, u32::MAX as int) matches Some(n) && n > 0
}

/// The sizes with those of the list behind them, each once, or the first fault.
pub open spec fn sizes_from(done: Seq<Seq<char>>, list: Seq<Seq<char>>) -> Result<
    Seq<Seq<char>>,
    DownloadError<Seq<char>>,
>
    decreases list.len(),
{
    if list.len() == 0 {
        Ok(done)
    } else if !is_cover_size(list[0]) {
        Err(DownloadError::CoverSize(list[0]))
    } else if done.contains(list[0]) {
        sizes_from(done, list.drop_first())
    } else {
        sizes_from(done.push(list[0]), list.drop_first())
    }
}

/// The cover sizes that a list asks for.
pub open spec fn cover_sizes_of(list: Seq<Seq<char>>) -> Result<
    Seq<Seq<char>>,
    DownloadError<Seq<char>>,
> {
    match sizes_from(Seq::empty(), present(list)) {
        Err(error) => Err(error),
        Ok(sizes) => if sizes.len() == 0 {
            Err(DownloadError::NoCoverSize)
        } else {
            Ok(sizes)
        },
    }
}

/// Reads cover sizes: any positive number of pixels, each once.
pub fn parse_cover_sizes(sizes: &[String]) -> (result: Result<Vec<String>, DownloadError<String>>)
    ensures
        match result {
            Ok(list) => cover_sizes_of(texts(sizes@)) == Ok::<
                Seq<Seq<char>>,
                DownloadError<Seq<char>>,
            >(texts(list@)),
            Err(e) => cover_sizes_of(texts(sizes@)) == Err::<
                Seq<Seq<char>>,
                DownloadError<Seq<char>>,
            >(e@),
        },
{
    let items = present_texts(sizes);
    let ghost all = texts(items@);
    let mut done: Vec<String> = Vec::new();
    let mut i: usize = 0;
    assert(texts(done@) =~= Seq::<Seq<char>>::empty());
    assert(all.subrange(0, all.len() as int) =~= all);
    while i < items.len()
        invariant
            i <= items@.len(),
            all == texts(items@),
            all == present(texts(sizes@)),
            sizes_from(Seq::empty(), all) == sizes_from(
                texts(done@),
                all.subrange(i as int, all.len() as int),
            ),
        decreases items.len() - i,
    {
        let ghost rest = all.subrange(i as int, all.len() as int);
        assert(rest[0] == items@[i as int]@);
        assert(rest.drop_first() =~= all.subrange(i + 1, all.len() as int));
        let good = match parse_up_to(items[i].as_str(), u32::MAX as u64) {
            Some(n) => n > 0,
            None => false,
        };
        if !good {
            return Err(DownloadError::CoverSize(items[i].clone()));
        }
        add_text(&mut done, items[i].clone());
        i = i + 1;
    }
    if done.len() == 0 {
        Err(DownloadError::NoCoverSize)
    } else {
        Ok(done)
    }
}

/// How chapter titles are laid out.
#[derive(Clone, Copy, Debug, PartialEq, Eq, Structural)]
pub enum ChapterType {
    /// One level.
    Flat,
    /// Nested.
    Tree,
}

/// The layout that a word stands for.
pub open spec fn chapter_type_of(word: Seq<char>) -> Option<ChapterType> {
    if word == "flat"@ {
        Some(ChapterType::Flat)
    } else if word == "tree"@ {
        Some(ChapterType::Tree)
    } else {
        None
    }
}

/// The layouts with those of the list behind them, each once, or the first
/// fault. ASCII capitals count as small letters.
pub open spec fn types_from(done: Seq<ChapterType>, list: Seq<Seq<char>>) -> Result<
    Seq<ChapterType>,
    DownloadError<Seq<char>>,
>
    decreases list.len(),
{
    if list.len() == 0 {
        Ok(done)
    } else {
        match chapter_type_of(lowered(list[0])) {
            None => Err(DownloadError::ChapterType(lowered(list[0]))),
            Some(kind) => types_from(
                if done.contains(kind) {
                    done
                } else {
                    done.push(kind)
                },
                list.drop_first(),
            ),
        }
    }
}

/// The chapter layouts that a list asks for.
pub open spec fn chapter_types_of(list: Seq<Seq<char>>) -> Result<
    Seq<ChapterType>,
    DownloadError<Seq<char>>,
> {
    match types_from(Seq::empty(), present(list)) {
        Err(error) => Err(error),
        Ok(types) => if types.len() == 0 {
            Err(DownloadError::NoChapterType)
        } else {
            Ok(types)
        },
    }
}

fn holds_type(list: &Vec<ChapterType>, kind: ChapterType) -> (yes: bool)
    ensures
        yes == list@.contains(kind),
{
    let mut i: usize = 0;
    while i < list.len()
        invariant
            i <= list@.len(),
            forall|k: int| 0 <= k < i ==> list@[k] != kind,
        decreases list.len() - i,
    {
        if list[i] == kind {
            return true;
        }
        i = i + 1;
    }
    false
}

/// Reads chapter layouts, each once.
pub fn parse_chapter_types(spec_list: &[String]) -> (result: Result<
    Vec<ChapterType>,
    DownloadError<String>,
>)
    ensures
        match result {
            Ok(list) => chapter_types_of(texts(spec_list@)) == Ok::<
                Seq<ChapterType>,
                DownloadError<Seq<char>>,
            >(list@),
            Err(e) => chapter_types_of(texts(spec_list@)) == Err::<
                Seq<ChapterType>,
                DownloadError<Seq<char>>,
            >(e@),
        },
{
    let items = present_texts(spec_list);
    let ghost all = texts(items@);
    let mut done: Vec<ChapterType> = Vec::new();
    let mut i: usize = 0;
    assert(all.subrange(0, all.len() as int) =~= all);
    while i < items.len()
        invariant
            i <= items@.len(),
            all == texts(items@),
            all == present(texts(spec_list@)),
            types_from(Seq::empty(), all) == types_from(
                done@,
                all.subrange(i as int, all.len() as int),
            ),
        decreases items.len() - i,
    {
        let ghost rest = all.subrange(i as int, all.len() as int);
        assert(rest[0] == items@[i as int]@);
        assert(rest.drop_first() =~= all.subrange(i + 1, all.len() as int));
        let word = to_ascii_lower(items[i].as_str());
        let kind = if same(word.as_str(), "flat") {
            ChapterType::Flat
        } else if same(word.as_str(), "tree") {
            ChapterType::Tree
        } else {
            return Err(DownloadError::ChapterType(word));
        };
        if !holds_type(&done, kind) {
            done.push(kind);
        }
        i = i + 1;
    }
    if done.len() == 0 {
        Err(DownloadError::NoChapterType)
    } else {
        Ok(done)
    }
}

/// The list of an option: the items of the flag, else the settings, else one
/// built-in item.
pub open spec fn option_list(
    flag: Option<Seq<char>>,
    settings: Option<Seq<Seq<char>>>,
    built_in: Seq<char>,
) -> Seq<Seq<char>> {
    match flag {
        Some(value) => csv_items(value),
        None => match settings {
            Some(list) => list,
            None => seq![built_in],
        },
    }
}

fn resolve_list(flag: Option<&str>, settings: Option<Vec<String>>, built_in: &str) -> (list: Vec<
    String,
>)
    ensures
        texts(list@) == option_list(
            crate::text::opt_str(flag),
            match settings {
                Some(l) => Some(texts(l@)),
                None => None,
            },
            built_in@,
        ),
{
    match flag {
        Some(value) => split_csv(value),
        None => match settings {
            Some(list) => list,
            None => {
                let mut list: Vec<String> = Vec::new();
                push_text(&mut list, String::from_str(built_in));
                assert(texts(list@) =~= seq![built_in@]);
                list
            },
        },
    }
}

/// The cover sizes that a run asks for: the flag, else the settings, else 500.
pub fn resolve_cover_sizes(flag: Option<&str>, settings: Option<Vec<String>>) -> (list: Vec<String>)
    ensures
        texts(list@) == option_list(
            crate::text::opt_str(flag),
            match settings {
                Some(l) => Some(texts(l@)),
                None => None,
            },
            "500"@,
        ),
{
    resolve_list(flag, settings, "500")
}

/// The chapter layouts that a run asks for: the flag, else the settings, else
/// the nested one.
pub fn resolve_chapter_types(flag: Option<&str>, settings: Option<Vec<String>>) -> (list: Vec<
    String,
>)
    ensures
        texts(list@) == option_list(
            crate::text::opt_str(flag),
            match settings {
                Some(l) => Some(texts(l@)),
                None => None,
            },
            "tree"@,
        ),
{
    resolve_list(flag, settings, "tree")
}

/// What becomes of artifacts that are there already.
#[derive(Clone, Copy, Debug, PartialEq, Eq, Structural)]
pub enum OverwritePolicy {
    /// They are left.
    Skip,
    /// They are fetched again.
    Force,
}

/// What becomes of artifacts that are there already.
pub open spec fn policy_of(
    force: bool,
    relicense: bool,
    skip_existing: bool,
    settings: Option<OverwritePolicy>,
) -> OverwritePolicy {
    if force || relicense {
        OverwritePolicy::Force
    } else if skip_existing {
        OverwritePolicy::Skip
    } else {
        match settings {
            Some(configured) => configured,
            None => OverwritePolicy::Skip,
        }
    }
}

/// Decides the overwrite policy: the flags win, then the settings, then `Skip`.
/// A fresh license fetches again too.
pub fn overwrite_policy(
    force: bool,
    relicense: bool,
    skip_existing: bool,
    settings: Option<OverwritePolicy>,
) -> (policy: OverwritePolicy)
    ensures
        policy == policy_of(force, relicense, skip_existing, settings),
{
    if force || relicense {
        OverwritePolicy::Force
    } else if skip_existing {
        OverwritePolicy::Skip
    } else {
        match settings {
            Some(configured) => configured,
            None => OverwritePolicy::Skip,
        }
    }
}

/// The tool that decrypts.
#[derive(Clone, Copy, Debug, PartialEq, Eq, Structural)]
pub enum DecryptBackend {
    /// Whichever is there.
    Auto,
    /// aaxclean-cli.
    Aaxclean,
    /// ffmpeg.
    Ffmpeg,
}

/// What the command line says of a download run.
#[derive(Debug)]
pub struct DownloadFlags {
    /// Whether items were named by id.
    pub asin: bool,
    /// Whether items were named by title.
    pub title: bool,
    /// Whether all missing items are meant.
    pub missing: bool,
    /// Whether archived items count as missing.
    pub archived: bool,
    /// The quality word.
    pub quality: String,
    /// The codec word.
    pub codec: String,
    /// The artifact list.
    pub kind: String,
    /// Whether to decrypt.
    pub decrypt: bool,
    /// The decrypting tool.
    pub decrypt_backend: Option<String>,
    /// Whether to keep the source of a decrypted file.
    pub keep_source: bool,
    /// Whether to remove the source of a decrypted file.
    pub remove_source: bool,
    /// Whether to fetch again.
    pub force: bool,
    /// Whether to leave what is there.
    pub skip_existing: bool,
    /// Whether to ask for a fresh license.
    pub relicense: bool,
}

/// What the settings say of downloads.
#[derive(Clone, Copy, Debug)]
pub struct DownloadSettings {
    /// Whether to decrypt.
    pub decrypt: bool,
    /// Whether to keep the source of a decrypted file.
    pub keep_source: bool,
    /// The decrypting tool.
    pub backend: DecryptBackend,
    /// What becomes of artifacts that are there.
    pub overwrite: OverwritePolicy,
}

/// How a download run goes about its work.
#[derive(Clone, Copy, Debug, PartialEq, Eq, Structural)]
pub struct RunOptions {
    /// The quality that is asked for.
    pub quality: Quality,
    /// Whether the xHE codec is asked for.
    pub codec_xhe: bool,
    /// The artifacts; decrypting asks for the audio.
    pub targets: ArtifactSet,
    /// Whether to decrypt.
    pub decrypt: bool,
    /// Whether to keep the source of a decrypted file.
    pub keep_source: bool,
    /// The decrypting tool.
    pub backend: DecryptBackend,
    /// Whether to fetch again what is there.
    pub force: bool,
}

/// The backend that a word names; the settings decide for any other word.
pub open spec fn backend_of(word: Option<Seq<char>>, settings: Option<DownloadSettings>) -> DecryptBackend {
    if word == Some("aaxclean"@) {
        DecryptBackend::Aaxclean
    } else if word == Some("ffmpeg"@) {
        DecryptBackend::Ffmpeg
    } else if word == Some("auto"@) {
        DecryptBackend::Auto
    } else {
        match settings {
            Some(s) => s.backend,
            None => DecryptBackend::Auto,
        }
    }
}

/// The options of a run, or its first fault.
pub open spec fn options_of(flags: DownloadFlags, settings: Option<DownloadSettings>) -> Result<
    RunOptions,
    DownloadError<Seq<char>>,
> {
    if !flags.asin && !flags.title && !flags.missing {
        Err(DownloadError::NoSource)
    } else if flags.archived && !flags.missing {
        Err(DownloadError::ArchivedWithoutMissing)
    } else {
        match kinds_of(flags.kind@) {
            Err(error) => Err(error),
            Ok(kinds) => {
                let decrypt = flags.decrypt || (settings matches Some(s) && s.decrypt);
                Ok(
                    RunOptions {
                        quality: if flags.quality@ == "normal"@ {
                            Quality::Normal
                        } else {
                            Quality::High
                        },
                        codec_xhe: flags.codec@ == "xhe"@,
                        targets: if decrypt {
                            kinds.with(Artifact::Audio)
                        } else {
                            kinds
                        },
                        decrypt,
                        keep_source: if flags.keep_source {
                            true
                        } else if flags.remove_source {
                            false
                        } else {
                            match settings {
                                Some(s) => s.keep_source,
                                None => true,
                            }
                        },
                        backend: backend_of(crate::text::opt_text(flags.decrypt_backend), settings),
                        force: if flags.force || flags.relicense {
                            true
                        } else if flags.skip_existing {
                            false
                        } else {
                            settings matches Some(s) && s.overwrite is Force
                        },
                    },
                )
            },
        }
    }
}

/// Decides how a download run goes about its work.
pub fn run_options(flags: &DownloadFlags, settings: Option<DownloadSettings>) -> (result: Result<
    RunOptions,
    DownloadError<String>,
>)
    ensures
        match result {
            Ok(options) => options_of(*flags, settings) == Ok::<
                RunOptions,
                DownloadError<Seq<char>>,
            >(options),
            Err(e) => options_of(*flags, settings) == Err::<RunOptions, DownloadError<Seq<char>>>(
                e@,
            ),
        },
{
    if !flags.asin && !flags.title && !flags.missing {
        return Err(DownloadError::NoSource);
    }
    if flags.archived && !flags.missing {
        return Err(DownloadError::ArchivedWithoutMissing);
    }
    let mut targets = match parse_kinds(flags.kind.as_str()) {
        Ok(set) => set,
        Err(error) => {
            return Err(error);
        },
    };
    let decrypt = flags.decrypt || match settings {
        Some(s) => s.decrypt,
        None => false,
    };
    if decrypt {
        targets.insert(Artifact::Audio);
    }
    let keep_source = if flags.keep_source {
        true
    } else if flags.remove_source {
        false
    } else {
        match settings {
            Some(s) => s.keep_source,
            None => true,
        }
    };
    let configured = match settings {
        Some(s) => s.backend,
        None => DecryptBackend::Auto,
    };
    let backend = match &flags.decrypt_backend {
        Some(word) => {
            if same(word.as_str(), "aaxclean") {
                DecryptBackend::Aaxclean
            } else if same(word.as_str(), "ffmpeg") {
                DecryptBackend::Ffmpeg
            } else if same(word.as_str(), "auto") {
                DecryptBackend::Auto
            } else {
                configured
            }
        },
        None => configured,
    };
    let policy = overwrite_policy(
        flags.force,
        flags.relicense,
        flags.skip_existing,
        match settings {
            Some(s) => Some(s.overwrite),
            None => None,
        },
    );
    Ok(
        RunOptions {
            quality: if same(flags.quality.as_str(), "normal") {
                Quality::Normal
            } else {
                Quality::High
            },
            codec_xhe: same(flags.codec.as_str(), "xhe"),
            targets,
            decrypt,
            keep_source,
            backend,
            force: policy == OverwritePolicy::Force,
        },
    )
}

/// A run that decrypts fetches the audio, whatever else was asked for; and what
/// was asked for is fetched.
pub proof fn law_decrypt_asks_for_audio(flags: DownloadFlags, settings: Option<DownloadSettings>)
    ensures
        options_of(flags, settings) matches Ok(options) ==> {
            &&& options.decrypt ==> options.targets.has(Artifact::Audio)
            &&& kinds_of(flags.kind@) matches Ok(kinds) && forall|artifact: Artifact|
                kinds.has(artifact) ==> options.targets.has(artifact)
        },
{
}

/// What is said of archived titles that were passed over: as many as there are
/// with them more than without.
pub fn archived_note(with_archived: usize, without: usize) -> (note: Option<String>)
    ensures
        opt_text(note) == (if with_archived > without {
            Some(
                "skipped "@ + decimal(with_archived - without)
                    + " archived title(s) (as of the last library sync); use --include-archived to fetch them"@,
            )
        } else {
            None
        }),
{
    if with_archived > without {
        let skipped: usize = with_archived - without;
        Some(
            cat3(
                "skipped ",
                number(skipped as u64).as_str(),
                " archived title(s) (as of the last library sync); use --include-archived to fetch them",
            ),
        )
    } else {
        None
    }
}

/// What is listed is every item that is not blank, trimmed and in order.
pub proof fn law_listed_items_are_trimmed(a: Seq<Seq<char>>, item: Seq<char>, b: Seq<Seq<char>>)
    ensures
        present(a.push(item)) == if trimmed(item).len() == 0 {
            present(a)
        } else {
            present(a).push(trimmed(item))
        },
        present(a + b) == present(a) + present(b),
        present(Seq::empty()).len() == 0,
    decreases b.len(),
{
    assert(a.push(item).drop_last() =~= a);
    if b.len() == 0 {
        assert(a + b =~= a);
        assert(present(a) + present(b) =~= present(a));
    } else {
        assert((a + b).drop_last() =~= a + b.drop_last());
        law_listed_items_are_trimmed(a, item, b.drop_last());
        assert(present(a + b) =~= present(a) + present(b));
    }
}

/// A comma parts a list of items in two, of which each is read on its own.
pub proof fn law_commas_part_lists(a: Seq<char>, b: Seq<char>)
    ensures
        csv_items(a + seq![','] + b) == csv_items(a) + csv_items(b),
        !a.contains(',') && trimmed(a).len() > 0 ==> csv_items(a) == seq![trimmed(a)],
        !a.contains(',') && trimmed(a).len() == 0 ==> csv_items(a).len() == 0,
{
    crate::paths::lemma_split_concat(a, b, ',');
    law_listed_items_are_trimmed(split_all(a, ','), a, split_all(b, ','));
    if !a.contains(',') {
        assert forall|k: int| 0 <= k < a.len() implies a[k] != ',' by {
            assert(a.contains(a[k]));
        }
        crate::text::lemma_first_at_is(a, ',', a.len() as int);
        assert(split_all(a, ',') =~= Seq::<Seq<char>>::empty().push(a));
        law_listed_items_are_trimmed(Seq::empty(), a, Seq::empty());
        if trimmed(a).len() > 0 {
            assert(csv_items(a) =~= seq![trimmed(a)]);
        }
    }
}

/// Whether a word of a `--kind` asks for an artifact.
pub open spec fn asks_for(word: Seq<char>, artifact: Artifact) -> bool {
    word == "all"@ || word == artifact_word(artifact)
}

/// Whether a word can stand in a `--kind`.
pub open spec fn is_kind_word(word: Seq<char>) -> bool {
    exists|artifact: Artifact| asks_for(word, artifact)
}

proof fn lemma_words_differ()
    ensures
        forall|a: Artifact, b: Artifact|
            #[trigger] artifact_word(a) == #[trigger] artifact_word(b) ==> a == b,
        forall|a: Artifact| #[trigger] artifact_word(a) != "all"@,
{
    reveal_strlit("audio");
    reveal_strlit("cover");
    reveal_strlit("chapter");
    reveal_strlit("pdf");
    reveal_strlit("all");
    assert("audio"@[0] == 'a');
    assert("cover"@[0] == 'c');
    assert("pdf"@[0] == 'p');
    assert("all"@[0] == 'a');
    assert("all"@.len() == 3);
    assert("pdf"@.len() == 3);
    assert("audio"@.len() == 5);
    assert("chapter"@.len() == 7);
}

proof fn lemma_with_kinds(set: ArtifactSet, words: Seq<Seq<char>>)
    ensures
        with_kinds(set, words) is Ok <==> forall|i: int|
            0 <= i < words.len() ==> is_kind_word(#[trigger] words[i]),
        with_kinds(set, words) matches Ok(all) ==> forall|artifact: Artifact|
            #![trigger all.has(artifact)]
            all.has(artifact) <==> set.has(artifact) || exists|i: int|
                0 <= i < words.len() && asks_for(#[trigger] words[i], artifact),
        with_kinds(set, words) matches Err(error) ==> exists|i: int|
            0 <= i < words.len() && !is_kind_word(#[trigger] words[i]) && error
                == DownloadError::UnknownKind(words[i]),
    decreases words.len(),
{
    lemma_words_differ();
    if words.len() > 0 {
        let word = words[0];
        let rest = words.drop_first();
        assert(asks_for("all"@, Artifact::Audio));
        assert(asks_for("audio"@, Artifact::Audio));
        assert(asks_for("chapter"@, Artifact::Chapter));
        assert(asks_for("pdf"@, Artifact::Pdf));
        assert(asks_for("cover"@, Artifact::Cover));
        assert forall|k: int| 0 <= k < rest.len() implies (#[trigger] rest[k]) == words[k + 1] by {}
        assert forall|k: int| 0 < k < words.len() implies (#[trigger] words[k]) == rest[k - 1] by {}
        assert(with_kind(set, word) is Ok <==> is_kind_word(word));
        if let Ok(more) = with_kind(set, word) {
            lemma_with_kinds(more, rest);
            assert forall|artifact: Artifact|
                #![trigger more.has(artifact)]
                more.has(artifact) <==> set.has(artifact) || asks_for(word, artifact) by {
                match artifact {
                    Artifact::Audio => {},
                    Artifact::Chapter => {},
                    Artifact::Pdf => {},
                    Artifact::Cover => {},
                }
            }
            if let Ok(all) = with_kinds(set, words) {
                assert forall|artifact: Artifact|
                    #![trigger all.has(artifact)]
                    all.has(artifact) <==> set.has(artifact) || exists|i: int|
                        0 <= i < words.len() && asks_for(#[trigger] words[i], artifact) by {
                    assert(more.has(artifact) <==> set.has(artifact) || asks_for(word, artifact));
                    if exists|i: int| 0 <= i < rest.len() && asks_for(#[trigger] rest[i], artifact) {
                        let i = choose|i: int|
                            0 <= i < rest.len() && asks_for(#[trigger] rest[i], artifact);
                        assert(asks_for(words[i + 1], artifact));
                    }
                    if exists|i: int|
                        0 <= i < words.len() && asks_for(#[trigger] words[i], artifact) {
                        let i = choose|i: int|
                            0 <= i < words.len() && asks_for(#[trigger] words[i], artifact);
                        if i > 0 {
                            assert(asks_for(rest[i - 1], artifact));
                        }
                    }
                }
            }
            if let Err(error) = with_kinds(set, words) {
                let i = choose|i: int|
                    0 <= i < rest.len() && !is_kind_word(#[trigger] rest[i]) && error
                        == DownloadError::UnknownKind(rest[i]);
                assert(words[i + 1] == rest[i]);
            }
        } else {
            assert(words[0] == word);
        }
    }
}

/// A `--kind` asks for an artifact exactly where one of its items names it, or names
/// all of them. It is refused exactly where an item names nothing, or where it
/// has no items.
pub proof fn law_kinds_ask_for_what_they_name(list: Seq<char>, artifact: Artifact)
    ensures
        ({
            let items = csv_items(list);
            &&& kinds_of(list) is Ok <==> items.len() > 0 && forall|i: int|
                0 <= i < items.len() ==> is_kind_word(#[trigger] items[i])
            &&& kinds_of(list) matches Ok(set) ==> (set.has(artifact) <==> exists|i: int|
                0 <= i < items.len() && asks_for(#[trigger] items[i], artifact))
            &&& items.len() == 0 ==> kinds_of(list) == Err::<
                ArtifactSet,
                DownloadError<Seq<char>>,
            >(DownloadError::NoKind)
        }),
{
    let items = csv_items(list);
    lemma_with_kinds(no_artifacts(), items);
    if let Ok(set) = with_kinds(no_artifacts(), items) {
        if items.len() > 0 {
            assert(is_kind_word(items[0]));
            let named = choose|a: Artifact| asks_for(items[0], a);
            assert(set.has(named));
        } else if set != no_artifacts() {
            assert(set.has(Artifact::Audio) || set.has(Artifact::Chapter) || set.has(Artifact::Pdf)
                || set.has(Artifact::Cover));
        }
    }
}

/// A set with one more artifact has that one and those that it had.
pub proof fn law_sets_grow_by_one(set: ArtifactSet, added: Artifact, artifact: Artifact)
    ensures
        set.with(added).has(artifact) <==> set.has(artifact) || artifact == added,
        !no_artifacts().has(artifact),
{
}

proof fn lemma_sizes(done: Seq<Seq<char>>, list: Seq<Seq<char>>)
    ensures
        sizes_from(done, list) is Ok <==> forall|i: int|
            0 <= i < list.len() ==> is_cover_size(#[trigger] list[i]),
        sizes_from(done, list) matches Ok(all) ==> all == crate::lists::unique_from(done, list),
    decreases list.len(),
{
    if list.len() > 0 {
        let rest = list.drop_first();
        assert forall|k: int| 0 <= k < rest.len() implies (#[trigger] rest[k]) == list[k + 1] by {}
        assert forall|k: int| 0 < k < list.len() implies (#[trigger] list[k]) == rest[k - 1] by {}
        lemma_sizes(done, rest);
        lemma_sizes(done.push(list[0]), rest);
    }
}

/// Every cover size that is asked for is fetched, once: the items that are not
/// blank, trimmed. They are refused where one of them is no positive number, or
/// where there is none.
pub proof fn law_cover_sizes_are_what_is_asked_for(list: Seq<Seq<char>>, size: Seq<char>)
    ensures
        cover_sizes_of(list) is Ok <==> present(list).len() > 0 && forall|i: int|
            0 <= i < present(list).len() ==> (unsigned_value(
                #[trigger] present(list)[i],
                u32::MAX as int,
            ) matches Some(n) && n > 0),
        cover_sizes_of(list) matches Ok(sizes) ==> sizes.no_duplicates() && (sizes.contains(size)
            <==> present(list).contains(size)),
{
    let items = present(list);
    lemma_sizes(Seq::empty(), items);
    crate::lists::lemma_unique_from(Seq::<Seq<char>>::empty(), items);
    if items.len() > 0 && sizes_from(Seq::empty(), items) is Ok {
        assert(items.contains(items[0]));
        let sizes = sizes_from(Seq::empty(), items)->Ok_0;
        assert(sizes.contains(items[0]));
    }
    if sizes_from(Seq::empty(), items) is Ok && items.len() == 0 {
        let sizes = sizes_from(Seq::empty(), items)->Ok_0;
        if sizes.len() > 0 {
            assert(sizes.contains(sizes[0]));
        }
    }
    assert forall|i: int| 0 <= i < items.len() implies (is_cover_size(#[trigger] items[i]) <==> (
    unsigned_value(items[i], u32::MAX as int) matches Some(n) && n > 0)) by {}
}

proof fn lemma_types(done: Seq<ChapterType>, list: Seq<Seq<char>>, kind: ChapterType)
    ensures
        types_from(done, list) is Ok <==> forall|i: int|
            0 <= i < list.len() ==> chapter_type_of(lowered(#[trigger] list[i])) is Some,
        types_from(done, list) matches Ok(all) ==> (all.contains(kind) <==> done.contains(kind)
            || exists|i: int|
            0 <= i < list.len() && chapter_type_of(lowered(#[trigger] list[i])) == Some(kind)),
    decreases list.len(),
{
    if list.len() > 0 {
        let rest = list.drop_first();
        assert forall|k: int| 0 <= k < rest.len() implies (#[trigger] rest[k]) == list[k + 1] by {}
        assert forall|k: int| 0 < k < list.len() implies (#[trigger] list[k]) == rest[k - 1] by {}
        if let Some(found) = chapter_type_of(lowered(list[0])) {
            let more = if done.contains(found) {
                done
            } else {
                done.push(found)
            };
            lemma_types(more, rest, kind);
            assert(more.contains(kind) <==> done.contains(kind) || kind == found) by {
                if !done.contains(found) {
                    assert(more[done.len() as int] == found);
                    if done.contains(kind) {
                        let k = choose|k: int| 0 <= k < done.len() && done[k] == kind;
                        assert(more[k] == kind);
                    }
                }
            }
            if exists|i: int|
                0 <= i < rest.len() && chapter_type_of(lowered(#[trigger] rest[i])) == Some(kind) {
                let i = choose|i: int|
                    0 <= i < rest.len() && chapter_type_of(lowered(#[trigger] rest[i])) == Some(kind);
                assert(chapter_type_of(lowered(list[i + 1])) == Some(kind));
            }
            if exists|i: int|
                0 <= i < list.len() && chapter_type_of(lowered(#[trigger] list[i])) == Some(kind) {
                let i = choose|i: int|
                    0 <= i < list.len() && chapter_type_of(lowered(#[trigger] list[i])) == Some(kind);
                if i > 0 {
                    assert(chapter_type_of(lowered(rest[i - 1])) == Some(kind));
                }
            }
        }
    }
}

/// Chapters are written in each layout that an item names, whatever the case of its
/// letters; an item that names none is refused, and so is a list without items.
pub proof fn law_chapter_types_are_what_is_asked_for(list: Seq<Seq<char>>)
    ensures
        ({
            let items = present(list);
            &&& chapter_types_of(list) is Ok <==> items.len() > 0 && forall|i: int|
                0 <= i < items.len() ==> lowered(#[trigger] items[i]) == "flat"@ || lowered(
                    items[i],
                ) == "tree"@
            &&& chapter_types_of(list) matches Ok(types) ==> {
                &&& types.contains(ChapterType::Flat) <==> exists|i: int|
                    0 <= i < items.len() && lowered(#[trigger] items[i]) == "flat"@
                &&& types.contains(ChapterType::Tree) <==> exists|i: int|
                    0 <= i < items.len() && lowered(#[trigger] items[i]) == "tree"@
            }
        }),
{
    let items = present(list);
    reveal_strlit("flat");
    reveal_strlit("tree");
    assert("flat"@[0] == 'f');
    assert("tree"@[0] == 't');
    lemma_types(Seq::empty(), items, ChapterType::Flat);
    lemma_types(Seq::empty(), items, ChapterType::Tree);
    assert forall|i: int| 0 <= i < items.len() implies (chapter_type_of(
        lowered(#[trigger] items[i]),
    ) == Some(ChapterType::Flat) <==> lowered(items[i]) == "flat"@) && (chapter_type_of(
        lowered(items[i]),
    ) == Some(ChapterType::Tree) <==> lowered(items[i]) == "tree"@) by {}
    if types_from(Seq::empty(), items) is Ok {
        let types = types_from(Seq::empty(), items)->Ok_0;
        if items.len() > 0 {
            assert(chapter_type_of(lowered(items[0])) is Some);
            if lowered(items[0]) == "flat"@ {
                assert(types.contains(ChapterType::Flat));
            } else {
                assert(types.contains(ChapterType::Tree));
            }
        }
    }
}

/// A flag wins over the settings, and the settings over what is built in.
pub proof fn law_flags_win_over_settings(
    flag: Seq<char>,
    settings: Seq<Seq<char>>,
    other: Option<Seq<Seq<char>>>,
    built_in: Seq<char>,
)
    ensures
        option_list(Some(flag), other, built_in) == csv_items(flag),
        option_list(None, Some(settings), built_in) == settings,
        option_list(None, None, built_in) == seq![built_in],
{
}

/// The options of a run are those of the flags where they say something, and else
/// those of the settings: nothing is decrypted, forced or removed that neither
/// asks for, and the artifacts are those of the kinds, with the audio where it
/// is decrypted.
pub proof fn law_runs_follow_flags_and_settings(
    flags: DownloadFlags,
    settings: Option<DownloadSettings>,
    options: RunOptions,
    artifact: Artifact,
)
    requires
        options_of(flags, settings) == Ok::<RunOptions, DownloadError<Seq<char>>>(options),
    ensures
        flags.asin || flags.title || flags.missing,
        flags.archived ==> flags.missing,
        kinds_of(flags.kind@) is Ok,
        options.targets.has(artifact) <==> kinds_of(flags.kind@)->Ok_0.has(artifact) || (
        options.decrypt && artifact is Audio),
        options.decrypt <==> flags.decrypt || (settings is Some && settings->Some_0.decrypt),
        options.quality is Normal <==> flags.quality@ == "normal"@,
        options.codec_xhe <==> flags.codec@ == "xhe"@,
        flags.keep_source ==> options.keep_source,
        flags.remove_source && !flags.keep_source ==> !options.keep_source,
        !flags.keep_source && !flags.remove_source ==> options.keep_source == (settings is None
            || settings->Some_0.keep_source),
        flags.force || flags.relicense ==> options.force,
        flags.skip_existing && !flags.force && !flags.relicense ==> !options.force,
        !flags.force && !flags.relicense && !flags.skip_existing ==> options.force == (settings
            is Some && settings->Some_0.overwrite is Force),
        flags.decrypt_backend is None ==> options.backend == (match settings {
            Some(s) => s.backend,
            None => DecryptBackend::Auto,
        }),
        flags.decrypt_backend matches Some(word) ==> {
            &&& word@ == "ffmpeg"@ ==> options.backend is Ffmpeg
            &&& word@ == "aaxclean"@ ==> options.backend is Aaxclean
            &&& word@ == "auto"@ ==> options.backend is Auto
        },
{
    reveal_strlit("ffmpeg");
    reveal_strlit("aaxclean");
    reveal_strlit("auto");
    assert("ffmpeg"@.len() == 6);
    assert("aaxclean"@.len() == 8);
    assert("auto"@.len() == 4);
}

/// A run is refused where nothing says what to download, where archived titles are
/// asked for without asking for the missing ones, and where its kinds are; and
/// nowhere else.
pub proof fn law_runs_are_refused_for_cause(
    flags: DownloadFlags,
    settings: Option<DownloadSettings>,
)
    ensures
        options_of(flags, settings) is Ok <==> (flags.asin || flags.title || flags.missing) && (
        flags.archived ==> flags.missing) && kinds_of(flags.kind@) is Ok,
        !flags.asin && !flags.title && !flags.missing ==> options_of(flags, settings) == Err::<
            RunOptions,
            DownloadError<Seq<char>>,
        >(DownloadError::NoSource),
        (flags.asin || flags.title) && flags.archived && !flags.missing ==> options_of(
            flags,
            settings,
        ) == Err::<RunOptions, DownloadError<Seq<char>>>(DownloadError::ArchivedWithoutMissing),
{
}

/// A flag decides over the settings what becomes of artifacts that are there, and to
/// fetch again wins over to skip; without either they are kept unless the settings
/// say otherwise.
pub proof fn law_existing_artifacts_are_kept_unless_asked(
    force: bool,
    relicense: bool,
    skip_existing: bool,
    settings: Option<OverwritePolicy>,
)
    ensures
        force || relicense ==> policy_of(force, relicense, skip_existing, settings) is Force,
        !force && !relicense && skip_existing ==> policy_of(
            force,
            relicense,
            skip_existing,
            settings,
        ) is Skip,
        !force && !relicense && !skip_existing ==> (policy_of(
            force,
            relicense,
            skip_existing,
            settings,
        ) is Force <==> settings == Some(OverwritePolicy::Force)),
{
}

/// A comma between two kinds asks for what each of them asks for.
pub proof fn law_kinds_are_asked_for_together(a: Seq<char>, b: Seq<char>, artifact: Artifact)
    requires
        kinds_of(a) is Ok,
        kinds_of(b) is Ok,
    ensures
        kinds_of(a + seq![','] + b) is Ok,
        kinds_of(a + seq![','] + b)->Ok_0.has(artifact) <==> kinds_of(a)->Ok_0.has(artifact)
            || kinds_of(b)->Ok_0.has(artifact),
{
    let x = csv_items(a);
    let y = csv_items(b);
    let both = csv_items(a + seq![','] + b);
    law_commas_part_lists(a, b);
    law_kinds_ask_for_what_they_name(a, artifact);
    law_kinds_ask_for_what_they_name(b, artifact);
    law_kinds_ask_for_what_they_name(a + seq![','] + b, artifact);
    assert forall|i: int| 0 <= i < both.len() implies is_kind_word(#[trigger] both[i]) by {
        if i < x.len() {
            assert(is_kind_word(x[i]));
        } else {
            assert(is_kind_word(y[i - x.len()]));
        }
    }
    if exists|i: int| 0 <= i < x.len() && asks_for(#[trigger] x[i], artifact) {
        let i = choose|i: int| 0 <= i < x.len() && asks_for(#[trigger] x[i], artifact);
        assert(asks_for(both[i], artifact));
    }
    if exists|i: int| 0 <= i < y.len() && asks_for(#[trigger] y[i], artifact) {
        let i = choose|i: int| 0 <= i < y.len() && asks_for(#[trigger] y[i], artifact);
        assert(asks_for(both[x.len() + i], artifact));
    }
    if exists|i: int| 0 <= i < both.len() && asks_for(#[trigger] both[i], artifact) {
        let i = choose|i: int| 0 <= i < both.len() && asks_for(#[trigger] both[i], artifact);
        if i < x.len() {
            assert(asks_for(x[i], artifact));
        } else {
            assert(asks_for(y[i - x.len()], artifact));
        }
    }
}

} // verus!
