//! Moving downloaded files to another naming: where each file goes, which moves
//! are safe, and what is made of their outcomes.

use vstd::prelude::*;
use vstd::string::StringExecFns;
use crate::lists::push_text;
use crate::paths::absolute;
use crate::paths::components;
use crate::paths::join_path;
use crate::paths::joined_path;
use crate::paths::is_name;
use crate::paths::lemma_end_of_joined;
use crate::paths::lemma_name_alone;
use crate::paths::lemma_rest_is_named;
use crate::paths::lemma_rest_of_joined;
use crate::paths::lemma_parent_is_shorter;
use crate::paths::lies_within;
use crate::paths::parent;
use crate::paths::parent_of;
use crate::paths::rest_below;
use crate::paths::same_path;
use crate::paths::sidecar_of;
use crate::paths::sidecar_path;
use crate::paths::starts_named;
use crate::paths::strip_prefix;
use crate::paths::within;
use crate::text::cat2;
use crate::text::cat4;
use crate::text::chars_of;
use crate::text::decimal;
use crate::text::find_last;
use crate::text::last_at;
use crate::text::lemma_first_at;
use crate::text::lemma_first_at_is;
use crate::text::number;
use crate::text::opt_pair;
use crate::text::opt_str;
use crate::text::opt_text;
use crate::text::same;
use crate::text::slice_text;
use crate::text::starts;
use crate::text::starts_with;
use crate::text::texts;
use crate::text_map::pairs_of;
use crate::paths::law_joined_lies_within;

verus! {

/// The folder of files that the library has no document for.
pub const EXTERNAL_DIR: &'static str = "__external__";

/// What keeps files from being moved.
#[derive(Clone, Copy, Debug, PartialEq, Eq, Structural)]
pub enum ReorgError {
    /// The custom mode needs a template.
    TemplateMissing,
    /// A template goes with the custom mode only.
    TemplateWithMode,
    /// Several files would get the same path.
    Collisions(usize),
    /// Some files were not moved, or not wholly.
    Failed {
        /// How many.
        failed: usize,
        /// Of how many.
        total: usize,
        /// Whether files were copied.
        copy: bool,
    },
}

impl ReorgError {
    /// The words that tell the user of the fault.
    pub fn message(&self) -> (text: String)
        ensures
            text@ == match *self {
                ReorgError::TemplateMissing =>
                    "--filename-mode custom requires --filename-template"@,
                ReorgError::TemplateWithMode =>
                    "--filename-template is only valid with --filename-mode custom (or omit --filename-mode)"@,
                ReorgError::Collisions(n) => decimal(n as int)
                    + " destination(s) would collide — refusing (disambiguate the template)"@,
                ReorgError::Failed { failed, total, copy } => decimal(failed as int) + " of "@
                    + decimal(total as int) + (if copy {
                    " file(s) did not fully copy"@
                } else {
                    " file(s) did not fully move"@
                }),
            },
    {
        match self {
            ReorgError::TemplateMissing => String::from_str(
                "--filename-mode custom requires --filename-template",
            ),
            ReorgError::TemplateWithMode => String::from_str(
                "--filename-template is only valid with --filename-mode custom (or omit --filename-mode)",
            ),
            ReorgError::Collisions(n) => cat2(
                number(*n as u64).as_str(),
                " destination(s) would collide — refusing (disambiguate the template)",
            ),
            ReorgError::Failed { failed, total, copy } => cat4(
                number(*failed as u64).as_str(),
                " of ",
                number(*total as u64).as_str(),
                if *copy {
                    " file(s) did not fully copy"
                } else {
                    " file(s) did not fully move"
                },
            ),
        }
    }
}

/// Where a file goes that the library has no document for, by the rest of its path
/// below the tree: the folder of such files in front of the rest is not repeated.
pub open spec fn external_path(rest: Seq<char>, target: Seq<char>) -> Seq<char> {
    let inner = match rest_below(rest, EXTERNAL_DIR@) {
        Some(inner) => inner,
        None => rest,
    };
    joined_path(joined_path(target, EXTERNAL_DIR@), inner)
}

/// Where a file goes that the library has no document for: its name cannot be
/// found anew, so it keeps its place in the tree, in the folder of such files,
/// and only the root of the tree changes. Nothing for a file outside the tree,
/// which stays.
pub open spec fn external(file: Seq<char>, current: Seq<char>, target: Seq<char>) -> Option<
    Seq<char>,
> {
    match rest_below(file, current) {
        Some(rest) => Some(external_path(rest, target)),
        None => None,
    }
}

/// Decides where a file goes that the library has no document for.
pub fn external_target(file_path: &str, current_dir: &str, target_dir: &str) -> (target: Option<
    String,
>)
    ensures
        opt_text(target) == external(file_path@, current_dir@, target_dir@),
{
    let rest = match strip_prefix(file_path, current_dir) {
        Some(rest) => rest,
        None => {
            return None;
        },
    };
    let inner = match strip_prefix(rest.as_str(), EXTERNAL_DIR) {
        Some(inner) => inner,
        None => rest,
    };
    let folder = join_path(target_dir, EXTERNAL_DIR);
    Some(join_path(folder.as_str(), inner.as_str()))
}

proof fn lemma_external_is_a_name()
    ensures
        is_name(EXTERNAL_DIR@),
        EXTERNAL_DIR@.last() != '/',
{
    reveal_strlit("__external__");
    assert(EXTERNAL_DIR@.len() == 12);
    assert(seq!['.'].len() == 1);
    assert forall|k: int| 0 <= k < EXTERNAL_DIR@.len() implies EXTERNAL_DIR@[k] != '/' by {}
}

/// A file that was put into the folder of unknown files stays where it is when
/// it is looked at again: the folder never nests. Where the directory that the
/// file comes out of is the empty one, its path has to start with a name, or it
/// is not put into the folder.
pub proof fn law_external_never_nests(file: Seq<char>, current: Seq<char>, target: Seq<char>)
    requires
        external(file, current, target) is Some,
        current.len() > 0 || components(file).len() == 0 || is_name(components(file)[0]),
    ensures
        external(external(file, current, target)->Some_0, target, target) == external(
            file,
            current,
            target,
        ),
{
    reveal_strlit("/");
    assert("/"@ =~= seq!['/']);
    let name = EXTERNAL_DIR@;
    let rest = rest_below(file, current)->Some_0;
    lemma_external_is_a_name();
    lemma_rest_is_named(file, current);
    let inner = match rest_below(rest, name) {
        Some(inner) => inner,
        None => rest,
    };
    if rest_below(rest, name) is Some {
        lemma_rest_is_named(rest, name);
    }
    lemma_first_at(inner, '/');
    assert(!absolute(inner));
    let tail = name + seq!['/'] + inner;
    let once = external(file, current, target)->Some_0;
    assert(once =~= joined_path(target, tail));
    lemma_name_alone(name);
    assert(starts_named(tail)) by {
        assert forall|k: int| 0 <= k < name.len() implies tail[k] != '/' by {
            assert(name.contains(name[k]));
            assert(tail[k] == name[k]);
        }
        lemma_first_at_is(tail, '/', name.len() as int);
        assert(tail.subrange(0, name.len() as int) =~= name);
    }
    lemma_rest_of_joined(target, tail);
    lemma_end_of_joined(name, inner);
    if inner.len() > 0 {
        lemma_rest_of_joined(name, inner);
        assert(joined_path(name, inner) =~= tail);
    } else {
        assert(inner =~= Seq::<char>::empty());
    }
}

/// How files are named.
#[derive(Clone, Copy, Debug, PartialEq, Eq, Structural)]
pub enum FilenameMode {
    /// By title, in ASCII.
    Ascii,
    /// By title.
    Unicode,
    /// By id and title, in ASCII.
    AsinAscii,
    /// By id and title.
    AsinUnicode,
    /// By a template.
    Custom,
}

/// The mode that a word names; the first one for any other word.
pub open spec fn mode_of(word: Seq<char>) -> FilenameMode {
    if word == "unicode"@ {
        FilenameMode::Unicode
    } else if word == "asin_ascii"@ {
        FilenameMode::AsinAscii
    } else if word == "asin_unicode"@ {
        FilenameMode::AsinUnicode
    } else if word == "custom"@ {
        FilenameMode::Custom
    } else {
        FilenameMode::Ascii
    }
}

/// Reads the word for a mode.
pub fn filename_mode_from_str(value: &str) -> (mode: FilenameMode)
    ensures
        mode == mode_of(value@),
{
    if same(value, "unicode") {
        FilenameMode::Unicode
    } else if same(value, "asin_ascii") {
        FilenameMode::AsinAscii
    } else if same(value, "asin_unicode") {
        FilenameMode::AsinUnicode
    } else if same(value, "custom") {
        FilenameMode::Custom
    } else {
        FilenameMode::Ascii
    }
}

/// The path of a download under its new name, with the path that it has; nothing
/// where they are the same.
pub open spec fn rename(
    base: Seq<char>,
    suffix: Seq<char>,
    file: Seq<char>,
    target: Seq<char>,
) -> Option<(Seq<char>, Seq<char>)> {
    let new = joined_path(target, base + suffix);
    if components(file) == components(new) {
        None
    } else {
        Some((file, new))
    }
}

/// Plans the move of a download: `base` is the name that the item has now, and
/// `suffix` what sets this file of it apart. Any change of the naming shows
/// here as a new path.
pub fn planned_paths(base: &str, suffix: &str, file_path: &str, target_dir: &str) -> (paths: Option<
    (String, String),
>)
    ensures
        opt_pair(paths) == rename(base@, suffix@, file_path@, target_dir@),
{
    let new = join_path(target_dir, cat2(base, suffix).as_str());
    if same_path(file_path, new.as_str()) {
        None
    } else {
        Some((String::from_str(file_path), new))
    }
}

/// The naming that files are moved to, and the settings that say so.
#[derive(Debug)]
pub struct NamingTarget {
    /// The mode.
    pub mode: FilenameMode,
    /// The template of the custom mode.
    pub template: Option<String>,
    /// Settings to store, key and value.
    pub sets: Vec<(String, String)>,
    /// Settings to drop.
    pub unsets: Vec<String>,
}

/// The key of a setting of a bundle.
pub open spec fn setting_key(bundle: Seq<char>, name: Seq<char>) -> Seq<char> {
    "settings."@ + bundle + "."@ + name
}

fn make_key(bundle: &str, name: &str) -> (key: String)
    ensures
        key@ == setting_key(bundle@, name@),
{
    cat4("settings.", bundle, ".", name)
}

/// The mode and template that the flags ask for, in place of the current ones.
pub open spec fn naming_of(
    mode: Option<Seq<char>>,
    template: Option<Seq<char>>,
    current: (FilenameMode, Option<Seq<char>>),
) -> Result<(FilenameMode, Option<Seq<char>>), ReorgError> {
    match (mode, template) {
        (None, None) => Ok(current),
        (None, Some(t)) => Ok((FilenameMode::Custom, Some(t))),
        (Some(m), Some(t)) => if m == "custom"@ {
            Ok((FilenameMode::Custom, Some(t)))
        } else {
            Err(ReorgError::TemplateWithMode)
        },
        (Some(m), None) => if m == "custom"@ {
            Err(ReorgError::TemplateMissing)
        } else {
            Ok((mode_of(m), None))
        },
    }
}

/// The settings that the flags store.
pub open spec fn naming_sets(
    mode: Option<Seq<char>>,
    template: Option<Seq<char>>,
    dir: Option<Seq<char>>,
    bundle: Seq<char>,
) -> Seq<(Seq<char>, Seq<char>)> {
    (match (mode, template) {
        (None, None) => Seq::empty(),
        (_, Some(t)) => seq![
            (setting_key(bundle, "filename_mode"@), "custom"@),
            (setting_key(bundle, "filename_template"@), t),
        ],
        (Some(m), None) => seq![(setting_key(bundle, "filename_mode"@), m)],
    }) + (match dir {
        Some(d) => seq![(setting_key(bundle, "download_dir"@), d)],
        None => Seq::empty(),
    })
}

/// The settings that the flags drop: a template that a fixed mode leaves behind
/// in the bundle itself.
pub open spec fn naming_unsets(
    mode: Option<Seq<char>>,
    template: Option<Seq<char>>,
    bundle: Seq<char>,
    has_template: bool,
) -> Seq<Seq<char>> {
    if mode is Some && template is None && has_template {
        seq![setting_key(bundle, "filename_template"@)]
    } else {
        Seq::empty()
    }
}

/// Decides the naming that files are moved to, and which settings change with
/// it.
pub fn naming_target(
    mode_flag: Option<&str>,
    template_flag: Option<&str>,
    download_dir: Option<&str>,
    current_mode: FilenameMode,
    current_template: Option<String>,
    bundle: &str,
    bundle_has_template: bool,
) -> (result: Result<NamingTarget, ReorgError>)
    ensures
        match naming_of(
            opt_str(mode_flag),
            opt_str(template_flag),
            (current_mode, opt_text(current_template)),
        ) {
            Err(fault) => result == Err::<NamingTarget, ReorgError>(fault),
            Ok((mode, template)) => {
                &&& result matches Ok(target)
                &&& target.mode == mode
                &&& opt_text(target.template) == template
                &&& pairs_of(target.sets@) == naming_sets(
                    opt_str(mode_flag),
                    opt_str(template_flag),
                    opt_str(download_dir),
                    bundle@,
                )
                &&& texts(target.unsets@) == naming_unsets(
                    opt_str(mode_flag),
                    opt_str(template_flag),
                    bundle@,
                    bundle_has_template,
                )
            },
        },
{
    let mut sets: Vec<(String, String)> = Vec::new();
    let mut unsets: Vec<String> = Vec::new();
    let mode: FilenameMode;
    let template: Option<String>;
    match (mode_flag, template_flag) {
        (None, None) => {
            mode = current_mode;
            template = current_template;
        },
        (Some(word), None) => {
            if same(word, "custom") {
                return Err(ReorgError::TemplateMissing);
            }
            sets.push((make_key(bundle, "filename_mode"), String::from_str(word)));
            if bundle_has_template {
                unsets.push(make_key(bundle, "filename_template"));
            }
            mode = filename_mode_from_str(word);
            template = None;
        },
        (word, Some(text)) => {
            if let Some(w) = word {
                if !same(w, "custom") {
                    return Err(ReorgError::TemplateWithMode);
                }
            }
            sets.push((make_key(bundle, "filename_mode"), String::from_str("custom")));
            sets.push((make_key(bundle, "filename_template"), String::from_str(text)));
            mode = FilenameMode::Custom;
            template = Some(String::from_str(text));
        },
    }
    if let Some(dir) = download_dir {
        sets.push((make_key(bundle, "download_dir"), String::from_str(dir)));
    }
    assert(pairs_of(sets@) =~= naming_sets(
        opt_str(mode_flag),
        opt_str(template_flag),
        opt_str(download_dir),
        bundle@,
    ));
    assert(texts(unsets@) =~= naming_unsets(
        opt_str(mode_flag),
        opt_str(template_flag),
        bundle@,
        bundle_has_template,
    ));
    Ok(NamingTarget { mode, template, sets, unsets })
}

/// Whether a recorded download is the audio as it was fetched, by its kind and
/// its variant.
pub fn is_original_audio(kind: &str, variant: &str) -> (yes: bool)
    ensures
        yes == (kind@ == "audio"@ && variant@ == "original"@),
{
    same(kind, "audio") && same(variant, "original")
}

/// A recorded file, and the name that its item has now.
#[derive(Debug)]
pub enum ReorgFile {
    /// A download.
    Download {
        /// The path that it has.
        file_path: String,
        /// Whether it is the audio as it was fetched, which has a key beside it.
        original_audio: bool,
        /// The name of its item and what sets the file apart; nothing without a
        /// document of the item.
        name: Option<(String, String)>,
    },
    /// A file of annotations.
    Annotation {
        /// The path that it has.
        file_path: String,
        /// The name of its item; nothing without a document of the item.
        base: Option<String>,
    },
}

/// A move: of the file at a place of the list, and of the key beside it.
#[derive(Debug)]
pub struct PlannedMove {
    /// Which file.
    pub file: usize,
    /// The path that it has.
    pub old: String,
    /// The path that it gets.
    pub new: String,
    /// The paths of its key.
    pub sidecar: Option<(String, String)>,
}

/// A move, in texts.
pub struct MoveView {
    /// Which file.
    pub file: int,
    /// The path that it has.
    pub old: Seq<char>,
    /// The path that it gets.
    pub new: Seq<char>,
    /// The paths of its key.
    pub sidecar: Option<(Seq<char>, Seq<char>)>,
}

impl View for PlannedMove {
    type V = MoveView;

    open spec fn view(&self) -> MoveView {
        MoveView {
            file: self.file as int,
            old: self.old@,
            new: self.new@,
            sidecar: opt_pair(self.sidecar),
        }
    }
}

/// The moves of a list.
pub open spec fn moves_of(list: Seq<PlannedMove>) -> Seq<MoveView> {
    list.map_values(|planned: PlannedMove| planned@)
}

/// What is to be done about a recorded file.
pub enum Fate {
    /// It moves.
    Moves(Seq<char>),
    /// It is where it belongs.
    Stays,
    /// It lies outside the tree, or nothing names it.
    LeftOut,
}

/// What is to be done about a recorded file: the name of its item decides; a
/// download without one follows the tree, annotations without one stay.
pub open spec fn fate(file: ReorgFile, current: Seq<char>, target: Seq<char>) -> Fate {
    match file {
        ReorgFile::Download { file_path, name, .. } => match name {
            Some((base, suffix)) => match rename(base@, suffix@, file_path@, target) {
                Some((_, new)) => Fate::Moves(new),
                None => Fate::Stays,
            },
            None => match external(file_path@, current, target) {
                Some(new) => if components(file_path@) == components(new) {
                    Fate::Stays
                } else {
                    Fate::Moves(new)
                },
                None => Fate::LeftOut,
            },
        },
        ReorgFile::Annotation { file_path, base } => match base {
            Some(name) => match rename(name@, ".annot"@, file_path@, target) {
                Some((_, new)) => Fate::Moves(new),
                None => Fate::Stays,
            },
            None => Fate::LeftOut,
        },
    }
}

/// The path of a recorded file.
pub open spec fn path_of(file: ReorgFile) -> Seq<char> {
    match file {
        ReorgFile::Download { file_path, .. } => file_path@,
        ReorgFile::Annotation { file_path, .. } => file_path@,
    }
}

/// The paths of the key beside a file that moves; the key goes along.
pub open spec fn key_move(file: ReorgFile, new: Seq<char>) -> Option<(Seq<char>, Seq<char>)> {
    match file {
        ReorgFile::Download { file_path, original_audio, .. } => if original_audio {
            match (sidecar_of(file_path@), sidecar_of(new)) {
                (Some(a), Some(b)) => Some((a, b)),
                _ => None,
            }
        } else {
            None
        },
        ReorgFile::Annotation { .. } => None,
    }
}

/// The moves of the recorded files, in order.
pub open spec fn plan_of(files: Seq<ReorgFile>, current: Seq<char>, target: Seq<char>) -> Seq<
    MoveView,
>
    decreases files.len(),
{
    if files.len() == 0 {
        Seq::empty()
    } else {
        let front = plan_of(files.drop_last(), current, target);
        match fate(files.last(), current, target) {
            Fate::Moves(new) => front.push(
                MoveView {
                    file: files.len() - 1,
                    old: path_of(files.last()),
                    new,
                    sidecar: key_move(files.last(), new),
                },
            ),
            _ => front,
        }
    }
}

/// How many recorded files are left out.
pub open spec fn left_out(files: Seq<ReorgFile>, current: Seq<char>, target: Seq<char>) -> int
    decreases files.len(),
{
    if files.len() == 0 {
        0
    } else {
        left_out(files.drop_last(), current, target) + (match fate(files.last(), current, target) {
            Fate::LeftOut => 1int,
            _ => 0int,
        })
    }
}

/// Decides about one recorded file: its new path, or whether it is left out.
fn decide(file: &ReorgFile, current_dir: &str, target_dir: &str) -> (result: (Option<String>, bool))
    ensures
        match fate(*file, current_dir@, target_dir@) {
            Fate::Moves(new) => opt_text(result.0) == Some(new) && !result.1,
            Fate::Stays => result.0 is None && !result.1,
            Fate::LeftOut => result.0 is None && result.1,
        },
{
    match file {
        ReorgFile::Download { file_path, name, .. } => match name {
            Some((base, suffix)) => match planned_paths(
                base.as_str(),
                suffix.as_str(),
                file_path.as_str(),
                target_dir,
            ) {
                Some((_, new)) => (Some(new), false),
                None => (None, false),
            },
            None => match external_target(file_path.as_str(), current_dir, target_dir) {
                Some(new) => {
                    if same_path(file_path.as_str(), new.as_str()) {
                        (None, false)
                    } else {
                        (Some(new), false)
                    }
                },
                None => (None, true),
            },
        },
        ReorgFile::Annotation { file_path, base } => match base {
            Some(name) => match planned_paths(
                name.as_str(),
                ".annot",
                file_path.as_str(),
                target_dir,
            ) {
                Some((_, new)) => (Some(new), false),
                None => (None, false),
            },
            None => (None, true),
        },
    }
}

fn key_paths(file: &ReorgFile, new: &str) -> (paths: Option<(String, String)>)
    ensures
        opt_pair(paths) == key_move(*file, new@),
{
    match file {
        ReorgFile::Download { file_path, original_audio, .. } => {
            if !*original_audio {
                return None;
            }
            match (sidecar_path(file_path.as_str()), sidecar_path(new)) {
                (Some(a), Some(b)) => Some((a, b)),
                _ => None,
            }
        },
        ReorgFile::Annotation { .. } => None,
    }
}

/// Plans the moves of the recorded files; the number says how many are left
/// out.
pub fn plan_moves(files: &Vec<ReorgFile>, current_dir: &str, target_dir: &str) -> (result: (
    Vec<PlannedMove>,
    usize,
))
    ensures
        moves_of(result.0@) == plan_of(files@, current_dir@, target_dir@),
        result.1 == left_out(files@, current_dir@, target_dir@),
{
    let mut planned: Vec<PlannedMove> = Vec::new();
    let mut skipped: usize = 0;
    let mut i: usize = 0;
    assert(moves_of(planned@) =~= plan_of(files@.subrange(0, 0), current_dir@, target_dir@));
    while i < files.len()
        invariant
            i <= files@.len(),
            skipped <= i,
            moves_of(planned@) == plan_of(
                files@.subrange(0, i as int),
                current_dir@,
                target_dir@,
            ),
            skipped == left_out(files@.subrange(0, i as int), current_dir@, target_dir@),
        decreases files.len() - i,
    {
        let file = &files[i];
        let ghost front = files@.subrange(0, i as int);
        let ghost done = moves_of(planned@);
        assert(files@.subrange(0, i + 1).drop_last() =~= front);
        assert(files@.subrange(0, i + 1).last() == *file);
        let (target, out) = decide(file, current_dir, target_dir);
        if out {
            skipped = skipped + 1;
        }
        if let Some(new) = target {
            let sidecar = key_paths(file, new.as_str());
            let old = match file {
                ReorgFile::Download { file_path, .. } => file_path.clone(),
                ReorgFile::Annotation { file_path, .. } => file_path.clone(),
            };
            let next = PlannedMove { file: i, old, new, sidecar };
            planned.push(next);
            assert(moves_of(planned@) =~= done.push(next@));
        }
        i = i + 1;
    }
    assert(files@.subrange(0, i as int) =~= files@);
    (planned, skipped)
}

/// Whether a move goes where an earlier one goes.
pub open spec fn collides(moves: Seq<MoveView>, i: int) -> bool {
    exists|k: int| 0 <= k < i && components(#[trigger] moves[k].new) == components(moves[i].new)
}

/// The paths that more than one file would get, once for each file after the
/// first.
pub open spec fn collisions_of(moves: Seq<MoveView>, n: int) -> Seq<Seq<char>>
    decreases n,
{
    if n <= 0 {
        Seq::empty()
    } else if collides(moves, n - 1) {
        collisions_of(moves, n - 1).push(moves[n - 1].new)
    } else {
        collisions_of(moves, n - 1)
    }
}

/// Finds the paths that more than one file would get.
pub fn collisions(planned: &Vec<PlannedMove>) -> (paths: Vec<String>)
    ensures
        texts(paths@) == collisions_of(moves_of(planned@), planned@.len() as int),
{
    let ghost moves = moves_of(planned@);
    let mut paths: Vec<String> = Vec::new();
    let mut i: usize = 0;
    assert(texts(paths@) =~= collisions_of(moves, 0));
    while i < planned.len()
        invariant
            i <= planned@.len(),
            moves == moves_of(planned@),
            texts(paths@) == collisions_of(moves, i as int),
        decreases planned.len() - i,
    {
        let mut hit = false;
        let mut k: usize = 0;
        while k < i
            invariant
                k <= i < planned@.len(),
                moves == moves_of(planned@),
                hit == exists|m: int|
                    0 <= m < k && components(#[trigger] moves[m].new) == components(
                        moves[i as int].new,
                    ),
            decreases i - k,
        {
            assert(moves[k as int].new == planned@[k as int].new@);
            if same_path(planned[k].new.as_str(), planned[i].new.as_str()) {
                hit = true;
            }
            k = k + 1;
        }
        if hit {
            push_text(&mut paths, planned[i].new.clone());
        }
        i = i + 1;
    }
    paths
}

/// Without collisions every file gets a path of its own.
pub proof fn law_no_collision_no_shared_path(moves: Seq<MoveView>, i: int, j: int)
    requires
        collisions_of(moves, moves.len() as int).len() == 0,
        0 <= i < j < moves.len(),
    ensures
        components(moves[i].new) != components(moves[j].new),
{
    lemma_no_collision(moves, moves.len() as int, j);
    if components(moves[i].new) == components(moves[j].new) {
        assert(collides(moves, j));
    }
}

proof fn lemma_no_collision(moves: Seq<MoveView>, n: int, j: int)
    requires
        0 <= j < n <= moves.len(),
        collisions_of(moves, n).len() == 0,
    ensures
        !collides(moves, j),
    decreases n,
{
    if j < n - 1 {
        lemma_no_collision(moves, n - 1, j);
    }
}

/// Every move is of a file of the list, from the path that it has, and no two
/// moves are of one file.
pub proof fn law_moves_are_of_the_files(
    files: Seq<ReorgFile>,
    current: Seq<char>,
    target: Seq<char>,
    i: int,
)
    requires
        0 <= i < plan_of(files, current, target).len(),
    ensures
        0 <= plan_of(files, current, target)[i].file < files.len(),
        plan_of(files, current, target)[i].old == path_of(
            files[plan_of(files, current, target)[i].file],
        ),
        i > 0 ==> plan_of(files, current, target)[i - 1].file < plan_of(
            files,
            current,
            target,
        )[i].file,
    decreases files.len(),
{
    let front = files.drop_last();
    let before = plan_of(front, current, target);
    if i < before.len() {
        law_moves_are_of_the_files(front, current, target, i);
        let k = before[i].file;
        assert(front[k] == files[k]);
        assert(plan_of(files, current, target)[i] == before[i]);
        if i > 0 {
            assert(plan_of(files, current, target)[i - 1] == before[i - 1]);
        }
    } else if i > 0 {
        law_moves_are_of_the_files(front, current, target, i - 1);
        assert(plan_of(files, current, target)[i - 1] == before[i - 1]);
    }
}

/// What comes next once the moves are planned.
#[derive(Clone, Copy, Debug, PartialEq, Eq, Structural)]
pub enum ReorgStep {
    /// Nothing: targets are shared, which is refused.
    Refuse(ReorgError),
    /// Nothing: there is nothing to move, and it is a dry run.
    Nothing,
    /// The settings are stored; there is nothing to move.
    StoreOnly,
    /// The moves are shown, and no more.
    Preview,
    /// The moves are shown, and the user is asked.
    Ask,
    /// Nothing: the user said no.
    Abort,
    /// The settings are stored and the files are moved.
    Move,
}

/// Whether the settings are stored at a step.
pub open spec fn stores(step: ReorgStep) -> bool {
    step is StoreOnly || step is Move
}

/// What comes next: shared targets are refused before all else, a dry run
/// changes nothing, and files are moved only where the user agreed.
pub open spec fn step_of(
    planned: int,
    collisions: usize,
    dry_run: bool,
    confirmed: Option<bool>,
) -> ReorgStep {
    if collisions > 0 {
        ReorgStep::Refuse(ReorgError::Collisions(collisions))
    } else if planned == 0 {
        if dry_run {
            ReorgStep::Nothing
        } else {
            ReorgStep::StoreOnly
        }
    } else if dry_run {
        ReorgStep::Preview
    } else {
        match confirmed {
            None => ReorgStep::Ask,
            Some(true) => ReorgStep::Move,
            Some(false) => ReorgStep::Abort,
        }
    }
}

/// Decides what comes next, given how many moves are planned, how many targets
/// are shared, whether it is a dry run, and what the user answered; nothing
/// where they were not asked yet.
pub fn reorganize_step(
    planned: usize,
    collisions: usize,
    dry_run: bool,
    confirmed: Option<bool>,
) -> (step: ReorgStep)
    ensures
        step == step_of(planned as int, collisions, dry_run, confirmed),
{
    if collisions > 0 {
        ReorgStep::Refuse(ReorgError::Collisions(collisions))
    } else if planned == 0 {
        if dry_run {
            ReorgStep::Nothing
        } else {
            ReorgStep::StoreOnly
        }
    } else if dry_run {
        ReorgStep::Preview
    } else {
        match confirmed {
            None => ReorgStep::Ask,
            Some(true) => ReorgStep::Move,
            Some(false) => ReorgStep::Abort,
        }
    }
}

/// Nothing is stored and nothing is moved in a dry run, where targets are
/// shared, or where there is something to move and the user did not agree.
pub proof fn law_nothing_changes_unasked(
    planned: int,
    collisions: usize,
    dry_run: bool,
    confirmed: Option<bool>,
)
    ensures
        ({
            let step = step_of(planned, collisions, dry_run, confirmed);
            &&& stores(step) ==> !dry_run && collisions == 0
            &&& stores(step) && planned != 0 ==> confirmed == Some(true)
            &&& step is Move ==> planned != 0 && confirmed == Some(true)
        }),
{
}

/// What is found before a file is moved.
#[derive(Clone, Copy, Debug, PartialEq, Eq, Structural)]
pub enum MoveCheck {
    /// The file is gone.
    SourceGone,
    /// Another file is where it should go.
    TargetExists,
    /// It can be moved.
    Clear,
}

/// Whether a file can be moved.
pub open spec fn move_check(source_exists: bool, target_exists: bool, same_file: bool) -> MoveCheck {
    if !source_exists {
        MoveCheck::SourceGone
    } else if target_exists && !same_file {
        MoveCheck::TargetExists
    } else {
        MoveCheck::Clear
    }
}

/// Decides whether a file can be moved: nothing that is there is overwritten,
/// but for the file itself under another spelling.
pub fn check_move(source_exists: bool, target_exists: bool, same_file: bool) -> (check: MoveCheck)
    ensures
        check == move_check(source_exists, target_exists, same_file),
{
    if !source_exists {
        MoveCheck::SourceGone
    } else if target_exists && !same_file {
        MoveCheck::TargetExists
    } else {
        MoveCheck::Clear
    }
}

/// Whether the key beside a file that was moved is fine.
pub open spec fn key_fine(present: Option<bool>, moved: bool) -> bool {
    match present {
        Some(true) => moved,
        Some(false) => true,
        None => false,
    }
}

/// Whether the key beside a file that was moved is fine: moved too, or not
/// there, which the license makes good.
pub fn sidecar_fine(present: Option<bool>, moved: bool) -> (fine: bool)
    ensures
        fine == key_fine(present, moved),
{
    match present {
        Some(true) => moved,
        Some(false) => true,
        None => false,
    }
}

/// The tally of the moves.
#[derive(Clone, Copy, Debug, PartialEq, Eq, Structural)]
pub struct MoveTally {
    /// Files that were moved wholly.
    pub done: usize,
    /// Files that were not.
    pub failed: usize,
}

/// The outcome of one move.
#[derive(Clone, Copy, Debug, PartialEq, Eq, Structural)]
pub struct MoveOutcome {
    /// Whether the file was moved.
    pub moved: bool,
    /// Whether its key is fine.
    pub key_fine: bool,
    /// Whether the record names the new path.
    pub recorded: bool,
}

/// The tally with the outcome of one more move.
pub open spec fn tally_after(tally: MoveTally, outcome: MoveOutcome) -> MoveTally {
    if outcome.moved && outcome.key_fine && outcome.recorded {
        MoveTally { done: (tally.done + 1) as usize, ..tally }
    } else {
        MoveTally { failed: (tally.failed + 1) as usize, ..tally }
    }
}

/// Takes up the outcome of a move: it is done only where the file, its key and
/// its record are.
pub fn take_outcome(tally: MoveTally, outcome: MoveOutcome) -> (next: MoveTally)
    requires
        tally.done + tally.failed < usize::MAX,
    ensures
        next == tally_after(tally, outcome),
{
    if outcome.moved && outcome.key_fine && outcome.recorded {
        MoveTally { done: tally.done + 1, failed: tally.failed }
    } else {
        MoveTally { done: tally.done, failed: tally.failed + 1 }
    }
}

/// What is said of the moves.
pub open spec fn tally_line(tally: MoveTally, copy: bool) -> Seq<char> {
    (if copy {
        "copied "@
    } else {
        "moved "@
    }) + decimal(tally.done as int) + " file(s)"@ + (if tally.failed > 0 {
        ", "@ + decimal(tally.failed as int) + " failed"@
    } else {
        Seq::empty()
    })
}

/// The fault of the moves, where some failed.
pub open spec fn tally_fault(tally: MoveTally, total: usize, copy: bool) -> Option<ReorgError> {
    if tally.failed > 0 {
        Some(ReorgError::Failed { failed: tally.failed, total, copy })
    } else {
        None
    }
}

/// Ends the moves: what is said of them, and the fault where some failed.
pub fn finish_moves(tally: MoveTally, total: usize, copy: bool) -> (result: (
    String,
    Option<ReorgError>,
))
    ensures
        result.0@ == tally_line(tally, copy),
        result.1 == tally_fault(tally, total, copy),
{
    let rest = if tally.failed > 0 {
        let mut text = cat2(", ", number(tally.failed as u64).as_str());
        text.append(" failed");
        text
    } else {
        String::new()
    };
    let line = cat4(
        if copy {
            "copied "
        } else {
            "moved "
        },
        number(tally.done as u64).as_str(),
        " file(s)",
        rest.as_str(),
    );
    let error = if tally.failed > 0 {
        Some(ReorgError::Failed { failed: tally.failed, total, copy })
    } else {
        None
    };
    (line, error)
}

/// The directories from one upward, as long as they lie below the root of the
/// tree; the root itself is not among them.
pub open spec fn climb(dir: Seq<char>, base: Seq<char>) -> Seq<Seq<char>>
    decreases dir.len(),
    via climb_ends
{
    if components(dir) != components(base) && within(dir, base) {
        seq![dir] + match parent_of(dir) {
            Some(above) => climb(above, base),
            None => Seq::empty(),
        }
    } else {
        Seq::empty()
    }
}

#[via_fn]
proof fn climb_ends(dir: Seq<char>, base: Seq<char>) {
    lemma_parent_is_shorter(dir);
}

/// The directories that a file which moved away may leave empty, the deepest
/// first.
pub open spec fn chain_of(old: Seq<char>, base: Seq<char>) -> Seq<Seq<char>> {
    match parent_of(old) {
        Some(dir) => climb(dir, base),
        None => Seq::empty(),
    }
}

/// Finds the directories that a file which moved away may leave empty, the deepest
/// first. Nothing for a file outside the tree.
pub fn cleanup_chain(old: &str, base: &str) -> (dirs: Vec<String>)
    ensures
        texts(dirs@) == chain_of(old@, base@),
{
    let mut dirs: Vec<String> = Vec::new();
    let mut next = parent(old);
    let ghost want = chain_of(old@, base@);
    assert(texts(dirs@) =~= Seq::<Seq<char>>::empty());
    loop
        invariant
            want == chain_of(old@, base@),
            want == texts(dirs@) + match opt_text(next) {
                Some(dir) => climb(dir, base@),
                None => Seq::empty(),
            },
        decreases
            match next {
                Some(dir) => dir@.len() + 1,
                None => 0,
            },
    {
        let dir = match next {
            Some(dir) => dir,
            None => {
                assert(texts(dirs@) =~= want);
                return dirs;
            },
        };
        if same_path(dir.as_str(), base) || !lies_within(dir.as_str(), base) {
            assert(texts(dirs@) =~= want);
            return dirs;
        }
        let ghost before = texts(dirs@);
        next = parent(dir.as_str());
        push_text(&mut dirs, dir);
        assert(texts(dirs@) =~= before + seq![dir@]);
        assert(want =~= texts(dirs@) + match opt_text(next) {
            Some(above) => climb(above, base@),
            None => Seq::empty(),
        });
    }
}

proof fn lemma_climb_stays_below(dir: Seq<char>, base: Seq<char>)
    ensures
        forall|i: int|
            0 <= i < climb(dir, base).len() ==> within(#[trigger] climb(dir, base)[i], base)
                && components(climb(dir, base)[i]) != components(base),
    decreases dir.len(),
{
    if components(dir) != components(base) && within(dir, base) {
        lemma_parent_is_shorter(dir);
        let rest = match parent_of(dir) {
            Some(above) => climb(above, base),
            None => Seq::empty(),
        };
        if parent_of(dir) is Some {
            lemma_climb_stays_below(parent_of(dir)->Some_0, base);
        }
        assert forall|i: int| 0 <= i < climb(dir, base).len() implies within(
            #[trigger] climb(dir, base)[i],
            base,
        ) && components(climb(dir, base)[i]) != components(base) by {
            if i > 0 {
                assert(climb(dir, base)[i] == rest[i - 1]);
            }
        }
    }
}

/// The clean-up stays inside the tree that the files came out of, and never
/// removes the root of it.
pub proof fn law_cleanup_keeps_the_tree(old: Seq<char>, base: Seq<char>)
    ensures
        forall|i: int|
            0 <= i < chain_of(old, base).len() ==> within(#[trigger] chain_of(old, base)[i], base)
                && components(chain_of(old, base)[i]) != components(base),
{
    if parent_of(old) is Some {
        lemma_climb_stays_below(parent_of(old)->Some_0, base);
    }
}

/// The part of a text behind its last dot.
pub open spec fn last_key_part(key: Seq<char>) -> Seq<char> {
    key.subrange(last_at(key, '.') + 1, key.len() as int)
}

/// Whether a setting decides how files are named.
pub open spec fn names_files(key: Seq<char>) -> bool {
    &&& starts(key, "settings."@)
    &&& (last_key_part(key) == "filename_mode"@ || last_key_part(key) == "filename_template"@
        || last_key_part(key) == "download_dir"@)
}

/// Decides whether a change of a setting leaves files under their old names.
pub fn key_affects_filenames(key: &str) -> (yes: bool)
    ensures
        yes == names_files(key@),
{
    let chars = chars_of(key);
    let end: usize = chars.len();
    let start: usize = match find_last(&chars, '.') {
        Some(i) => i + 1,
        None => 0,
    };
    let part = slice_text(&chars, start, end);
    starts_with(key, "settings.") && (same(part.as_str(), "filename_mode") || same(
        part.as_str(),
        "filename_template",
    ) || same(part.as_str(), "download_dir"))
}

/// Whether a plan brings the file at a place of the list from one path to another:
/// it holds that move, and no other move of the file; none where the two paths are
/// the same.
pub open spec fn arrives(moves: Seq<MoveView>, file: int, old: Seq<char>, new: Seq<char>) -> bool {
    &&& components(old) != components(new) ==> exists|k: int|
        0 <= k < moves.len() && (#[trigger] moves[k]).file == file && moves[k].old == old
            && moves[k].new == new
    &&& forall|k: int|
        0 <= k < moves.len() && (#[trigger] moves[k]).file == file ==> components(old)
            != components(new) && moves[k].new == new
}

/// Whether a plan leaves the file at a place of the list alone.
pub open spec fn left_alone(moves: Seq<MoveView>, file: int) -> bool {
    forall|k: int| 0 <= k < moves.len() ==> (#[trigger] moves[k]).file != file
}

proof fn lemma_plan_follows_fate(
    files: Seq<ReorgFile>,
    current: Seq<char>,
    target: Seq<char>,
    i: int,
)
    requires
        0 <= i < files.len(),
    ensures
        ({
            let moves = plan_of(files, current, target);
            match fate(files[i], current, target) {
                Fate::Moves(new) => {
                    &&& exists|k: int|
                        0 <= k < moves.len() && (#[trigger] moves[k]).file == i && moves[k].old
                            == path_of(files[i]) && moves[k].new == new
                    &&& forall|k: int|
                        0 <= k < moves.len() && (#[trigger] moves[k]).file == i ==> moves[k].new
                            == new && moves[k].sidecar == key_move(files[i], new)
                },
                _ => left_alone(moves, i),
            }
        }),
    decreases files.len(),
{
    let front = files.drop_last();
    let before = plan_of(front, current, target);
    let moves = plan_of(files, current, target);
    assert forall|k: int| 0 <= k < before.len() implies (#[trigger] moves[k]) == before[k] && 0
        <= before[k].file < front.len() by {
        law_moves_are_of_the_files(front, current, target, k);
    }
    if i < front.len() {
        assert(front[i] == files[i]);
        lemma_plan_follows_fate(front, current, target, i);
        if fate(files[i], current, target) is Moves {
            let new = fate(files[i], current, target)->Moves_0;
            let k = choose|k: int|
                0 <= k < before.len() && (#[trigger] before[k]).file == i && before[k].old
                    == path_of(files[i]) && before[k].new == new;
            assert(moves[k] == before[k]);
        }
        assert forall|k: int| 0 <= k < moves.len() && (#[trigger] moves[k]).file == i implies k
            < before.len() by {}
    } else {
        if fate(files[i], current, target) is Moves {
            assert(moves[before.len() as int].file == i);
        }
    }
}

/// A file whose item has a name goes to the target directory under that name,
/// whatever directory it comes out of: the plan holds that move, or the file is
/// there already. The place lies in the target directory, unless the name starts
/// at the root itself.
pub proof fn law_named_files_go_to_the_target(
    files: Seq<ReorgFile>,
    current: Seq<char>,
    target: Seq<char>,
    i: int,
)
    requires
        0 <= i < files.len(),
    ensures
        match files[i] {
            ReorgFile::Download { file_path, name: Some((base, suffix)), .. } => {
                let new = joined_path(target, base@ + suffix@);
                &&& arrives(plan_of(files, current, target), i, file_path@, new)
                &&& !absolute(base@ + suffix@) ==> within(new, target)
            },
            ReorgFile::Annotation { file_path, base: Some(name) } => {
                let new = joined_path(target, name@ + ".annot"@);
                &&& arrives(plan_of(files, current, target), i, file_path@, new)
                &&& !absolute(name@ + ".annot"@) ==> within(new, target)
            },
            _ => true,
        },
{
    lemma_plan_follows_fate(files, current, target, i);
    match files[i] {
        ReorgFile::Download { file_path, name: Some((base, suffix)), .. } => {
            law_joined_lies_within(target, base@ + suffix@);
        },
        ReorgFile::Annotation { file_path, base: Some(name) } => {
            law_joined_lies_within(target, name@ + ".annot"@);
        },
        _ => {},
    }
}

/// A download without a name keeps its place: what is left of its path behind the
/// current directory is put into the folder of such files in the target
/// directory, once. One that lies outside the current directory is left alone, and
/// so are annotations without a name.
pub proof fn law_unnamed_files_keep_their_place(
    files: Seq<ReorgFile>,
    current: Seq<char>,
    target: Seq<char>,
    i: int,
)
    requires
        0 <= i < files.len(),
    ensures
        match files[i] {
            ReorgFile::Download { file_path, name: None, .. } => {
                let folder = joined_path(target, EXTERNAL_DIR@);
                if !within(file_path@, current) {
                    left_alone(plan_of(files, current, target), i)
                } else {
                    let rest = rest_below(file_path@, current)->Some_0;
                    arrives(
                        plan_of(files, current, target),
                        i,
                        file_path@,
                        joined_path(
                            folder,
                            if within(rest, EXTERNAL_DIR@) {
                                rest_below(rest, EXTERNAL_DIR@)->Some_0
                            } else {
                                rest
                            },
                        ),
                    )
                }
            },
            ReorgFile::Annotation { base: None, .. } => left_alone(
                plan_of(files, current, target),
                i,
            ),
            _ => true,
        },
{
    lemma_plan_follows_fate(files, current, target, i);
}

/// The key beside the audio as it was fetched goes along with it, from beside its
/// old path to beside its new one; no other file has one.
pub proof fn law_keys_move_with_their_audio(
    files: Seq<ReorgFile>,
    current: Seq<char>,
    target: Seq<char>,
    k: int,
)
    requires
        0 <= k < plan_of(files, current, target).len(),
    ensures
        ({
            let planned = plan_of(files, current, target)[k];
            match files[planned.file] {
                ReorgFile::Download { original_audio, .. } => if original_audio && sidecar_of(
                    planned.old,
                ) is Some && sidecar_of(planned.new) is Some {
                    planned.sidecar == Some(
                        (sidecar_of(planned.old)->Some_0, sidecar_of(planned.new)->Some_0),
                    )
                } else {
                    planned.sidecar is None
                },
                ReorgFile::Annotation { .. } => planned.sidecar is None,
            }
        }),
{
    let planned = plan_of(files, current, target)[k];
    law_moves_are_of_the_files(files, current, target, k);
    lemma_plan_follows_fate(files, current, target, planned.file);
}

/// Every file moves, is where it belongs, or is counted as left out: one is
/// counted exactly where it has no name, and, a download, lies outside the current
/// directory.
pub proof fn law_left_out_files_are_counted(
    files: Seq<ReorgFile>,
    file: ReorgFile,
    current: Seq<char>,
    target: Seq<char>,
)
    ensures
        left_out(Seq::empty(), current, target) == 0,
        left_out(files.push(file), current, target) - left_out(files, current, target) == match file {
            ReorgFile::Download { file_path, name, .. } => if name is None && !within(
                file_path@,
                current,
            ) {
                1int
            } else {
                0
            },
            ReorgFile::Annotation { base, .. } => if base is None {
                1
            } else {
                0
            },
        },
{
    assert(files.push(file).drop_last() =~= files);
}

proof fn lemma_distinct_moves(moves: Seq<MoveView>, n: int)
    requires
        0 <= n <= moves.len(),
        forall|i: int, j: int|
            0 <= i < j < moves.len() ==> components(#[trigger] moves[i].new) != components(
                #[trigger] moves[j].new,
            ),
    ensures
        collisions_of(moves, n) == Seq::<Seq<char>>::empty(),
    decreases n,
{
    if n > 0 {
        lemma_distinct_moves(moves, n - 1);
        if collides(moves, n - 1) {
            let k = choose|k: int|
                0 <= k < n - 1 && components(#[trigger] moves[k].new) == components(
                    moves[n - 1].new,
                );
            assert(components(moves[k].new) != components(moves[n - 1].new));
        }
    }
}

proof fn lemma_collision_is_reported(moves: Seq<MoveView>, n: int, j: int)
    requires
        0 <= j < n <= moves.len(),
        collides(moves, j),
    ensures
        collisions_of(moves, n).contains(moves[j].new),
    decreases n,
{
    let all = collisions_of(moves, n);
    if j < n - 1 {
        lemma_collision_is_reported(moves, n - 1, j);
        let before = collisions_of(moves, n - 1);
        let k = choose|k: int| 0 <= k < before.len() && before[k] == moves[j].new;
        assert(all[k] == before[k]);
    } else {
        assert(all[all.len() - 1] == moves[j].new);
    }
}

/// Paths that no two files share are no collision; a path that two files share is
/// reported.
pub proof fn law_collisions_are_shared_paths(moves: Seq<MoveView>, i: int, j: int)
    requires
        0 <= i < j < moves.len(),
    ensures
        components(moves[i].new) == components(moves[j].new) ==> collisions_of(
            moves,
            moves.len() as int,
        ).contains(moves[j].new),
        (forall|a: int, b: int|
            0 <= a < b < moves.len() ==> components(#[trigger] moves[a].new) != components(
                #[trigger] moves[b].new,
            )) ==> collisions_of(moves, moves.len() as int).len() == 0,
{
    if components(moves[i].new) == components(moves[j].new) {
        assert(collides(moves, j));
        lemma_collision_is_reported(moves, moves.len() as int, j);
    }
    if forall|a: int, b: int|
        0 <= a < b < moves.len() ==> components(#[trigger] moves[a].new) != components(
            #[trigger] moves[b].new,
        ) {
        lemma_distinct_moves(moves, moves.len() as int);
    }
}

/// Files are moved, and settings stored, once the user agreed and nothing stands
/// against it.
pub proof fn law_agreed_moves_are_made(planned: int, collisions: usize, answer: bool)
    ensures
        collisions > 0 ==> forall|dry: bool, confirmed: Option<bool>|
            (#[trigger] step_of(planned, collisions, dry, confirmed)) == ReorgStep::Refuse(
                ReorgError::Collisions(collisions),
            ),
        collisions == 0 && planned > 0 ==> step_of(planned, 0, false, Some(answer)) == (
        if answer {
            ReorgStep::Move
        } else {
            ReorgStep::Abort
        }),
        collisions == 0 && planned > 0 ==> step_of(planned, 0, false, None) == ReorgStep::Ask,
        collisions == 0 && planned > 0 ==> step_of(planned, 0, true, None) == ReorgStep::Preview,
        collisions == 0 ==> stores(step_of(0, 0, false, None)),
{
}

/// The word for a mode.
pub open spec fn mode_word(mode: FilenameMode) -> Seq<char> {
    match mode {
        FilenameMode::Ascii => "ascii"@,
        FilenameMode::Unicode => "unicode"@,
        FilenameMode::AsinAscii => "asin_ascii"@,
        FilenameMode::AsinUnicode => "asin_unicode"@,
        FilenameMode::Custom => "custom"@,
    }
}

proof fn lemma_mode_words_differ()
    ensures
        forall|a: FilenameMode, b: FilenameMode|
            #[trigger] mode_word(a) == #[trigger] mode_word(b) ==> a == b,
{
    reveal_strlit("ascii");
    reveal_strlit("unicode");
    reveal_strlit("asin_ascii");
    reveal_strlit("asin_unicode");
    reveal_strlit("custom");
    assert forall|a: FilenameMode, b: FilenameMode| #[trigger]
        mode_word(a) == #[trigger] mode_word(b) implies a == b by {
        assert(mode_word(a).len() == mode_word(b).len());
        assert("ascii"@[0] == 'a');
        assert("unicode"@[0] == 'u');
        assert("custom"@[0] == 'c');
        assert("asin_ascii"@[0] == 'a');
        assert("asin_unicode"@[0] == 'a');
    }
}

/// Each mode is read from its own word, and a mode other than the first from no
/// other.
pub proof fn law_modes_are_read_from_their_words(mode: FilenameMode, word: Seq<char>)
    ensures
        mode_of(mode_word(mode)) == mode,
        mode_of(word) != FilenameMode::Ascii ==> mode_word(mode_of(word)) == word,
{
    lemma_mode_words_differ();
    assert(mode_word(FilenameMode::Ascii) == "ascii"@);
    assert(mode_word(FilenameMode::Unicode) == "unicode"@);
    assert(mode_word(FilenameMode::AsinAscii) == "asin_ascii"@);
    assert(mode_word(FilenameMode::AsinUnicode) == "asin_unicode"@);
    assert(mode_word(FilenameMode::Custom) == "custom"@);
}

/// The flags win over the current naming: a template brings the custom mode, a
/// mode of another kind brings no template, and a template goes with the custom
/// mode alone.
pub proof fn law_flags_decide_the_naming(
    mode: Option<Seq<char>>,
    template: Option<Seq<char>>,
    current: (FilenameMode, Option<Seq<char>>),
)
    ensures
        mode is None && template is None ==> naming_of(mode, template, current) == Ok::<
            (FilenameMode, Option<Seq<char>>),
            ReorgError,
        >(current),
        mode is None || template is None || mode == Some("custom"@) || naming_of(
            mode,
            template,
            current,
        ) == Err::<(FilenameMode, Option<Seq<char>>), ReorgError>(ReorgError::TemplateWithMode),
        mode == Some("custom"@) && template is None ==> naming_of(mode, template, current) == Err::<
            (FilenameMode, Option<Seq<char>>),
            ReorgError,
        >(ReorgError::TemplateMissing),
        template is Some && (mode is None || mode == Some("custom"@)) ==> naming_of(
            mode,
            template,
            current,
        ) == Ok::<(FilenameMode, Option<Seq<char>>), ReorgError>((FilenameMode::Custom, template)),
        mode is Some && template is None && mode != Some("custom"@) ==> naming_of(
            mode,
            template,
            current,
        ) == Ok::<(FilenameMode, Option<Seq<char>>), ReorgError>((mode_of(mode->Some_0), None)),
{
}

/// What is stored says the naming that the files get: the mode by a word that is
/// read as it, the template, and the directory; nothing is stored that no flag
/// asked for, and a template that no longer holds is dropped.
pub proof fn law_stored_settings_say_the_naming(
    mode: Option<Seq<char>>,
    template: Option<Seq<char>>,
    dir: Option<Seq<char>>,
    current: (FilenameMode, Option<Seq<char>>),
    bundle: Seq<char>,
    has_template: bool,
    naming: (FilenameMode, Option<Seq<char>>),
)
    requires
        naming_of(mode, template, current) == Ok::<(FilenameMode, Option<Seq<char>>), ReorgError>(
            naming,
        ),
    ensures
        ({
            let sets = naming_sets(mode, template, dir, bundle);
            let unsets = naming_unsets(mode, template, bundle, has_template);
            &&& mode is Some || template is Some ==> sets.len() > 0 && sets[0].0 == "settings."@
                + bundle + "."@ + "filename_mode"@ && mode_of(sets[0].1) == naming.0
            &&& template is Some ==> sets.contains(
                ("settings."@ + bundle + "."@ + "filename_template"@, template->Some_0),
            ) && naming.1 == template
            &&& dir is Some ==> sets.contains(
                ("settings."@ + bundle + "."@ + "download_dir"@, dir->Some_0),
            )
            &&& sets.len() == (if template is Some {
                2int
            } else if mode is Some {
                1
            } else {
                0
            }) + (if dir is Some {
                1int
            } else {
                0
            })
            &&& unsets.contains("settings."@ + bundle + "."@ + "filename_template"@) <==> (mode
                is Some && template is None && has_template)
            &&& unsets.len() <= 1
        }),
{
    law_modes_are_read_from_their_words(FilenameMode::Custom, "custom"@);
    let sets = naming_sets(mode, template, dir, bundle);
    if template is Some {
        assert(sets[1] == (setting_key(bundle, "filename_template"@), template->Some_0));
    }
    if dir is Some {
        assert(sets[sets.len() - 1] == (setting_key(bundle, "download_dir"@), dir->Some_0));
    }
    let unsets = naming_unsets(mode, template, bundle, has_template);
    if mode is Some && template is None && has_template {
        assert(unsets[0] == setting_key(bundle, "filename_template"@));
    }
}

proof fn lemma_key_names_files(bundle: Seq<char>, name: Seq<char>)
    requires
        name == "filename_mode"@ || name == "filename_template"@ || name == "download_dir"@,
    ensures
        names_files("settings."@ + bundle + "."@ + name),
{
    reveal_strlit("settings.");
    reveal_strlit(".");
    reveal_strlit("filename_mode");
    reveal_strlit("filename_template");
    reveal_strlit("download_dir");
    let key = "settings."@ + bundle + "."@ + name;
    let at = "settings."@.len() + bundle.len();
    assert(key[at as int] == '.');
    assert forall|k: int| at < k < key.len() implies key[k] != '.' by {
        assert(key[k] == name[k - at - 1]);
    }
    crate::text::lemma_last_at_is(key, '.', at as int);
    assert(last_key_part(key) =~= name);
    assert(key.subrange(0, "settings."@.len() as int) =~= "settings."@);
}

/// Every setting that a reorganisation changes is one that decides how files are
/// named, in every bundle.
pub proof fn law_naming_settings_are_told(
    mode: Option<Seq<char>>,
    template: Option<Seq<char>>,
    dir: Option<Seq<char>>,
    bundle: Seq<char>,
    has_template: bool,
)
    ensures
        forall|i: int|
            0 <= i < naming_sets(mode, template, dir, bundle).len() ==> names_files(
                (#[trigger] naming_sets(mode, template, dir, bundle)[i]).0,
            ),
        forall|i: int|
            0 <= i < naming_unsets(mode, template, bundle, has_template).len() ==> names_files(
                #[trigger] naming_unsets(mode, template, bundle, has_template)[i],
            ),
        names_files("settings."@ + bundle + "."@ + "filename_mode"@),
        names_files("settings."@ + bundle + "."@ + "filename_template"@),
        names_files("settings."@ + bundle + "."@ + "download_dir"@),
{
    lemma_key_names_files(bundle, "filename_mode"@);
    lemma_key_names_files(bundle, "filename_template"@);
    lemma_key_names_files(bundle, "download_dir"@);
}

/// A file is moved only where it is there and nothing else is in its place; what is in
/// its place is never overwritten, but for the file itself.
pub proof fn law_nothing_is_overwritten(
    source_exists: bool,
    target_exists: bool,
    same_file: bool,
)
    ensures
        move_check(source_exists, target_exists, same_file) is Clear <==> source_exists && (
        !target_exists || same_file),
        move_check(source_exists, target_exists, same_file) is SourceGone <==> !source_exists,
{
}

/// A key that is there has to be moved; one that is not there is no fault, and
/// one of which it cannot be known is.
pub proof fn law_keys_are_not_left_behind(moved: bool)
    ensures
        key_fine(Some(true), moved) == moved,
        key_fine(Some(false), moved),
        !key_fine(None, moved),
{
}

proof fn lemma_climb_goes_on(dir: Seq<char>, base: Seq<char>, i: int)
    requires
        0 <= i < climb(dir, base).len(),
    ensures
        i == 0 ==> climb(dir, base)[i] == dir,
        parent_of(climb(dir, base)[i]) matches Some(above) ==> within(above, base) && components(
            above,
        ) != components(base) ==> i + 1 < climb(dir, base).len() && climb(dir, base)[i + 1]
            == above,
    decreases dir.len(),
{
    lemma_parent_is_shorter(dir);
    if let Some(above) = parent_of(dir) {
        let rest = climb(above, base);
        if i > 0 {
            lemma_climb_goes_on(above, base, i - 1);
            assert(climb(dir, base)[i] == rest[i - 1]);
            if i < rest.len() {
                assert(climb(dir, base)[i + 1] == rest[i]);
            }
        } else if rest.len() > 0 {
            assert(climb(dir, base)[1] == rest[0]);
            assert(rest[0] == above);
        }
    }
}

/// The clean-up misses no directory: it starts with the one that the file lay in and goes
/// up from each to the one that it lies in, as long as they are below the root of the
/// tree.
pub proof fn law_cleanup_reaches_every_directory(old: Seq<char>, base: Seq<char>, i: int)
    ensures
        parent_of(old) matches Some(dir) ==> within(dir, base) && components(dir) != components(
            base,
        ) ==> chain_of(old, base).len() > 0 && chain_of(old, base)[0] == dir,
        0 <= i < chain_of(old, base).len() ==> (parent_of(chain_of(old, base)[i]) matches Some(
            above,
        ) ==> within(above, base) && components(above) != components(base) ==> i + 1 < chain_of(
            old,
            base,
        ).len() && chain_of(old, base)[i + 1] == above),
{
    if let Some(dir) = parent_of(old) {
        if 0 <= i < climb(dir, base).len() {
            lemma_climb_goes_on(dir, base, i);
        }
    }
}

/// Every move counts once: as done exactly where the file was moved, its key is fine and
/// its record names the new path, and else as failed; and the run fails exactly where a
/// move did.
pub proof fn law_every_move_counts_once(
    tally: MoveTally,
    outcome: MoveOutcome,
    total: usize,
    copy: bool,
)
    requires
        tally.done + tally.failed < usize::MAX,
    ensures
        ({
            let next = tally_after(tally, outcome);
            &&& next.done + next.failed == tally.done + tally.failed + 1
            &&& next.done == tally.done + 1 <==> outcome.moved && outcome.key_fine
                && outcome.recorded
            &&& next.failed == tally.failed <==> outcome.moved && outcome.key_fine
                && outcome.recorded
        }),
        tally_fault(tally, total, copy) is None <==> tally.failed == 0,
        tally.failed > 0 ==> tally_fault(tally, total, copy) == Some(
            ReorgError::Failed { failed: tally.failed, total, copy },
        ),
{
}

/// What is said of the moves: how many were made, in what way, and how many failed where
/// any did.
pub proof fn law_moves_are_summed_up(done: usize, failed: usize)
    ensures
        tally_line(MoveTally { done, failed: 0 }, false) == "moved "@ + decimal(done as int)
            + " file(s)"@,
        tally_line(MoveTally { done, failed: 0 }, true) == "copied "@ + decimal(done as int)
            + " file(s)"@,
        failed > 0 ==> tally_line(MoveTally { done, failed }, false) == "moved "@ + decimal(
            done as int,
        ) + " file(s)"@ + (", "@ + decimal(failed as int) + " failed"@),
{
    let moved = "moved "@ + decimal(done as int) + " file(s)"@;
    let copied = "copied "@ + decimal(done as int) + " file(s)"@;
    assert(moved + Seq::<char>::empty() =~= moved);
    assert(copied + Seq::<char>::empty() =~= copied);
}

} // verus!
