//! Decrypting a downloaded file with an outside tool: which tool, which file,
//! with what arguments, and what is made of the outcome.

use vstd::prelude::*;
use vstd::string::StringExecFns;
use super::options::DecryptBackend;
use crate::lists::push_text;
use crate::paths::extension;
use crate::paths::extension_dot;
use crate::paths::extension_of;
use crate::paths::find_extension;
use crate::paths::find_tail;
use crate::paths::join_path;
use crate::paths::joined_path;
use crate::paths::last_segment;
use crate::paths::strip_tail;
use crate::paths::without_tail;
use crate::text::cat2;
use crate::text::cat3;
use crate::text::cat4;
use crate::text::cat5;
use crate::text::chars_of;
use crate::text::decimal;
use crate::text::empty_text;
use crate::text::ends;
use crate::text::ends_with;
use crate::text::find_last;
use crate::text::is_digit;
use crate::text::join;
use crate::text::joined;
use crate::text::last_at;
use crate::text::number;
use crate::text::opt_str;
use crate::text::opt_text;
use crate::text::parse_up_to;
use crate::text::same;
use crate::text::slice_text;
use crate::text::split;
use crate::text::split_all;
use crate::text::split_words;
use crate::text::texts;
use crate::text::unsigned_value;
use crate::text::words;

verus! {

/// A decrypting tool, by the path of its program.
#[derive(Debug)]
pub enum Tool {
    /// aaxclean-cli.
    Aaxclean(String),
    /// ffmpeg.
    Ffmpeg(String),
}

/// A decrypting tool, in texts.
pub enum ToolView {
    /// aaxclean-cli.
    Aaxclean(Seq<char>),
    /// ffmpeg.
    Ffmpeg(Seq<char>),
}

impl View for Tool {
    type V = ToolView;

    open spec fn view(&self) -> ToolView {
        match *self {
            Tool::Aaxclean(path) => ToolView::Aaxclean(path@),
            Tool::Ffmpeg(path) => ToolView::Ffmpeg(path@),
        }
    }
}

impl Tool {
    /// The name of the tool.
    pub fn label(&self) -> (name: &'static str)
        ensures
            name@ == match *self {
                Tool::Aaxclean(_) => "aaxclean-cli"@,
                Tool::Ffmpeg(_) => "ffmpeg"@,
            },
    {
        match self {
            Tool::Aaxclean(_) => "aaxclean-cli",
            Tool::Ffmpeg(_) => "ffmpeg",
        }
    }
}

/// Why there is no tool.
#[derive(Clone, Copy, Debug, PartialEq, Eq, Structural)]
pub enum ToolError {
    /// aaxclean-cli is not there.
    NoAaxclean,
    /// ffmpeg is not there.
    NoFfmpeg,
    /// ffmpeg is too old.
    OldFfmpeg {
        /// Its version.
        major: u32,
        /// Its version.
        minor: u32,
    },
    /// No tool is there.
    NoTool,
}

impl ToolError {
    /// The words that tell the user of the fault; `hint` says where tools are
    /// to be had.
    pub fn message(&self, hint: &str) -> (text: String)
        ensures
            text@ == match *self {
                ToolError::NoAaxclean =>
                    "aaxclean-cli not found — install it or set AUDIBLE_AAXCLEAN_CLI to its path"@
                        + hint@,
                ToolError::NoFfmpeg =>
                    "ffmpeg not found — install it or set AUDIBLE_FFMPEG to its path"@ + hint@,
                ToolError::OldFfmpeg { major, minor } => "ffmpeg "@ + decimal(major as int) + "."@
                    + decimal(minor as int)
                    + " is too old for aaxc (needs ≥ 4.4 for -audible_key/-audible_iv); use aaxclean-cli or a newer ffmpeg"@,
                ToolError::NoTool =>
                    "no decrypt tool found — install aaxclean-cli or ffmpeg (≥ 4.4), or set AUDIBLE_AAXCLEAN_CLI / AUDIBLE_FFMPEG"@
                        + hint@,
            },
    {
        match self {
            ToolError::NoAaxclean => cat2(
                "aaxclean-cli not found — install it or set AUDIBLE_AAXCLEAN_CLI to its path",
                hint,
            ),
            ToolError::NoFfmpeg => cat2(
                "ffmpeg not found — install it or set AUDIBLE_FFMPEG to its path",
                hint,
            ),
            ToolError::OldFfmpeg { major, minor } => cat5(
                "ffmpeg ",
                number(*major as u64).as_str(),
                ".",
                number(*minor as u64).as_str(),
                " is too old for aaxc (needs ≥ 4.4 for -audible_key/-audible_iv); use aaxclean-cli or a newer ffmpeg",
            ),
            ToolError::NoTool => cat2(
                "no decrypt tool found — install aaxclean-cli or ffmpeg (≥ 4.4), or set AUDIBLE_AAXCLEAN_CLI / AUDIBLE_FFMPEG",
                hint,
            ),
        }
    }
}

/// Whether a version of ffmpeg serves: one that cannot be read counts as recent.
pub open spec fn serves(version: Option<(u32, u32)>) -> bool {
    match version {
        None => true,
        Some((major, minor)) => major > 4 || (major == 4 && minor >= 4),
    }
}

/// The tool of ffmpeg, where it is there and serves.
pub open spec fn usable(ffmpeg: Option<Seq<char>>, version: Option<(u32, u32)>) -> Result<
    ToolView,
    ToolError,
> {
    match ffmpeg {
        None => Err(ToolError::NoFfmpeg),
        Some(path) => if serves(version) {
            Ok(ToolView::Ffmpeg(path))
        } else {
            Err(
                ToolError::OldFfmpeg { major: version->Some_0.0, minor: version->Some_0.1 },
            )
        },
    }
}

/// The tool that a backend asks for; aaxclean-cli is preferred where either
/// will do.
pub open spec fn selected(
    backend: DecryptBackend,
    aaxclean: Option<Seq<char>>,
    ffmpeg: Option<Seq<char>>,
    version: Option<(u32, u32)>,
) -> Result<ToolView, ToolError> {
    match backend {
        DecryptBackend::Aaxclean => match aaxclean {
            Some(path) => Ok(ToolView::Aaxclean(path)),
            None => Err(ToolError::NoAaxclean),
        },
        DecryptBackend::Ffmpeg => usable(ffmpeg, version),
        DecryptBackend::Auto => match aaxclean {
            Some(path) => Ok(ToolView::Aaxclean(path)),
            None => if ffmpeg is Some {
                usable(ffmpeg, version)
            } else {
                Err(ToolError::NoTool)
            },
        },
    }
}

fn usable_ffmpeg(ffmpeg: Option<&str>, version: Option<(u32, u32)>) -> (tool: Result<
    Tool,
    ToolError,
>)
    ensures
        match tool {
            Ok(t) => usable(opt_str(ffmpeg), version) == Ok::<ToolView, ToolError>(t@),
            Err(e) => usable(opt_str(ffmpeg), version) == Err::<ToolView, ToolError>(e),
        },
{
    let path = match ffmpeg {
        Some(path) => String::from_str(path),
        None => {
            return Err(ToolError::NoFfmpeg);
        },
    };
    match version {
        None => Ok(Tool::Ffmpeg(path)),
        Some((major, minor)) => {
            if major > 4 || (major == 4 && minor >= 4) {
                Ok(Tool::Ffmpeg(path))
            } else {
                Err(ToolError::OldFfmpeg { major, minor })
            }
        },
    }
}

/// Selects the tool: `aaxclean` and `ffmpeg` are the paths at which they were
/// found, `version` what ffmpeg says of itself.
pub fn select(
    backend: DecryptBackend,
    aaxclean: Option<&str>,
    ffmpeg: Option<&str>,
    version: Option<(u32, u32)>,
) -> (tool: Result<Tool, ToolError>)
    ensures
        match tool {
            Ok(t) => selected(backend, opt_str(aaxclean), opt_str(ffmpeg), version) == Ok::<
                ToolView,
                ToolError,
            >(t@),
            Err(e) => selected(backend, opt_str(aaxclean), opt_str(ffmpeg), version) == Err::<
                ToolView,
                ToolError,
            >(e),
        },
{
    match (backend, aaxclean) {
        (DecryptBackend::Aaxclean, None) => Err(ToolError::NoAaxclean),
        (DecryptBackend::Aaxclean, Some(path)) => Ok(Tool::Aaxclean(String::from_str(path))),
        (DecryptBackend::Auto, Some(path)) => Ok(Tool::Aaxclean(String::from_str(path))),
        (DecryptBackend::Auto, None) => {
            if ffmpeg.is_some() {
                usable_ffmpeg(ffmpeg, version)
            } else {
                Err(ToolError::NoTool)
            }
        },
        (DecryptBackend::Ffmpeg, _) => usable_ffmpeg(ffmpeg, version),
    }
}

/// The text without the letters n, small or capital, that it starts with.
pub open spec fn without_n(s: Seq<char>) -> Seq<char>
    decreases s.len(),
{
    if s.len() > 0 && (s[0] == 'n' || s[0] == 'N') {
        without_n(s.drop_first())
    } else {
        s
    }
}

/// The text up to its last digit.
pub open spec fn to_last_digit(s: Seq<char>) -> Seq<char>
    decreases s.len(),
{
    if s.len() > 0 && !is_digit(s.last()) {
        to_last_digit(s.drop_last())
    } else {
        s
    }
}

/// The version in what ffmpeg says of itself, `ffmpeg version 5.1.9-0 ...`.
pub open spec fn version_in(s: Seq<char>) -> Option<(u32, u32)> {
    if words(s).len() < 3 {
        None
    } else {
        let parts = split_all(without_n(words(s)[2]), '.');
        if parts.len() < 2 {
            None
        } else {
            match (
                unsigned_value(parts[0], u32::MAX as int),
                unsigned_value(to_last_digit(parts[1]), u32::MAX as int),
            ) {
                (Some(major), Some(minor)) => Some((major as u32, minor as u32)),
                _ => None,
            }
        }
    }
}

/// Reads the version out of what ffmpeg says of itself.
pub fn parse_ffmpeg_version(output: &str) -> (version: Option<(u32, u32)>)
    ensures
        version == version_in(output@),
{
    let list = split_words(output);
    if list.len() < 3 {
        assert(words(output@).len() < 3);
        return None;
    }
    assert(words(output@)[2] == list@[2]@);
    let chars = chars_of(list[2].as_str());
    let ghost n = chars@.len() as int;
    let mut start: usize = 0;
    assert(chars@.subrange(0, n) =~= chars@);
    while start < chars.len() && (chars[start] == 'n' || chars[start] == 'N')
        invariant
            start <= chars@.len(),
            n == chars@.len(),
            without_n(chars@) == without_n(chars@.subrange(start as int, n)),
        decreases chars.len() - start,
    {
        assert(chars@.subrange(start as int, n).drop_first() =~= chars@.subrange(start + 1, n));
        start = start + 1;
    }
    let digits = slice_text(&chars, start, chars.len());
    let parts = split(digits.as_str(), '.');
    let ghost all = split_all(without_n(words(output@)[2]), '.');
    assert(texts(parts@) == all);
    if parts.len() < 2 {
        return None;
    }
    assert(all[0] == parts@[0]@ && all[1] == parts@[1]@);
    let major = parse_up_to(parts[0].as_str(), u32::MAX as u64);
    let tail = chars_of(parts[1].as_str());
    let mut end: usize = tail.len();
    assert(tail@.subrange(0, end as int) =~= tail@);
    while end > 0 && !('0' <= tail[end - 1] && tail[end - 1] <= '9')
        invariant
            end <= tail@.len(),
            to_last_digit(tail@) == to_last_digit(tail@.subrange(0, end as int)),
        decreases end,
    {
        assert(tail@.subrange(0, end as int).drop_last() =~= tail@.subrange(0, end - 1));
        end = end - 1;
    }
    let minor = parse_up_to(slice_text(&tail, 0, end).as_str(), u32::MAX as u64);
    match (major, minor) {
        (Some(a), Some(b)) => Some((a as u32, b as u32)),
        _ => None,
    }
}

/// The arguments that decrypt a file in the portable format.
pub open spec fn aaxc_args(
    tool: ToolView,
    input: Seq<char>,
    key: Seq<char>,
    iv: Seq<char>,
    out: Seq<char>,
) -> Seq<Seq<char>> {
    match tool {
        ToolView::Aaxclean(_) => seq![
            "-f"@,
            input,
            "--audible_key"@,
            key,
            "--audible_iv"@,
            iv,
            "--moov_faststart"@,
            "-o"@,
            out,
        ],
        ToolView::Ffmpeg(_) => seq![
            "-y"@,
            "-nostdin"@,
            "-loglevel"@,
            "error"@,
            "-audible_key"@,
            key,
            "-audible_iv"@,
            iv,
            "-i"@,
            input,
            "-c"@,
            "copy"@,
            "-map_metadata"@,
            "0"@,
            "-movflags"@,
            "+faststart"@,
            out,
        ],
    }
}

/// The arguments that decrypt a Widevine file.
pub open spec fn cenc_args(
    tool: ToolView,
    input: Seq<char>,
    kid: Seq<char>,
    key: Seq<char>,
    out: Seq<char>,
) -> Seq<Seq<char>> {
    match tool {
        ToolView::Aaxclean(_) => seq![
            "-f"@,
            input,
            "--encryption_kid"@,
            kid,
            "--encryption_key"@,
            key,
            "--moov_faststart"@,
            "-o"@,
            out,
        ],
        ToolView::Ffmpeg(_) => seq![
            "-y"@,
            "-nostdin"@,
            "-loglevel"@,
            "error"@,
            "-decryption_key"@,
            key,
            "-i"@,
            input,
            "-c"@,
            "copy"@,
            "-map_metadata"@,
            "0"@,
            "-movflags"@,
            "+faststart"@,
            out,
        ],
    }
}

/// The arguments that make a tool decrypt a file in the portable format into a
/// playable one that can be streamed.
pub fn run_args(tool: &Tool, aaxc: &str, key: &str, iv: &str, out: &str) -> (args: Vec<String>)
    ensures
        texts(args@) == aaxc_args(tool@, aaxc@, key@, iv@, out@),
{
    let args: Vec<String> = match tool {
        Tool::Aaxclean(_) => vec![
            String::from_str("-f"),
            String::from_str(aaxc),
            String::from_str("--audible_key"),
            String::from_str(key),
            String::from_str("--audible_iv"),
            String::from_str(iv),
            String::from_str("--moov_faststart"),
            String::from_str("-o"),
            String::from_str(out),
        ],
        Tool::Ffmpeg(_) => vec![
            String::from_str("-y"),
            String::from_str("-nostdin"),
            String::from_str("-loglevel"),
            String::from_str("error"),
            String::from_str("-audible_key"),
            String::from_str(key),
            String::from_str("-audible_iv"),
            String::from_str(iv),
            String::from_str("-i"),
            String::from_str(aaxc),
            String::from_str("-c"),
            String::from_str("copy"),
            String::from_str("-map_metadata"),
            String::from_str("0"),
            String::from_str("-movflags"),
            String::from_str("+faststart"),
            String::from_str(out),
        ],
    };
    assert(texts(args@) =~= aaxc_args(tool@, aaxc@, key@, iv@, out@));
    args
}

/// The arguments that make a tool decrypt a Widevine file.
pub fn run_cenc_args(tool: &Tool, input: &str, kid: &str, key: &str, out: &str) -> (args: Vec<
    String,
>)
    ensures
        texts(args@) == cenc_args(tool@, input@, kid@, key@, out@),
{
    let args: Vec<String> = match tool {
        Tool::Aaxclean(_) => vec![
            String::from_str("-f"),
            String::from_str(input),
            String::from_str("--encryption_kid"),
            String::from_str(kid),
            String::from_str("--encryption_key"),
            String::from_str(key),
            String::from_str("--moov_faststart"),
            String::from_str("-o"),
            String::from_str(out),
        ],
        Tool::Ffmpeg(_) => vec![
            String::from_str("-y"),
            String::from_str("-nostdin"),
            String::from_str("-loglevel"),
            String::from_str("error"),
            String::from_str("-decryption_key"),
            String::from_str(key),
            String::from_str("-i"),
            String::from_str(input),
            String::from_str("-c"),
            String::from_str("copy"),
            String::from_str("-map_metadata"),
            String::from_str("0"),
            String::from_str("-movflags"),
            String::from_str("+faststart"),
            String::from_str(out),
        ],
    };
    assert(texts(args@) =~= cenc_args(tool@, input@, kid@, key@, out@));
    args
}

/// A line without the carriage return at its end.
pub open spec fn without_return(s: Seq<char>) -> Seq<char> {
    if s.len() > 0 && s.last() == '\r' {
        s.drop_last()
    } else {
        s
    }
}

/// The lines of a text; what follows the last line end is a line where it is
/// not empty.
pub open spec fn lines(s: Seq<char>) -> Seq<Seq<char>> {
    let parts = split_all(s, '\n');
    let ended = parts.drop_last().map_values(|part: Seq<char>| without_return(part));
    if parts.last().len() == 0 {
        ended
    } else {
        ended.push(parts.last())
    }
}

fn split_lines(text: &str) -> (list: Vec<String>)
    ensures
        texts(list@) == lines(text@),
{
    let parts = split(text, '\n');
    let ghost all = texts(parts@);
    proof {
        crate::paths::lemma_split_parts(text@, '\n');
    }
    let last: usize = parts.len() - 1;
    let mut list: Vec<String> = Vec::new();
    let ghost ended = all.drop_last().map_values(|part: Seq<char>| without_return(part));
    let mut i: usize = 0;
    while i < last
        invariant
            i <= last,
            last == parts@.len() - 1,
            all == texts(parts@),
            ended == all.drop_last().map_values(|part: Seq<char>| without_return(part)),
            texts(list@).len() == i,
            forall|k: int| 0 <= k < i ==> #[trigger] texts(list@)[k] == ended[k],
        decreases last - i,
    {
        let chars = chars_of(parts[i].as_str());
        let end: usize = if chars.len() > 0 && chars[chars.len() - 1] == '\r' {
            chars.len() - 1
        } else {
            chars.len()
        };
        let line = slice_text(&chars, 0, end);
        assert(line@ =~= without_return(parts@[i as int]@));
        push_text(&mut list, line);
        i = i + 1;
    }
    assert(texts(list@) =~= ended);
    assert(all.last() == parts@[last as int]@);
    if !parts[last].as_str().is_empty() {
        push_text(&mut list, parts[last].clone());
    }
    list
}

/// The detail of a failure: the first lines of what went to the error stream,
/// or else of what went to the other.
pub open spec fn error_detail(stderr: Seq<char>, stdout: Seq<char>) -> Seq<char> {
    let source = if stderr.len() == 0 {
        stdout
    } else {
        stderr
    };
    if source.len() == 0 {
        Seq::empty()
    } else {
        ": "@ + joined(
            if lines(source).len() > 3 {
                lines(source).subrange(0, 3)
            } else {
                lines(source)
            },
            "; "@,
        )
    }
}

/// Picks a short detail of a failure.
pub fn pick_error(stderr: &str, stdout: &str) -> (detail: String)
    ensures
        detail@ == error_detail(stderr@, stdout@),
{
    let source = if stderr.is_empty() {
        stdout
    } else {
        stderr
    };
    if source.is_empty() {
        return empty_text();
    }
    let mut brief = split_lines(source);
    let ghost all = texts(brief@);
    if brief.len() > 3 {
        brief.truncate(3);
        assert(texts(brief@) =~= all.subrange(0, 3));
    }
    cat2(": ", join(&brief, "; ").as_str())
}

/// A recorded audio file, and whether it is still there.
#[derive(Debug)]
pub struct AudioRecord {
    /// Where it was put.
    pub file_path: String,
    /// Its format.
    pub content_format: String,
    /// The request that it answers.
    pub request_kind: String,
    /// Whether the file is there.
    pub on_disk: bool,
}

/// The record to decrypt from: the first in the portable format that is there,
/// or else the first that is there.
pub open spec fn is_source(records: Seq<AudioRecord>, i: int) -> bool {
    &&& 0 <= i < records.len()
    &&& records[i].on_disk
    &&& if exists|k: int| 0 <= k < records.len() && #[trigger] is_good(records[k]) {
        is_good(records[i]) && forall|k: int| 0 <= k < i ==> !is_good(#[trigger] records[k])
    } else {
        forall|k: int| 0 <= k < i ==> !(#[trigger] records[k]).on_disk
    }
}

/// Whether a record is of a file in the portable format that is there.
pub open spec fn is_good(record: AudioRecord) -> bool {
    record.on_disk && ends(record.file_path@, ".aaxc"@)
}

/// Finds the record to decrypt from.
pub fn first_on_disk(records: &Vec<AudioRecord>) -> (found: Option<usize>)
    ensures
        match found {
            Some(i) => is_source(records@, i as int),
            None => forall|k: int| 0 <= k < records@.len() ==> !(#[trigger] records@[k]).on_disk,
        },
{
    let mut fallback: Option<usize> = None;
    let mut i: usize = 0;
    while i < records.len()
        invariant
            i <= records@.len(),
            forall|k: int| 0 <= k < i ==> !is_good(#[trigger] records@[k]),
            match fallback {
                Some(f) => f < i && records@[f as int].on_disk && forall|k: int|
                    0 <= k < f ==> !(#[trigger] records@[k]).on_disk,
                None => forall|k: int| 0 <= k < i ==> !(#[trigger] records@[k]).on_disk,
            },
        decreases records.len() - i,
    {
        if records[i].on_disk {
            if ends_with(records[i].file_path.as_str(), ".aaxc") {
                assert(is_good(records@[i as int]));
                return Some(i);
            }
            if fallback.is_none() {
                fallback = Some(i);
            }
        }
        i = i + 1;
    }
    fallback
}

/// The format in the name of an audio file, `<base>.<format>.<extension>`;
/// empty where there is none.
pub open spec fn format_in(path: Seq<char>) -> Seq<char> {
    let inner = without_tail(path);
    let stem = match extension_dot(path) {
        Some(dot) => inner.subrange(last_at(inner, '/') + 1, dot),
        None => last_segment(inner),
    };
    let dot = last_at(stem, '.');
    if dot >= 0 {
        stem.subrange(dot + 1, stem.len() as int)
    } else {
        Seq::empty()
    }
}

/// Reads the format out of the name of an audio file.
pub fn aaxc_format(audio: &str) -> (format: String)
    ensures
        format@ == format_in(audio@),
{
    let inner = strip_tail(audio);
    let chars = chars_of(inner.as_str());
    let len: usize = chars.len();
    let start: usize = match find_last(&chars, '/') {
        Some(i) => i + 1,
        None => 0,
    };
    proof {
        crate::text::lemma_last_at(last_segment(inner@), '.');
    }
    let end: usize = match find_extension(&chars_of(audio)) {
        Some(dot) => dot,
        None => len,
    };
    let stem = chars_of(slice_text(&chars, start, end).as_str());
    let stem_len: usize = stem.len();
    match find_last(&stem, '.') {
        Some(dot) => slice_text(&stem, dot + 1, stem_len),
        None => empty_text(),
    }
}

/// The names under which a program may lie in a directory of the search path:
/// its bare name.
pub fn executable_candidates(dir: &str, name: &str) -> (paths: Vec<String>)
    ensures
        texts(paths@) == seq![joined_path(dir@, name@)],
{
    let mut paths: Vec<String> = Vec::new();
    push_text(&mut paths, join_path(dir, name));
    assert(texts(paths@) =~= seq![joined_path(dir@, name@)]);
    paths
}

/// A name in a directory, in the way of Windows.
pub open spec fn windows_path(dir: Seq<char>, name: Seq<char>) -> Seq<char> {
    if dir.len() == 0 || dir.last() == '\\' || dir.last() == '/' {
        dir + name
    } else {
        dir + "\\"@ + name
    }
}

/// The names with each extension that is not empty.
pub open spec fn with_extensions(dir: Seq<char>, name: Seq<char>, list: Seq<Seq<char>>) -> Seq<
    Seq<char>,
>
    decreases list.len(),
{
    if list.len() == 0 {
        Seq::empty()
    } else if list.last().len() == 0 {
        with_extensions(dir, name, list.drop_last())
    } else {
        with_extensions(dir, name, list.drop_last()).push(windows_path(dir, name + list.last()))
    }
}

/// The names under which a program may lie in a directory of the search path on
/// Windows: with each extension of a program, or as it is where it has one.
pub open spec fn windows_names(dir: Seq<char>, name: Seq<char>, extensions: Option<Seq<char>>) -> Seq<
    Seq<char>,
> {
    if extension_dot(name) is Some {
        seq![windows_path(dir, name)]
    } else {
        with_extensions(
            dir,
            name,
            split_all(
                match extensions {
                    Some(list) => list,
                    None => ".COM;.EXE;.BAT;.CMD"@,
                },
                ';',
            ),
        )
    }
}

fn join_windows(dir: &str, name: &str) -> (path: String)
    ensures
        path@ == windows_path(dir@, name@),
{
    let chars = chars_of(dir);
    if chars.len() == 0 || chars[chars.len() - 1] == '\\' || chars[chars.len() - 1] == '/' {
        cat2(dir, name)
    } else {
        cat3(dir, "\\", name)
    }
}

/// The names under which a program may lie in a directory of the search path on
/// Windows; `extensions` is what the environment says of them.
pub fn windows_candidates(dir: &str, name: &str, extensions: Option<&str>) -> (paths: Vec<String>)
    ensures
        texts(paths@) == windows_names(dir@, name@, opt_str(extensions)),
{
    let mut paths: Vec<String> = Vec::new();
    if find_extension(&chars_of(name)).is_some() {
        push_text(&mut paths, join_windows(dir, name));
        assert(texts(paths@) =~= seq![windows_path(dir@, name@)]);
        return paths;
    }
    let list = split(
        match extensions {
            Some(list) => list,
            None => ".COM;.EXE;.BAT;.CMD",
        },
        ';',
    );
    let ghost all = texts(list@);
    let mut i: usize = 0;
    assert(texts(paths@) =~= with_extensions(dir@, name@, all.subrange(0, 0)));
    while i < list.len()
        invariant
            i <= list@.len(),
            all == texts(list@),
            texts(paths@) == with_extensions(dir@, name@, all.subrange(0, i as int)),
        decreases list.len() - i,
    {
        assert(all.subrange(0, i + 1).drop_last() =~= all.subrange(0, i as int));
        assert(all.subrange(0, i + 1).last() == list@[i as int]@);
        if !list[i].as_str().is_empty() {
            push_text(&mut paths, join_windows(dir, cat2(name, list[i].as_str()).as_str()));
        }
        i = i + 1;
    }
    assert(all.subrange(0, i as int) =~= all);
    paths
}

/// The file that a decrypting step works on.
#[derive(Debug)]
pub struct DecryptSource {
    /// The audio file.
    pub audio: String,
    /// The request that it answers.
    pub request_kind: String,
    /// Its format as recorded; nothing for a file of this run.
    pub recorded_format: Option<String>,
}

/// The file to decrypt, with the kind of its request and, where it is a recorded one,
/// its format.
pub open spec fn source_of(
    downloaded: Option<Seq<char>>,
    request_kind: Seq<char>,
    recorded: Option<&AudioRecord>,
    no_db_write: bool,
) -> Option<(Seq<char>, Seq<char>, Option<Seq<char>>)> {
    match (downloaded, recorded) {
        (Some(path), _) => Some((path, request_kind, None)),
        (None, Some(record)) => if no_db_write {
            None
        } else {
            Some((record.file_path@, record.request_kind@, Some(record.content_format@)))
        },
        (None, None) => None,
    }
}

/// Finds the file to decrypt: what this run downloaded, or else what is
/// recorded. A run that leaves no trace never goes by the records, which point
/// into the managed tree.
pub fn decrypt_source(
    downloaded: Option<&str>,
    request_kind: &str,
    recorded: Option<&AudioRecord>,
    no_db_write: bool,
) -> (source: Option<DecryptSource>)
    ensures
        match source {
            Some(s) => source_of(opt_str(downloaded), request_kind@, recorded, no_db_write) == Some(
                (s.audio@, s.request_kind@, opt_text(s.recorded_format)),
            ),
            None => source_of(opt_str(downloaded), request_kind@, recorded, no_db_write) is None,
        },
{
    match (downloaded, recorded) {
        (Some(path), _) => Some(
            DecryptSource {
                audio: String::from_str(path),
                request_kind: String::from_str(request_kind),
                recorded_format: None,
            },
        ),
        (None, Some(record)) => {
            if no_db_write {
                None
            } else {
                Some(
                    DecryptSource {
                        audio: record.file_path.clone(),
                        request_kind: record.request_kind.clone(),
                        recorded_format: Some(record.content_format.clone()),
                    },
                )
            }
        },
        (None, None) => None,
    }
}

/// The format of a file that is decrypted: the recorded one, or that of the license,
/// or the one in its name.
pub open spec fn format_for(
    audio: Seq<char>,
    recorded: Option<Seq<char>>,
    license_format: Option<Seq<char>>,
) -> Seq<char> {
    match recorded {
        Some(format) => format,
        None => match license_format {
            Some(given) => given,
            None => format_in(audio),
        },
    }
}

/// The format under which a decrypted file is recorded: that of the record, or
/// of the license of this run, or the one in the file's name.
pub fn decrypt_format(source: &DecryptSource, license_format: Option<&str>) -> (format: String)
    ensures
        format@ == format_for(source.audio@, opt_text(source.recorded_format), opt_str(license_format)),
{
    match &source.recorded_format {
        Some(recorded) => recorded.clone(),
        None => match license_format {
            Some(given) => String::from_str(given),
            None => aaxc_format(source.audio.as_str()),
        },
    }
}

/// What is to be done about a file that was to be decrypted.
#[derive(Clone, Copy, Debug, PartialEq, Eq, Structural)]
pub enum DecryptStep {
    /// It is not there.
    NotOnDisk,
    /// It plays as it is.
    Playable,
    /// It is of a kind that is not decrypted.
    Ignored,
    /// Its format was decrypted before.
    AlreadyDecrypted,
    /// Its key is not there.
    NoKey,
    /// It is decrypted.
    Decrypt,
}

/// What is to be done about a file that was to be decrypted.
pub open spec fn step_for(
    audio: Seq<char>,
    on_disk: bool,
    heed: bool,
    decrypted: bool,
    key: bool,
) -> DecryptStep {
    if !on_disk {
        DecryptStep::NotOnDisk
    } else if extension_of(audio) == "aaxc"@ {
        if heed && decrypted {
            DecryptStep::AlreadyDecrypted
        } else if !key {
            DecryptStep::NoKey
        } else {
            DecryptStep::Decrypt
        }
    } else if extension_of(audio) == "mp3"@ || extension_of(audio) == "m4a"@ {
        DecryptStep::Playable
    } else {
        DecryptStep::Ignored
    }
}

/// Decides about a file that was to be decrypted: by its extension, and for one
/// in the portable format by whether it was decrypted before, which `heed`
/// says to look at, and whether its key is there.
pub fn decrypt_step(audio: &str, on_disk: bool, heed: bool, decrypted: bool, key: bool) -> (step: DecryptStep)
    ensures
        step == step_for(audio@, on_disk, heed, decrypted, key),
{
    if !on_disk {
        return DecryptStep::NotOnDisk;
    }
    let ext = extension(audio);
    if same(ext.as_str(), "aaxc") {
        if heed && decrypted {
            DecryptStep::AlreadyDecrypted
        } else if !key {
            DecryptStep::NoKey
        } else {
            DecryptStep::Decrypt
        }
    } else if same(ext.as_str(), "mp3") || same(ext.as_str(), "m4a") {
        DecryptStep::Playable
    } else {
        DecryptStep::Ignored
    }
}

/// The places where a tool is looked for, in this order: where the environment
/// names one, there and nowhere else; otherwise in each directory of the search
/// path.
pub open spec fn places_of(named: Option<Seq<char>>, dirs: Seq<Seq<char>>, name: Seq<char>) -> Seq<
    Seq<char>,
> {
    match named {
        Some(path) => seq![path],
        None => dirs.map_values(|dir: Seq<char>| joined_path(dir, name)),
    }
}

/// The places where a tool is looked for.
pub fn tool_path(named: Option<&str>, dirs: &Vec<String>, name: &str) -> (places: Vec<String>)
    ensures
        texts(places@) == places_of(opt_str(named), texts(dirs@), name@),
{
    let mut places: Vec<String> = Vec::new();
    if let Some(path) = named {
        push_text(&mut places, String::from_str(path));
        assert(texts(places@) =~= seq![path@]);
        return places;
    }
    let ghost want = texts(dirs@).map_values(|dir: Seq<char>| joined_path(dir, name@));
    let mut i: usize = 0;
    assert(texts(places@) =~= want.subrange(0, 0));
    while i < dirs.len()
        invariant
            i <= dirs@.len(),
            want == texts(dirs@).map_values(|dir: Seq<char>| joined_path(dir, name@)),
            texts(places@) == want.subrange(0, i as int),
        decreases dirs.len() - i,
    {
        push_text(&mut places, join_path(dirs[i].as_str(), name));
        i = i + 1;
        assert(texts(places@) =~= want.subrange(0, i as int));
    }
    assert(want.subrange(0, i as int) =~= want);
    places
}

/// A path with another extension in place of its own.
pub open spec fn with_extension(path: Seq<char>, ext: Seq<char>) -> Seq<char> {
    match extension_dot(path) {
        Some(dot) => path.subrange(0, dot) + "."@ + ext,
        None => without_tail(path) + "."@ + ext,
    }
}

/// The files that belong to a file in the portable format: what it is decrypted
/// into, and its key.
pub fn decrypt_paths(audio: &str) -> (paths: (String, String))
    requires
        extension_of(audio@) == "aaxc"@,
    ensures
        paths.0@ == with_extension(audio@, "m4b"@),
        paths.1@ == with_extension(audio@, "voucher"@),
{
    let chars = chars_of(audio);
    let end: usize = match find_extension(&chars) {
        Some(dot) => dot,
        None => find_tail(&chars),
    };
    let stem = slice_text(&chars, 0, end);
    (cat3(stem.as_str(), ".", "m4b"), cat3(stem.as_str(), ".", "voucher"))
}

/// What is said of a file that was not decrypted.
pub open spec fn step_text(
    step: DecryptStep,
    asin: Seq<char>,
    audio: Seq<char>,
    format: Seq<char>,
) -> Option<Seq<char>> {
    match step {
        DecryptStep::NotOnDisk => Some(
            asin + ": cannot decrypt — "@ + audio + " is not on disk (re-run with --kind audio)"@,
        ),
        DecryptStep::Playable => Some(
            asin + ": audio is already a playable "@ + extension_of(audio)
                + " — no decryption needed"@,
        ),
        DecryptStep::AlreadyDecrypted => Some(
            "skipping decrypt — "@ + format + " already decrypted (use --force)"@,
        ),
        DecryptStep::NoKey => Some(
            asin + ": cannot decrypt — no key/iv sidecar at "@ + with_extension(audio, "voucher"@)
                + " (re-run with --kind audio)"@,
        ),
        DecryptStep::Ignored => None,
        DecryptStep::Decrypt => None,
    }
}

/// Tells what is said of a file that was not decrypted.
pub fn decrypt_note(step: DecryptStep, asin: &str, audio: &str, format: &str) -> (note: Option<
    String,
>)
    requires
        step == DecryptStep::NoKey ==> extension_of(audio@) == "aaxc"@,
    ensures
        opt_text(note) == step_text(step, asin@, audio@, format@),
{
    match step {
        DecryptStep::NotOnDisk => Some(
            cat4(
                asin,
                ": cannot decrypt — ",
                audio,
                " is not on disk (re-run with --kind audio)",
            ),
        ),
        DecryptStep::Playable => Some(
            cat4(
                asin,
                ": audio is already a playable ",
                extension(audio).as_str(),
                " — no decryption needed",
            ),
        ),
        DecryptStep::AlreadyDecrypted => Some(
            cat3("skipping decrypt — ", format, " already decrypted (use --force)"),
        ),
        DecryptStep::NoKey => {
            let paths = decrypt_paths(audio);
            Some(
                cat4(
                    asin,
                    ": cannot decrypt — no key/iv sidecar at ",
                    paths.1.as_str(),
                    " (re-run with --kind audio)",
                ),
            )
        },
        DecryptStep::Ignored => None,
        DecryptStep::Decrypt => None,
    }
}

/// The backend that is asked for is the one that is used, where it is there; either
/// will do where none is asked for. ffmpeg serves from version 4.4 on, or where its
/// version cannot be read.
pub proof fn law_the_asked_for_tool_is_used(
    aaxclean: Option<Seq<char>>,
    ffmpeg: Option<Seq<char>>,
    version: Option<(u32, u32)>,
)
    ensures
        aaxclean matches Some(path) ==> selected(
            DecryptBackend::Aaxclean,
            aaxclean,
            ffmpeg,
            version,
        ) == Ok::<ToolView, ToolError>(ToolView::Aaxclean(path)),
        selected(DecryptBackend::Aaxclean, aaxclean, ffmpeg, version) is Ok ==> aaxclean is Some,
        ffmpeg matches Some(path) ==> (version is None || version->Some_0.0 > 4 || (
        version->Some_0.0 == 4 && version->Some_0.1 >= 4)) ==> selected(
            DecryptBackend::Ffmpeg,
            aaxclean,
            ffmpeg,
            version,
        ) == Ok::<ToolView, ToolError>(ToolView::Ffmpeg(path)),
        selected(DecryptBackend::Ffmpeg, aaxclean, ffmpeg, version) matches Ok(tool) ==> ffmpeg
            == Some(tool->Ffmpeg_0) && (version is None || version->Some_0.0 > 4 || (
        version->Some_0.0 == 4 && version->Some_0.1 >= 4)),
        aaxclean is Some ==> selected(DecryptBackend::Auto, aaxclean, ffmpeg, version) == selected(
            DecryptBackend::Aaxclean,
            aaxclean,
            ffmpeg,
            version,
        ),
        aaxclean is None && ffmpeg is Some ==> selected(
            DecryptBackend::Auto,
            aaxclean,
            ffmpeg,
            version,
        ) == selected(DecryptBackend::Ffmpeg, aaxclean, ffmpeg, version),
        aaxclean is None && ffmpeg is None ==> selected(
            DecryptBackend::Auto,
            aaxclean,
            ffmpeg,
            version,
        ) == Err::<ToolView, ToolError>(ToolError::NoTool),
{
}

/// Whether one argument stands right behind another.
pub open spec fn gives(args: Seq<Seq<char>>, flag: Seq<char>, value: Seq<char>) -> bool {
    exists|i: int| 0 <= i < args.len() - 1 && #[trigger] args[i] == flag && args[i + 1] == value
}

/// Every tool is handed the file that it decrypts, the key, what goes with the key,
/// and the file that it writes, each behind its own flag.
pub proof fn law_tools_get_key_and_files(
    path: Seq<char>,
    input: Seq<char>,
    key: Seq<char>,
    iv: Seq<char>,
    out: Seq<char>,
)
    ensures
        ({
            let clean = aaxc_args(ToolView::Aaxclean(path), input, key, iv, out);
            let cenc = cenc_args(ToolView::Aaxclean(path), input, iv, key, out);
            let ffmpeg = aaxc_args(ToolView::Ffmpeg(path), input, key, iv, out);
            let stream = cenc_args(ToolView::Ffmpeg(path), input, iv, key, out);
            &&& gives(clean, "-f"@, input) && gives(clean, "--audible_key"@, key) && gives(
                clean,
                "--audible_iv"@,
                iv,
            ) && gives(clean, "-o"@, out)
            &&& gives(cenc, "-f"@, input) && gives(cenc, "--encryption_kid"@, iv) && gives(
                cenc,
                "--encryption_key"@,
                key,
            ) && gives(cenc, "-o"@, out)
            &&& gives(ffmpeg, "-i"@, input) && gives(ffmpeg, "-audible_key"@, key) && gives(
                ffmpeg,
                "-audible_iv"@,
                iv,
            ) && ffmpeg.last() == out && gives(ffmpeg, "-c"@, "copy"@)
            &&& gives(stream, "-i"@, input) && gives(stream, "-decryption_key"@, key)
                && stream.last() == out && gives(stream, "-c"@, "copy"@)
        }),
{
    let clean = aaxc_args(ToolView::Aaxclean(path), input, key, iv, out);
    let cenc = cenc_args(ToolView::Aaxclean(path), input, iv, key, out);
    let ffmpeg = aaxc_args(ToolView::Ffmpeg(path), input, key, iv, out);
    let stream = cenc_args(ToolView::Ffmpeg(path), input, iv, key, out);
    assert(clean[0] == "-f"@ && clean[2] == "--audible_key"@ && clean[4] == "--audible_iv"@
        && clean[7] == "-o"@);
    assert(cenc[0] == "-f"@ && cenc[2] == "--encryption_kid"@ && cenc[4] == "--encryption_key"@
        && cenc[7] == "-o"@);
    assert(ffmpeg[4] == "-audible_key"@ && ffmpeg[6] == "-audible_iv"@ && ffmpeg[8] == "-i"@
        && ffmpeg[10] == "-c"@);
    assert(stream[4] == "-decryption_key"@ && stream[6] == "-i"@ && stream[8] == "-c"@);
}

/// A file is decrypted from wherever one is there: a file in the portable format is
/// preferred, and of several the first.
pub proof fn law_sources_are_there(records: Seq<AudioRecord>, i: int)
    ensures
        is_source(records, i) ==> records[i].on_disk && 0 <= i < records.len(),
        is_source(records, i) && !ends(records[i].file_path@, ".aaxc"@) ==> forall|k: int|
            0 <= k < records.len() && (#[trigger] records[k]).on_disk ==> !ends(
                records[k].file_path@,
                ".aaxc"@,
            ),
        is_source(records, i) ==> forall|k: int|
            0 <= k < i && (#[trigger] records[k]).on_disk ==> ends(records[i].file_path@, ".aaxc"@)
                && !ends(records[k].file_path@, ".aaxc"@),
{
    if is_source(records, i) {
        assert forall|k: int| 0 <= k < records.len() && (#[trigger] records[k]).on_disk && !ends(
            records[i].file_path@,
            ".aaxc"@,
        ) implies !ends(records[k].file_path@, ".aaxc"@) by {
            if ends(records[k].file_path@, ".aaxc"@) {
                assert(is_good(records[k]));
            }
        }
        assert forall|k: int| 0 <= k < i && (#[trigger] records[k]).on_disk implies ends(
            records[i].file_path@,
            ".aaxc"@,
        ) && !ends(records[k].file_path@, ".aaxc"@) by {
            if exists|m: int| 0 <= m < records.len() && #[trigger] is_good(records[m]) {
                assert(!is_good(records[k]));
            }
        }
    }
}

/// Of a failure the first three lines are told, of the error stream where it has
/// any, and else of the other one.
pub proof fn law_failures_are_told_from_the_error_stream(stderr: Seq<char>, stdout: Seq<char>)
    ensures
        stderr.len() > 0 ==> error_detail(stderr, stdout) == error_detail(stderr, Seq::empty()),
        error_detail(Seq::empty(), stdout) == error_detail(stdout, Seq::empty()),
        error_detail(Seq::empty(), Seq::empty()).len() == 0,
        stderr.len() > 0 && lines(stderr).len() <= 3 ==> error_detail(stderr, stdout) == ": "@
            + joined(lines(stderr), "; "@),
        stderr.len() > 0 && lines(stderr).len() > 3 ==> error_detail(stderr, stdout) == ": "@
            + joined(seq![lines(stderr)[0], lines(stderr)[1], lines(stderr)[2]], "; "@),
{
    if lines(stderr).len() > 3 {
        assert(lines(stderr).subrange(0, 3) =~= seq![
            lines(stderr)[0],
            lines(stderr)[1],
            lines(stderr)[2],
        ]);
    }
}

/// A tool that the environment names is looked for there and nowhere else; any
/// other is looked for in every directory of the search path, in its order.
pub proof fn law_tools_are_looked_for_in_every_place(
    path: Seq<char>,
    dirs: Seq<Seq<char>>,
    name: Seq<char>,
    i: int,
)
    ensures
        places_of(Some(path), dirs, name) == seq![path],
        places_of(None, dirs, name).len() == dirs.len(),
        0 <= i < dirs.len() ==> places_of(None, dirs, name)[i] == joined_path(dirs[i], name),
{
}

/// What decrypting makes of a file, and the key that it takes, lie beside the
/// file: under its name with another extension in place of its own.
pub proof fn law_decrypted_files_lie_beside(stem: Seq<char>, old: Seq<char>, ext: Seq<char>)
    requires
        stem.len() > 0,
        stem.last() != '/',
        old.len() > 0,
        !old.contains('.'),
        !old.contains('/'),
    ensures
        with_extension(stem + "."@ + old, ext) == stem + "."@ + ext,
{
    crate::paths::law_extensions_stand_behind_the_last_dot(stem, old);
    assert((stem + "."@ + old).subrange(0, stem.len() as int) =~= stem);
}

/// Something is said of every file that was to be decrypted and was not, but for
/// one that is of no concern.
pub proof fn law_undecrypted_files_are_told_of(
    step: DecryptStep,
    asin: Seq<char>,
    audio: Seq<char>,
    format: Seq<char>,
)
    ensures
        step_text(step, asin, audio, format) is None <==> step is Ignored || step is Decrypt,
        step is NotOnDisk ==> step_text(step, asin, audio, format) == Some(
            asin + ": cannot decrypt — "@ + audio
                + " is not on disk (re-run with --kind audio)"@,
        ),
        step is AlreadyDecrypted ==> step_text(step, asin, audio, format) == Some(
            "skipping decrypt — "@ + format + " already decrypted (use --force)"@,
        ),
{
}

/// The version of ffmpeg is the third word of what it says, up to its second part.
pub proof fn law_versions_are_read(s: Seq<char>, major: Seq<char>, minor: Seq<char>)
    requires
        words(s).len() >= 3,
        without_n(words(s)[2]) == major + seq!['.'] + minor,
        !major.contains('.'),
        !minor.contains('.'),
    ensures
        version_in(s) == match (
            unsigned_value(major, u32::MAX as int),
            unsigned_value(to_last_digit(minor), u32::MAX as int),
        ) {
            (Some(a), Some(b)) => Some((a as u32, b as u32)),
            _ => None,
        },
{
    crate::paths::lemma_split_concat(major, minor, '.');
    assert forall|k: int| 0 <= k < major.len() implies major[k] != '.' by {
        assert(major.contains(major[k]));
    }
    assert forall|k: int| 0 <= k < minor.len() implies minor[k] != '.' by {
        assert(minor.contains(minor[k]));
    }
    crate::text::lemma_first_at_is(major, '.', major.len() as int);
    crate::text::lemma_first_at_is(minor, '.', minor.len() as int);
    let parts = split_all(without_n(words(s)[2]), '.');
    assert(parts =~= seq![major, minor]);
}

/// A file is decrypted exactly where it is there, is in the portable format, has its
/// key, and was not decrypted before, unless that is not to be heeded.
pub proof fn law_files_are_decrypted_where_they_can_be(
    stem: Seq<char>,
    ext: Seq<char>,
    on_disk: bool,
    heed: bool,
    decrypted: bool,
    key: bool,
)
    requires
        stem.len() > 0,
        stem.last() != '/',
        ext.len() > 0,
        !ext.contains('.'),
        !ext.contains('/'),
    ensures
        ({
            let step = step_for(stem + "."@ + ext, on_disk, heed, decrypted, key);
            &&& step is Decrypt <==> on_disk && ext == "aaxc"@ && key && !(heed && decrypted)
            &&& step is NotOnDisk <==> !on_disk
            &&& step is AlreadyDecrypted <==> on_disk && ext == "aaxc"@ && heed && decrypted
            &&& step is NoKey <==> on_disk && ext == "aaxc"@ && !key && !(heed && decrypted)
            &&& step is Playable <==> on_disk && (ext == "mp3"@ || ext == "m4a"@)
        }),
{
    crate::paths::law_extensions_stand_behind_the_last_dot(stem, ext);
    reveal_strlit("aaxc");
    reveal_strlit("mp3");
    reveal_strlit("m4a");
    assert("aaxc"@.len() == 4);
    assert("mp3"@.len() == 3);
    assert("m4a"@.len() == 3);
}

/// The format of a decrypted file is the recorded one where there is a record, else
/// the one that the license names, else the one in its name.
pub proof fn law_formats_come_from_the_record_first(
    audio: Seq<char>,
    recorded: Seq<char>,
    license: Seq<char>,
    any: Option<Seq<char>>,
)
    ensures
        format_for(audio, Some(recorded), any) == recorded,
        format_for(audio, None, Some(license)) == license,
        format_for(audio, None, None) == format_in(audio),
{
}

/// The format in the name of an audio file stands between its last two dots.
pub proof fn law_formats_stand_before_the_extension(
    base: Seq<char>,
    format: Seq<char>,
    ext: Seq<char>,
)
    requires
        format.len() > 0,
        !format.contains('.'),
        !format.contains('/'),
        ext.len() > 0,
        !ext.contains('.'),
        !ext.contains('/'),
    ensures
        format_in(base + "."@ + format + "."@ + ext) == format,
{
    reveal_strlit(".");
    let stem = base + "."@ + format;
    let path = stem + "."@ + ext;
    assert forall|k: int| 0 <= k < format.len() implies format[k] != '.' && format[k] != '/' by {
        assert(format.contains(format[k]));
    }
    assert forall|k: int| 0 <= k < ext.len() implies ext[k] != '.' && ext[k] != '/' by {
        assert(ext.contains(ext[k]));
    }
    assert(stem.last() == format.last());
    crate::paths::law_extensions_stand_behind_the_last_dot(stem, ext);
    assert(path.last() == ext.last());
    assert(without_tail(path) == path);
    crate::text::lemma_last_at(base, '/');
    let slash = last_at(base, '/');
    assert forall|k: int| slash < k < path.len() implies path[k] != '/' by {
        if k < base.len() {
            assert(path[k] == base[k]);
        } else if base.len() < k < stem.len() {
            assert(path[k] == format[k - base.len() - 1]);
        } else if k > stem.len() {
            assert(path[k] == ext[k - stem.len() - 1]);
        }
    }
    crate::text::lemma_last_at_is(path, '/', slash);
    let name = path.subrange(slash + 1, stem.len() as int);
    let dot = base.len() - slash - 1;
    assert(name[dot] == '.');
    assert forall|k: int| dot < k < name.len() implies name[k] != '.' by {
        assert(name[k] == format[k - dot - 1]);
    }
    crate::text::lemma_last_at_is(name, '.', dot);
    assert(name.subrange(dot + 1, name.len() as int) =~= format);
}

/// What this run downloaded is decrypted before anything that is recorded, under the kind
/// of its own request; a recorded file under what its record says. A run that leaves no
/// trace never goes by the records.
pub proof fn law_downloaded_files_are_decrypted_first(
    path: Seq<char>,
    kind: Seq<char>,
    record: AudioRecord,
    any: Option<&AudioRecord>,
    no_db_write: bool,
)
    ensures
        source_of(Some(path), kind, any, no_db_write) == Some((path, kind, None::<Seq<char>>)),
        source_of(None, kind, Some(&record), false) == Some(
            (record.file_path@, record.request_kind@, Some(record.content_format@)),
        ),
        source_of(None, kind, any, true) is None,
        source_of(None, kind, None, no_db_write) is None,
{
}

/// On Windows a program is looked for under its name with each extension of a program,
/// in order, or under its name alone where it has an extension.
pub proof fn law_windows_programs_are_looked_for_by_extension(
    dir: Seq<char>,
    name: Seq<char>,
    list: Seq<Seq<char>>,
    ext: Seq<char>,
    extensions: Seq<char>,
)
    ensures
        with_extensions(dir, name, list.push(ext)) == if ext.len() == 0 {
            with_extensions(dir, name, list)
        } else {
            with_extensions(dir, name, list).push(windows_path(dir, name + ext))
        },
        with_extensions(dir, name, Seq::empty()).len() == 0,
        extension_dot(name) is Some ==> windows_names(dir, name, Some(extensions)) == seq![
            windows_path(dir, name),
        ],
        extension_dot(name) is None ==> windows_names(dir, name, Some(extensions))
            == with_extensions(dir, name, split_all(extensions, ';')),
        extension_dot(name) is None ==> windows_names(dir, name, None) == windows_names(
            dir,
            name,
            Some(".COM;.EXE;.BAT;.CMD"@),
        ),
        dir.len() > 0 && dir.last() != '\\' && dir.last() != '/' ==> windows_path(dir, name) == dir
            + "\\"@ + name,
{
    assert(list.push(ext).drop_last() =~= list);
}

} // verus!
