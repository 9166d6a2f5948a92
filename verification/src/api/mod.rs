//! Raw calls against the API: how a request is composed, checked and shown.

use vstd::prelude::*;
use vstd::string::StringExecFns;
use crate::text::chars_of;
use crate::text::find_first;
use crate::text::first_at;
use crate::text::is_digit;
use crate::text::lemma_first_at;
use crate::text::lemma_first_at_is;
use crate::text::same;
use crate::text::slice_text;
use crate::text::split_once;
use crate::text::split_once_spec;

pub mod error;
pub mod http;
pub mod query;
pub mod request;
pub mod request_file;

verus! {

/// How a request is authenticated.
#[derive(Clone, Copy, Debug, PartialEq, Eq, Structural)]
pub enum AuthMode {
    /// By what the account has.
    Auto,
    /// By a request signature.
    Signing,
    /// By an access token.
    Token,
    /// By website cookies.
    Cookies,
}

/// The word for an auth mode.
pub open spec fn auth_word(mode: AuthMode) -> Seq<char> {
    match mode {
        AuthMode::Auto => "auto"@,
        AuthMode::Signing => "signing"@,
        AuthMode::Token => "token"@,
        AuthMode::Cookies => "cookies"@,
    }
}

/// The auth mode that a word stands for.
pub open spec fn auth_of(word: Seq<char>) -> Option<AuthMode> {
    if word == "auto"@ {
        Some(AuthMode::Auto)
    } else if word == "signing"@ {
        Some(AuthMode::Signing)
    } else if word == "token"@ {
        Some(AuthMode::Token)
    } else if word == "cookies"@ {
        Some(AuthMode::Cookies)
    } else {
        None
    }
}

/// The word for an auth mode.
pub fn auth_mode_str(mode: AuthMode) -> (word: &'static str)
    ensures
        word@ == auth_word(mode),
{
    match mode {
        AuthMode::Auto => "auto",
        AuthMode::Signing => "signing",
        AuthMode::Token => "token",
        AuthMode::Cookies => "cookies",
    }
}

/// Reads the word for an auth mode; nothing for any other word.
pub fn parse_auth_mode(word: &str) -> (mode: Option<AuthMode>)
    ensures
        mode == auth_of(word@),
{
    if same(word, "auto") {
        Some(AuthMode::Auto)
    } else if same(word, "signing") {
        Some(AuthMode::Signing)
    } else if same(word, "token") {
        Some(AuthMode::Token)
    } else if same(word, "cookies") {
        Some(AuthMode::Cookies)
    } else {
        None
    }
}

/// The word for an auth mode reads back as the mode, and a word that reads as a
/// mode is the word for it.
pub proof fn law_auth_words_round_trip(mode: AuthMode, word: Seq<char>)
    ensures
        auth_of(auth_word(mode)) == Some(mode),
        auth_of(word) == Some(mode) ==> word == auth_word(mode),
{
    reveal_strlit("auto");
    reveal_strlit("signing");
    reveal_strlit("token");
    reveal_strlit("cookies");
    assert("auto"@.len() == 4);
    assert("signing"@.len() == 7);
    assert("token"@.len() == 5);
    assert("cookies"@.len() == 7);
    assert("signing"@[0] == 's');
    assert("cookies"@[0] == 'c');
}

/// The text without the slashes that it starts with.
pub open spec fn without_slashes(s: Seq<char>) -> Seq<char>
    decreases s.len(),
{
    if s.len() > 0 && s[0] == '/' {
        without_slashes(s.drop_first())
    } else {
        s
    }
}

/// Whether a path segment is a version: digits and dots only, and a dot.
pub open spec fn is_version(segment: Seq<char>) -> bool {
    &&& segment.contains('.')
    &&& forall|i: int|
        0 <= i < segment.len() ==> is_digit(#[trigger] segment[i]) || segment[i] == '.'
}

/// The part of a path before its query.
pub open spec fn bare_path(path: Seq<char>) -> Seq<char> {
    match split_once_spec(path, '?') {
        Some((bare, _)) => bare,
        None => path,
    }
}

/// A path that starts with its version: one without a version segment gets
/// `/1.0`. `bare` has no query.
pub open spec fn versioned(bare: Seq<char>) -> Seq<char> {
    let inner = without_slashes(bare);
    let segment = inner.subrange(0, first_at(inner, '/'));
    if is_version(segment) {
        "/"@ + inner
    } else {
        "/1.0/"@ + inner
    }
}

/// The API path that a path stands for, with its query as it is.
pub open spec fn normalized(path: Seq<char>) -> Seq<char> {
    match split_once_spec(path, '?') {
        Some((bare, query)) => versioned(bare) + "?"@ + query,
        None => versioned(path),
    }
}

fn version_segment(chars: &Vec<char>, start: usize, end: usize) -> (yes: bool)
    requires
        start <= end <= chars@.len(),
    ensures
        yes == is_version(chars@.subrange(start as int, end as int)),
{
    let ghost segment = chars@.subrange(start as int, end as int);
    let mut dotted = false;
    let mut i: usize = start;
    while i < end
        invariant
            start <= i <= end <= chars@.len(),
            segment == chars@.subrange(start as int, end as int),
            forall|k: int|
                0 <= k < i - start ==> is_digit(#[trigger] segment[k]) || segment[k] == '.',
            dotted == exists|k: int| 0 <= k < i - start && #[trigger] segment[k] == '.',
        decreases end - i,
    {
        let c = chars[i];
        assert(segment[i - start] == c);
        if c == '.' {
            dotted = true;
        } else if !('0' <= c && c <= '9') {
            return false;
        }
        i = i + 1;
    }
    dotted
}

fn version_path(bare: &str) -> (path: String)
    ensures
        path@ == versioned(bare@),
{
    let chars = chars_of(bare);
    let ghost n = chars@.len() as int;
    let mut start: usize = 0;
    assert(chars@.subrange(0, n) =~= chars@);
    while start < chars.len() && chars[start] == '/'
        invariant
            start <= chars@.len(),
            n == chars@.len(),
            without_slashes(chars@) == without_slashes(chars@.subrange(start as int, n)),
        decreases chars.len() - start,
    {
        assert(chars@.subrange(start as int, n).drop_first() =~= chars@.subrange(start + 1, n));
        start = start + 1;
    }
    let inner = slice_text(&chars, start, chars.len());
    let inner_chars = chars_of(inner.as_str());
    let end = find_first(&inner_chars, '/');
    let mut path = if version_segment(&inner_chars, 0, end) {
        String::from_str("/")
    } else {
        String::from_str("/1.0/")
    };
    path.append(inner.as_str());
    path
}

/// Normalises an API path: one without a version segment gets the `/1.0`
/// prefix, an explicit version and the query stay as they are.
pub fn normalize_api_path(path: &str) -> (result: String)
    ensures
        result@ == normalized(path@),
{
    match split_once(path, '?') {
        Some((bare, query)) => {
            let mut result = version_path(bare.as_str());
            result.append("?");
            result.append(query.as_str());
            result
        },
        None => version_path(path),
    }
}

/// The part of a path before its query.
pub fn path_without_query(path: &str) -> (bare: String)
    ensures
        bare@ == bare_path(path@),
{
    match split_once(path, '?') {
        Some((bare, _)) => bare,
        None => String::from_str(path),
    }
}

proof fn lemma_without_slashes(s: Seq<char>)
    ensures
        without_slashes(s).len() > 0 ==> without_slashes(s)[0] != '/',
        without_slashes(s).len() <= s.len(),
        without_slashes(s) == s.subrange(s.len() - without_slashes(s).len(), s.len() as int),
    decreases s.len(),
{
    if s.len() > 0 && s[0] == '/' {
        lemma_without_slashes(s.drop_first());
        assert(without_slashes(s) =~= s.subrange(
            s.len() - without_slashes(s).len(),
            s.len() as int,
        ));
    } else {
        assert(s.subrange(0, s.len() as int) =~= s);
    }
}

proof fn lemma_versioned_stable(bare: Seq<char>)
    requires
        !bare.contains('?'),
    ensures
        versioned(versioned(bare)) == versioned(bare),
        !versioned(bare).contains('?'),
        versioned(bare).len() > 0 && versioned(bare)[0] == '/',
{
    reveal_strlit("/");
    reveal_strlit("/1.0/");
    let inner = without_slashes(bare);
    lemma_without_slashes(bare);
    let start = bare.len() - inner.len();
    assert forall|i: int| 0 <= i < inner.len() implies inner[i] != '?' by {
        assert(inner[i] == bare[start + i]);
    }
    let once = versioned(bare);
    let segment = inner.subrange(0, first_at(inner, '/'));
    lemma_first_at(inner, '/');
    if is_version(segment) {
        assert(once.drop_first() =~= inner);
        assert(without_slashes(once) == without_slashes(inner));
        assert(without_slashes(inner) == inner);
    } else {
        let more = seq!['1', '.', '0', '/'] + inner;
        assert(once.drop_first() =~= more);
        assert(without_slashes(once) == without_slashes(more));
        assert(without_slashes(more) == more);
        assert(more[3] == '/');
        lemma_first_at_is(more, '/', 3);
        let first = more.subrange(0, 3);
        assert(first[1] == '.');
        assert(first.contains('.'));
        assert(is_version(first));
        assert(once =~= "/"@ + more);
    }
}

/// Normalising is stable: a normalised path is its own normal form, starts with
/// a slash, and its query is the query of the path.
pub proof fn law_normalized_is_stable(path: Seq<char>)
    ensures
        normalized(normalized(path)) == normalized(path),
        normalized(path).len() > 0 && normalized(path)[0] == '/',
        bare_path(normalized(path)) == versioned(bare_path(path)),
        match (split_once_spec(path, '?'), split_once_spec(normalized(path), '?')) {
            (Some((_, query)), Some((_, kept))) => query == kept,
            (None, None) => true,
            _ => false,
        },
{
    reveal_strlit("?");
    assert("?"@ =~= seq!['?']);
    lemma_first_at(path, '?');
    let bare = bare_path(path);
    assert(!bare.contains('?')) by {
        assert forall|i: int| 0 <= i < bare.len() implies bare[i] != '?' by {
            assert(bare[i] == path[i]);
        }
    }
    lemma_versioned_stable(bare);
    let start = versioned(bare);
    match split_once_spec(path, '?') {
        Some((_, query)) => {
            let whole = start + "?"@ + query;
            assert forall|k: int| 0 <= k < start.len() implies whole[k] != '?' by {
                assert(start[k] == whole[k]);
            }
            lemma_first_at_is(whole, '?', start.len() as int);
            assert(whole.subrange(0, start.len() as int) =~= start);
            assert(whole.subrange(start.len() as int + 1, whole.len() as int) =~= query);
        },
        None => {
            lemma_first_at_is(start, '?', start.len() as int);
        },
    }
}

/// A path that starts with a version stands as it is, with one slash before it; any
/// other gets version 1.0.
pub proof fn law_paths_get_a_version(
    segment: Seq<char>,
    rest: Seq<char>,
)
    requires
        segment.len() > 0,
        !segment.contains('/'),
        !segment.contains('?'),
        !rest.contains('?'),
    ensures
        ({
            let path = segment + seq!['/'] + rest;
            let versioned_already = segment.contains('.') && forall|i: int|
                0 <= i < segment.len() ==> ('0' <= #[trigger] segment[i] && segment[i] <= '9')
                    || segment[i] == '.';
            &&& versioned_already ==> normalized(path) == "/"@ + path && normalized(
                seq!['/'] + path,
            ) == "/"@ + path
            &&& !versioned_already ==> normalized(path) == "/1.0/"@ + path && normalized(
                seq!['/'] + path,
            ) == "/1.0/"@ + path
        }),
{
    let path = segment + seq!['/'] + rest;
    let slashed = seq!['/'] + path;
    assert forall|k: int| 0 <= k < path.len() implies path[k] != '?' by {
        if k < segment.len() {
            assert(segment.contains(segment[k]));
        } else if k > segment.len() {
            assert(rest.contains(rest[k - segment.len() - 1]));
            assert(path[k] == rest[k - segment.len() - 1]);
        }
    }
    assert forall|k: int| 0 <= k < slashed.len() implies slashed[k] != '?' by {
        if k > 0 {
            assert(slashed[k] == path[k - 1]);
        }
    }
    crate::text::lemma_first_at_is(path, '?', path.len() as int);
    crate::text::lemma_first_at_is(slashed, '?', slashed.len() as int);
    assert(path[0] != '/') by {
        assert(segment.contains(segment[0]));
    }
    assert(slashed.drop_first() =~= path);
    assert(without_slashes(path) == path);
    assert(without_slashes(slashed) == path) by {
        reveal_with_fuel(without_slashes, 2);
    }
    assert forall|k: int| 0 <= k < segment.len() implies path[k] != '/' by {
        assert(segment.contains(segment[k]));
    }
    crate::text::lemma_first_at_is(path, '/', segment.len() as int);
    assert(path.subrange(0, segment.len() as int) =~= segment);
}

} // verus!
