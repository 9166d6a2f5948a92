//! Request files: a description of a whole request that can be stored, and
//! `{{name}}` templates in its texts.

use vstd::prelude::*;
use vstd::string::StringExecFns;
use super::error::ApiError;
use crate::text::cat3;
use crate::text::chars_of;
use crate::text::join;
use crate::text::joined;
use crate::text::lemma_first_at;
use crate::text::lemma_first_at_is;
use crate::text::lemma_trimmed_after_space;
use crate::text::lemma_trimmed_again;
use crate::text::lemma_trimmed_part;
use crate::text::lowered;
use crate::text::same;
use crate::text::same_ignoring_ascii_case;
use crate::text::slice_text;
use crate::text::split_once;
use crate::text::split_once_spec;
use crate::text::texts;
use crate::text::to_ascii_lower;
use crate::text::trim;
use crate::text::trimmed;
use crate::text_map::ascending;
use crate::text_map::keys_of;
use crate::text_map::lemma_ascending_distinct;
use crate::text_map::lemma_map_of;
use crate::text_map::map_of;
use crate::text_map::TextMap;
use crate::text_map::TextSet;

verus! {

/// A stored request.
#[derive(Debug)]
pub struct RequestFile {
    /// The HTTP method.
    pub method: Option<String>,
    /// The path, with or without a query.
    pub path: Option<String>,
    /// The auth mode.
    pub auth: Option<String>,
    /// The marketplace.
    pub marketplace: Option<String>,
    /// The content type of a raw body.
    pub content_type: Option<String>,
    /// The body itself.
    pub body: Option<String>,
    /// The file that holds the body.
    pub body_file: Option<String>,
    /// Query parameters, one value for a key.
    pub query: TextMap,
    /// Headers, one value for a name.
    pub headers: TextMap,
    /// What template variables stand for.
    pub vars: TextMap,
}

impl Default for RequestFile {
    /// A request that says nothing.
    fn default() -> (file: RequestFile)
        ensures
            file.method is None,
            file.path is None,
            file.auth is None,
            file.marketplace is None,
            file.content_type is None,
            file.body is None,
            file.body_file is None,
            file.query@ == Map::<Seq<char>, Seq<char>>::empty(),
            file.headers@ == Map::<Seq<char>, Seq<char>>::empty(),
            file.vars@ == Map::<Seq<char>, Seq<char>>::empty(),
    {
        RequestFile {
            method: None,
            path: None,
            auth: None,
            marketplace: None,
            content_type: None,
            body: None,
            body_file: None,
            query: TextMap::new(),
            headers: TextMap::new(),
            vars: TextMap::new(),
        }
    }
}

/// Each pair as its key, `sep` and its value.
pub open spec fn pair_texts(pairs: Seq<(Seq<char>, Seq<char>)>, sep: Seq<char>) -> Seq<Seq<char>> {
    pairs.map_values(|pair: (Seq<char>, Seq<char>)| pair.0 + sep + pair.1)
}

/// Each entry of a map as its key, `sep` and its value.
fn entries_as_strings(map: &TextMap, sep: &str) -> (list: Vec<String>)
    ensures
        texts(list@) == pair_texts(map.pairs(), sep@),
        ascending(keys_of(map.pairs())),
        map@ == map_of(map.pairs()),
{
    let ghost want = pair_texts(map.pairs(), sep@);
    let mut list: Vec<String> = Vec::new();
    let n = map.len();
    let mut i: usize = 0;
    while i < n
        invariant
            i <= n == map.pairs().len(),
            want == pair_texts(map.pairs(), sep@),
            list@.len() == i,
            forall|k: int| 0 <= k < i ==> (#[trigger] list@[k])@ == want[k],
        decreases n - i,
    {
        list.push(cat3(map.key_at(i).as_str(), sep, map.value_at(i).as_str()));
        i = i + 1;
    }
    assert(texts(list@) =~= want);
    list
}

impl RequestFile {
    /// The query parameters as `key=value`, in the order of the keys.
    pub fn query_as_strings(&self) -> (list: Vec<String>)
        ensures
            texts(list@) == pair_texts(self.query.pairs(), "="@),
            ascending(keys_of(self.query.pairs())),
            self.query@ == map_of(self.query.pairs()),
    {
        entries_as_strings(&self.query, "=")
    }

    /// The headers as `Name: value`, in the order of the names.
    pub fn headers_as_strings(&self) -> (list: Vec<String>)
        ensures
            texts(list@) == pair_texts(self.headers.pairs(), ": "@),
            ascending(keys_of(self.headers.pairs())),
            self.headers@ == map_of(self.headers.pairs()),
    {
        entries_as_strings(&self.headers, ": ")
    }
}

/// The map of query parameters after one more: a key keeps its value, and a
/// second value for it is a fault.
pub open spec fn with_query(map: Map<Seq<char>, Seq<char>>, raw: Seq<char>) -> Result<
    Map<Seq<char>, Seq<char>>,
    ApiError<Seq<char>>,
> {
    match split_once_spec(raw, '=') {
        None => Err(ApiError::QueryNotPair(raw)),
        Some((left, value)) => {
            let key = trimmed(left);
            if map.contains_key(key) && map[key] != value {
                Err(ApiError::QueryConflict { key, first: map[key], second: value })
            } else {
                Ok(map.insert(key, value))
            }
        },
    }
}

/// The map after the query parameters in turn, or the first fault.
pub open spec fn query_from(map: Map<Seq<char>, Seq<char>>, list: Seq<Seq<char>>) -> Result<
    Map<Seq<char>, Seq<char>>,
    ApiError<Seq<char>>,
>
    decreases list.len(),
{
    if list.len() == 0 {
        Ok(map)
    } else {
        match with_query(map, list[0]) {
            Err(error) => Err(error),
            Ok(more) => query_from(more, list.drop_first()),
        }
    }
}

/// Reads `key=value` texts into a map that holds one value for a key. A key
/// with two values is refused: the request that is sent repeats the key, and a
/// stored one could not.
pub fn parse_query_strings(strings: &[String]) -> (map: Result<TextMap, ApiError<String>>)
    ensures
        match map {
            Ok(m) => query_from(Map::empty(), texts(strings@)) == Ok::<
                Map<Seq<char>, Seq<char>>,
                ApiError<Seq<char>>,
            >(m@),
            Err(e) => query_from(Map::empty(), texts(strings@)) == Err::<
                Map<Seq<char>, Seq<char>>,
                ApiError<Seq<char>>,
            >(e@),
        },
{
    let mut map = TextMap::new();
    let ghost all = texts(strings@);
    let mut i: usize = 0;
    assert(all.subrange(0, all.len() as int) =~= all);
    while i < strings.len()
        invariant
            i <= strings@.len(),
            all == texts(strings@),
            query_from(Map::empty(), all) == query_from(map@, all.subrange(i as int, all.len() as int)),
        decreases strings.len() - i,
    {
        let raw = &strings[i];
        let ghost rest = all.subrange(i as int, all.len() as int);
        assert(rest[0] == raw@);
        assert(rest.drop_first() =~= all.subrange(i + 1, all.len() as int));
        match split_once(raw.as_str(), '=') {
            None => {
                return Err(ApiError::QueryNotPair(raw.clone()));
            },
            Some((left, value)) => {
                let key = trim(left.as_str());
                if let Some(first) = map.get(key.as_str()) {
                    if !same(first.as_str(), value.as_str()) {
                        return Err(
                            ApiError::QueryConflict { first: first.clone(), key, second: value },
                        );
                    }
                }
                map.insert(key, value);
            },
        }
        i = i + 1;
    }
    Ok(map)
}

/// Whether a name, in small letters, is that of a header that the auth layer
/// owns.
pub open spec fn auth_managed(lower: Seq<char>) -> bool {
    ||| lower == "x-adp-token"@
    ||| lower == "x-adp-alg"@
    ||| lower == "x-adp-signature"@
    ||| lower == "x-amz-access-token"@
    ||| lower == "cookie"@
    ||| lower == "authorization"@
}

/// Whether a header is owned by the auth layer, in whatever case it is
/// written. Such a header must not be set by hand: it could break or leak the
/// account's credentials.
pub fn is_auth_managed_header(name: &str) -> (managed: bool)
    ensures
        managed == auth_managed(lowered(name@)),
{
    let lower = to_ascii_lower(name);
    same(lower.as_str(), "x-adp-token") || same(lower.as_str(), "x-adp-alg") || same(
        lower.as_str(),
        "x-adp-signature",
    ) || same(lower.as_str(), "x-amz-access-token") || same(lower.as_str(), "cookie") || same(
        lower.as_str(),
        "authorization",
    )
}

/// Whether a request may name the header itself.
pub open spec fn free_header(name: Seq<char>) -> bool {
    &&& name.len() > 0
    &&& !auth_managed(lowered(name))
    &&& lowered(name) != lowered("content-type"@)
}

/// The map of headers after one more: a header that the send would refuse is a
/// fault, and so is a second value for a name.
pub open spec fn with_header(map: Map<Seq<char>, Seq<char>>, raw: Seq<char>) -> Result<
    Map<Seq<char>, Seq<char>>,
    ApiError<Seq<char>>,
> {
    match split_once_spec(raw, ':') {
        None => Err(ApiError::HeaderNotPair(raw)),
        Some((left, right)) => {
            let name = trimmed(left);
            let value = trimmed(right);
            if name.len() == 0 {
                Err(ApiError::HeaderNameEmpty(raw))
            } else if auth_managed(lowered(name)) {
                Err(ApiError::HeaderManagedStored(name))
            } else if lowered(name) == lowered("content-type"@) {
                Err(ApiError::HeaderContentTypeStored)
            } else if map.contains_key(name) && map[name] != value {
                Err(ApiError::HeaderConflict { name, first: map[name], second: value })
            } else {
                Ok(map.insert(name, value))
            }
        },
    }
}

/// The map after the headers in turn, or the first fault.
pub open spec fn headers_from(map: Map<Seq<char>, Seq<char>>, list: Seq<Seq<char>>) -> Result<
    Map<Seq<char>, Seq<char>>,
    ApiError<Seq<char>>,
>
    decreases list.len(),
{
    if list.len() == 0 {
        Ok(map)
    } else {
        match with_header(map, list[0]) {
            Err(error) => Err(error),
            Ok(more) => headers_from(more, list.drop_first()),
        }
    }
}

/// Reads `Name: value` texts into a map that holds one value for a name. What
/// a name or a value may hold is not looked at: placeholders in it are filled
/// only when the request is sent.
pub fn parse_header_strings(strings: &[String]) -> (map: Result<TextMap, ApiError<String>>)
    ensures
        match map {
            Ok(m) => headers_from(Map::empty(), texts(strings@)) == Ok::<
                Map<Seq<char>, Seq<char>>,
                ApiError<Seq<char>>,
            >(m@),
            Err(e) => headers_from(Map::empty(), texts(strings@)) == Err::<
                Map<Seq<char>, Seq<char>>,
                ApiError<Seq<char>>,
            >(e@),
        },
{
    let mut map = TextMap::new();
    let ghost all = texts(strings@);
    let mut i: usize = 0;
    assert(all.subrange(0, all.len() as int) =~= all);
    while i < strings.len()
        invariant
            i <= strings@.len(),
            all == texts(strings@),
            headers_from(Map::empty(), all) == headers_from(map@, all.subrange(i as int, all.len() as int)),
        decreases strings.len() - i,
    {
        let raw = &strings[i];
        let ghost rest = all.subrange(i as int, all.len() as int);
        assert(rest[0] == raw@);
        assert(rest.drop_first() =~= all.subrange(i + 1, all.len() as int));
        match split_once(raw.as_str(), ':') {
            None => {
                return Err(ApiError::HeaderNotPair(raw.clone()));
            },
            Some((left, right)) => {
                let name = trim(left.as_str());
                let value = trim(right.as_str());
                if name.as_str().is_empty() {
                    return Err(ApiError::HeaderNameEmpty(raw.clone()));
                }
                if is_auth_managed_header(name.as_str()) {
                    return Err(ApiError::HeaderManagedStored(name));
                }
                if same_ignoring_ascii_case(name.as_str(), "content-type") {
                    return Err(ApiError::HeaderContentTypeStored);
                }
                if let Some(first) = map.get(name.as_str()) {
                    if !same(first.as_str(), value.as_str()) {
                        return Err(
                            ApiError::HeaderConflict { first: first.clone(), name, second: value },
                        );
                    }
                }
                map.insert(name, value);
            },
        }
        i = i + 1;
    }
    Ok(map)
}

/// The variables after the settings in turn, each in place of an earlier value,
/// or the first fault.
pub open spec fn vars_from(vars: Map<Seq<char>, Seq<char>>, list: Seq<Seq<char>>) -> Result<
    Map<Seq<char>, Seq<char>>,
    ApiError<Seq<char>>,
>
    decreases list.len(),
{
    if list.len() == 0 {
        Ok(vars)
    } else {
        match split_once_spec(list[0], '=') {
            None => Err(ApiError::VarNotPair(list[0])),
            Some((left, value)) => vars_from(vars.insert(trimmed(left), value), list.drop_first()),
        }
    }
}

/// The variables that a file gives; none without a file.
pub open spec fn file_vars(file: Option<&RequestFile>) -> Map<Seq<char>, Seq<char>> {
    match file {
        Some(f) => f.vars@,
        None => Map::empty(),
    }
}

/// The variables of the file, overlaid by those of the command line.
pub fn collect_vars(file: Option<&RequestFile>, cli: &[String]) -> (vars: Result<
    TextMap,
    ApiError<String>,
>)
    ensures
        match vars {
            Ok(m) => vars_from(file_vars(file), texts(cli@)) == Ok::<
                Map<Seq<char>, Seq<char>>,
                ApiError<Seq<char>>,
            >(m@),
            Err(e) => vars_from(file_vars(file), texts(cli@)) == Err::<
                Map<Seq<char>, Seq<char>>,
                ApiError<Seq<char>>,
            >(e@),
        },
{
    let mut vars = match file {
        Some(f) => f.vars.copy(),
        None => TextMap::new(),
    };
    let ghost all = texts(cli@);
    let mut i: usize = 0;
    assert(all.subrange(0, all.len() as int) =~= all);
    while i < cli.len()
        invariant
            i <= cli@.len(),
            all == texts(cli@),
            vars_from(file_vars(file), all) == vars_from(vars@, all.subrange(i as int, all.len() as int)),
        decreases cli.len() - i,
    {
        let raw = &cli[i];
        let ghost rest = all.subrange(i as int, all.len() as int);
        assert(rest[0] == raw@);
        assert(rest.drop_first() =~= all.subrange(i + 1, all.len() as int));
        match split_once(raw.as_str(), '=') {
            None => {
                return Err(ApiError::VarNotPair(raw.clone()));
            },
            Some((left, value)) => {
                vars.insert(trim(left.as_str()), value);
            },
        }
        i = i + 1;
    }
    Ok(vars)
}

/// Whether `}}` stands at a place.
pub open spec fn closes(s: Seq<char>, k: int) -> bool {
    0 <= k && k + 1 < s.len() && s[k] == '}' && s[k + 1] == '}'
}

/// The place where a placeholder ends: that of the first `}}`, or the length of
/// the text when it has none.
pub open spec fn close_at(s: Seq<char>) -> int
    decreases s.len(),
{
    if s.len() < 2 {
        s.len() as int
    } else if s[0] == '}' && s[1] == '}' {
        0
    } else {
        1 + close_at(s.drop_first())
    }
}

/// What a text comes to: `\\{` and `\\}` are the braces themselves, `{{name}}` is
/// the value of the variable, or nothing where it has none, and a `{{` that is
/// not closed stands for itself with all that follows.
pub open spec fn rendered(s: Seq<char>, vars: Map<Seq<char>, Seq<char>>) -> Seq<char>
    decreases s.len(),
{
    if s.len() == 0 {
        s
    } else if s.len() > 1 && s[0] == '\\' && (s[1] == '{' || s[1] == '}') {
        seq![s[1]] + rendered(s.subrange(2, s.len() as int), vars)
    } else if s.len() > 1 && s[0] == '{' && s[1] == '{' {
        let inner = s.subrange(2, s.len() as int);
        let end = close_at(inner);
        if 0 <= end < inner.len() - 1 {
            let key = trimmed(inner.subrange(0, end));
            let value = if vars.contains_key(key) {
                vars[key]
            } else {
                Seq::empty()
            };
            value + rendered(inner.subrange(end + 2, inner.len() as int), vars)
        } else {
            s
        }
    } else {
        seq![s[0]] + rendered(s.subrange(1, s.len() as int), vars)
    }
}

/// The names in a text that have no value.
pub open spec fn unknown_names(s: Seq<char>, vars: Map<Seq<char>, Seq<char>>) -> Set<Seq<char>>
    decreases s.len(),
{
    if s.len() == 0 {
        Set::empty()
    } else if s.len() > 1 && s[0] == '\\' && (s[1] == '{' || s[1] == '}') {
        unknown_names(s.subrange(2, s.len() as int), vars)
    } else if s.len() > 1 && s[0] == '{' && s[1] == '{' {
        let inner = s.subrange(2, s.len() as int);
        let end = close_at(inner);
        if 0 <= end < inner.len() - 1 {
            let key = trimmed(inner.subrange(0, end));
            let rest = unknown_names(inner.subrange(end + 2, inner.len() as int), vars);
            if vars.contains_key(key) {
                rest
            } else {
                rest.insert(key)
            }
        } else {
            Set::empty()
        }
    } else {
        unknown_names(s.subrange(1, s.len() as int), vars)
    }
}

/// `{{name}}` substitution with `\\{` and `\\}` as escapes. Single braces, as in
/// JSON bodies, stay as they are. Unknown names are collected for
/// [`Templater::finish`].
pub struct Templater<'v> {
    vars: &'v TextMap,
    missing: TextSet,
}

proof fn lemma_close_at(s: Seq<char>, i: int)
    requires
        0 <= i <= s.len(),
        forall|k: int| 0 <= k < i ==> !closes(s, k),
        i < s.len() ==> closes(s, i),
    ensures
        close_at(s) == i,
    decreases i,
{
    if i > 0 && s.len() >= 2 {
        let tail = s.drop_first();
        assert(!closes(s, 0));
        assert forall|k: int| 0 <= k < i - 1 implies !closes(tail, k) by {
            assert(!closes(s, k + 1));
        }
        assert(i < s.len() ==> closes(tail, i - 1));
        lemma_close_at(tail, i - 1);
    }
}

impl<'v> Templater<'v> {
    /// The variables that placeholders are filled from.
    pub closed spec fn known(&self) -> Map<Seq<char>, Seq<char>> {
        self.vars@
    }

    /// The unknown names met so far.
    pub closed spec fn unknown(&self) -> Set<Seq<char>> {
        self.missing@
    }

    /// A templater over the variables, that has met no unknown name.
    pub fn new(vars: &'v TextMap) -> (templater: Self)
        ensures
            templater.known() == vars@,
            templater.unknown() == Set::<Seq<char>>::empty(),
    {
        Templater { vars, missing: TextSet::new() }
    }

    /// Renders a text and remembers the unknown names in it.
    pub fn render(&mut self, input: &str) -> (out: String)
        ensures
            out@ == rendered(input@, old(self).known()),
            final(self).known() == old(self).known(),
            final(self).unknown() == old(self).unknown().union(
                unknown_names(input@, old(self).known()),
            ),
    {
        let chars = chars_of(input);
        let ghost s = input@;
        let ghost n = s.len() as int;
        let ghost vars = self.known();
        let mut out = String::new();
        let mut i: usize = 0;
        assert(s.subrange(0, n) =~= s);
        assert(out@ + rendered(s, vars) =~= rendered(s, vars));
        while i < chars.len()
            invariant
                i <= chars@.len(),
                chars@ == s,
                s == input@,
                n == s.len(),
                vars == old(self).known(),
                self.known() == vars,
                out@ + rendered(s.subrange(i as int, n), vars) == rendered(s, vars),
                self.unknown().union(unknown_names(s.subrange(i as int, n), vars)) == old(
                    self,
                ).unknown().union(unknown_names(s, vars)),
            decreases chars.len() - i,
        {
            let ghost rest = s.subrange(i as int, n);
            let ghost before_out = out@;
            let c = chars[i];
            let next: Option<char> = if chars.len() - i > 1 {
                Some(chars[i + 1])
            } else {
                None
            };
            if c == '\\' && (next == Some('{') || next == Some('}')) {
                out.push(chars[i + 1]);
                assert(rest.subrange(2, rest.len() as int) =~= s.subrange(i + 2, n));
                assert(out@ + rendered(s.subrange(i + 2, n), vars) =~= before_out + (seq![rest[1]]
                    + rendered(s.subrange(i + 2, n), vars)));
                i = i + 2;
            } else if c == '{' && next == Some('{') {
                let ghost inner = rest.subrange(2, rest.len() as int);
                let start: usize = i + 2;
                let mut end: usize = start;
                while end < chars.len() && !(chars[end] == '}' && chars.len() - end > 1 && chars[end
                    + 1] == '}')
                    invariant
                        start <= end <= chars@.len(),
                        chars@ == s,
                        n == s.len(),
                        inner == s.subrange(start as int, n),
                        forall|k: int| 0 <= k < end - start ==> !closes(inner, k),
                    decreases chars.len() - end,
                {
                    assert(inner[end - start] == chars@[end as int]);
                    end = end + 1;
                }
                if end < chars.len() {
                    proof {
                        assert(closes(inner, end - start));
                        lemma_close_at(inner, end - start);
                    }
                    let name = slice_text(&chars, start, end);
                    assert(name@ =~= inner.subrange(0, end - start));
                    let ghost after = s.subrange(end + 2, n);
                    assert(inner.subrange(end - start + 2, inner.len() as int) =~= after);
                    let key = trim(name.as_str());
                    let ghost old_unknown = self.unknown();
                    match self.vars.get(key.as_str()) {
                        Some(value) => {
                            out.append(value.as_str());
                            assert(out@ + rendered(after, vars) =~= before_out + (value@ + rendered(
                                after,
                                vars,
                            )));
                        },
                        None => {
                            assert(out@ + rendered(after, vars) =~= before_out + (
                            Seq::<char>::empty() + rendered(after, vars)));
                            let ghost key_chars = key@;
                            self.missing.insert(key);
                            assert(self.unknown().union(unknown_names(after, vars))
                                =~= old_unknown.union(
                                unknown_names(after, vars).insert(key_chars),
                            ));
                        },
                    }
                    i = end + 2;
                } else {
                    proof {
                        lemma_close_at(inner, inner.len() as int);
                    }
                    let tail = slice_text(&chars, i, chars.len());
                    out.append(tail.as_str());
                    i = chars.len();
                    assert(s.subrange(i as int, n) =~= Seq::<char>::empty());
                    assert(rendered(Seq::<char>::empty(), vars) =~= Seq::<char>::empty());
                    assert(out@ + Seq::<char>::empty() =~= before_out + rest);
                }
            } else {
                out.push(c);
                assert(rest.subrange(1, rest.len() as int) =~= s.subrange(i + 1, n));
                assert(out@ + rendered(s.subrange(i + 1, n), vars) =~= before_out + (seq![rest[0]]
                    + rendered(s.subrange(i + 1, n), vars)));
                i = i + 1;
            }
        }
        assert(s.subrange(i as int, n) =~= Seq::<char>::empty());
        assert(rendered(Seq::<char>::empty(), vars) =~= Seq::<char>::empty());
        assert(out@ + Seq::<char>::empty() =~= out@);
        assert(self.unknown().union(Set::<Seq<char>>::empty()) =~= self.unknown());
        out
    }

    /// Fails where a name that was met is unknown, naming all of them in order.
    pub fn finish(self) -> (done: Result<(), ApiError<String>>)
        ensures
            done is Ok <==> self.unknown() =~= Set::<Seq<char>>::empty(),
            done matches Err(error) ==> exists|names: Seq<Seq<char>>|
                #![trigger ascending(names)]
                {
                    &&& ascending(names)
                    &&& forall|name: Seq<char>|
                        self.unknown().contains(name) <==> names.contains(name)
                    &&& error@ == ApiError::UndefinedVariables(joined(names, ", "@))
                },
    {
        let names = self.missing.list();
        if names.len() == 0 {
            assert(texts(names@).len() == 0);
            assert(self.unknown() =~= Set::<Seq<char>>::empty());
            Ok(())
        } else {
            assert(texts(names@)[0] == names@[0]@);
            assert(texts(names@).contains(names@[0]@));
            assert(self.unknown().contains(names@[0]@));
            Err(ApiError::UndefinedVariables(join(&names, ", ")))
        }
    }
}

/// Whether a text has neither an escape nor a `{{`.
pub open spec fn plain(s: Seq<char>) -> bool {
    forall|k: int|
        0 <= k < s.len() - 1 ==> !(#[trigger] s[k] == '\\' && (s[k + 1] == '{' || s[k + 1] == '}'))
            && !(s[k] == '{' && s[k + 1] == '{')
}

/// A text without escapes and without `{{` renders to itself, single braces and
/// all, and names no variable.
pub proof fn law_plain_text_stays(s: Seq<char>, vars: Map<Seq<char>, Seq<char>>)
    requires
        plain(s),
    ensures
        rendered(s, vars) == s,
        unknown_names(s, vars) == Set::<Seq<char>>::empty(),
    decreases s.len(),
{
    if s.len() > 0 {
        let tail = s.subrange(1, s.len() as int);
        assert(plain(tail)) by {
            assert forall|k: int| 0 <= k < tail.len() - 1 implies !(#[trigger] tail[k] == '\\' && (tail[k
                + 1] == '{' || tail[k + 1] == '}')) && !(tail[k] == '{' && tail[k + 1] == '{') by {
                assert(tail[k] == s[k + 1]);
                assert(tail[k + 1] == s[k + 1 + 1]);
            }
        }
        law_plain_text_stays(tail, vars);
        if s.len() > 1 {
            assert(tail[0] == s[1]);
        }
        assert(seq![s[0]] + tail =~= s);
    }
}

/// The text with a backslash before every brace.
pub open spec fn escaped(s: Seq<char>) -> Seq<char>
    decreases s.len(),
{
    if s.len() == 0 {
        s
    } else if s[0] == '{' || s[0] == '}' {
        seq!['\\', s[0]] + escaped(s.drop_first())
    } else {
        seq![s[0]] + escaped(s.drop_first())
    }
}

/// A text whose braces are all escaped renders to the text, whatever it holds,
/// and names no variable.
pub proof fn law_escaped_text_renders_back(s: Seq<char>, vars: Map<Seq<char>, Seq<char>>)
    ensures
        rendered(escaped(s), vars) == s,
        unknown_names(escaped(s), vars) == Set::<Seq<char>>::empty(),
    decreases s.len(),
{
    if s.len() > 0 {
        let tail = s.drop_first();
        law_escaped_text_renders_back(tail, vars);
        let e = escaped(s);
        if s[0] == '{' || s[0] == '}' {
            assert(e.subrange(2, e.len() as int) =~= escaped(tail));
        } else {
            assert(e.subrange(1, e.len() as int) =~= escaped(tail));
            if e.len() > 1 {
                assert(e[1] == escaped(tail)[0]);
            }
        }
        assert(seq![s[0]] + tail =~= s);
    }
}

/// A placeholder at the start of a text is replaced by the value of its
/// variable, and nothing is said of the name when it is known.
pub proof fn law_placeholder_is_filled(
    name: Seq<char>,
    rest: Seq<char>,
    vars: Map<Seq<char>, Seq<char>>,
)
    requires
        forall|k: int| 0 <= k < name.len() ==> !closes(name.push('}'), k),
    ensures
        vars.contains_key(trimmed(name)) ==> {
            &&& rendered(seq!['{', '{'] + name + seq!['}', '}'] + rest, vars) == vars[trimmed(name)]
                + rendered(rest, vars)
            &&& unknown_names(seq!['{', '{'] + name + seq!['}', '}'] + rest, vars)
                == unknown_names(rest, vars)
        },
        !vars.contains_key(trimmed(name)) ==> {
            &&& rendered(seq!['{', '{'] + name + seq!['}', '}'] + rest, vars) == rendered(
                rest,
                vars,
            )
            &&& unknown_names(seq!['{', '{'] + name + seq!['}', '}'] + rest, vars)
                == unknown_names(rest, vars).insert(trimmed(name))
        },
{
    let whole = seq!['{', '{'] + name + seq!['}', '}'] + rest;
    let inner = whole.subrange(2, whole.len() as int);
    let n = name.len() as int;
    assert forall|k: int| 0 <= k < n implies !closes(inner, k) by {
        assert(!closes(name.push('}'), k));
        assert(inner[k] == name[k]);
        if k + 1 < n {
            assert(inner[k + 1] == name[k + 1]);
        }
    }
    assert(closes(inner, n));
    lemma_close_at(inner, n);
    assert(inner.subrange(0, n) =~= name);
    assert(inner.subrange(n + 2, inner.len() as int) =~= rest);
    assert(Seq::<char>::empty() + rendered(rest, vars) =~= rendered(rest, vars));
}

/// A stored header is one that the send accepts: it has a name, which neither
/// the auth layer nor the body owns.
pub proof fn law_stored_headers_are_free(
    map: Map<Seq<char>, Seq<char>>,
    list: Seq<Seq<char>>,
    stored: Map<Seq<char>, Seq<char>>,
)
    requires
        forall|name: Seq<char>| map.contains_key(name) ==> #[trigger] free_header(name),
        headers_from(map, list) == Ok::<Map<Seq<char>, Seq<char>>, ApiError<Seq<char>>>(stored),
    ensures
        forall|name: Seq<char>| stored.contains_key(name) ==> #[trigger] free_header(name),
    decreases list.len(),
{
    if list.len() > 0 {
        match with_header(map, list[0]) {
            Err(_) => {},
            Ok(more) => {
                law_stored_headers_are_free(more, list.drop_first(), stored);
            },
        }
    }
}

/// Whether a text can be the key of a stored pair: it is trimmed and does not
/// hold the separator.
pub open spec fn stored_key(key: Seq<char>, sep: char) -> bool {
    trimmed(key) == key && !key.contains(sep)
}

proof fn lemma_left_is_stored_key(raw: Seq<char>, sep: char)
    requires
        split_once_spec(raw, sep) is Some,
    ensures
        stored_key(trimmed(split_once_spec(raw, sep)->Some_0.0), sep),
{
    let left = split_once_spec(raw, sep)->Some_0.0;
    lemma_first_at(raw, sep);
    lemma_trimmed_again(left);
    let start = lemma_trimmed_part(left);
    assert forall|i: int| 0 <= i < trimmed(left).len() implies trimmed(left)[i] != sep by {
        assert(trimmed(left)[i] == left[start + i]);
        assert(left[start + i] == raw[start + i]);
    }
}

proof fn lemma_pair_splits(key: Seq<char>, rest: Seq<char>, sep: char)
    requires
        !key.contains(sep),
    ensures
        split_once_spec(key + seq![sep] + rest, sep) == Some((key, rest)),
{
    let raw = key + seq![sep] + rest;
    assert forall|k: int| 0 <= k < key.len() implies raw[k] != sep by {
        assert(key[k] == raw[k]);
    }
    lemma_first_at_is(raw, sep, key.len() as int);
    assert(raw.subrange(0, key.len() as int) =~= key);
    assert(raw.subrange(key.len() as int + 1, raw.len() as int) =~= rest);
}

proof fn lemma_query_keys(
    map: Map<Seq<char>, Seq<char>>,
    list: Seq<Seq<char>>,
    stored: Map<Seq<char>, Seq<char>>,
)
    requires
        forall|key: Seq<char>| map.contains_key(key) ==> #[trigger] stored_key(key, '='),
        query_from(map, list) == Ok::<Map<Seq<char>, Seq<char>>, ApiError<Seq<char>>>(stored),
    ensures
        forall|key: Seq<char>| stored.contains_key(key) ==> #[trigger] stored_key(key, '='),
    decreases list.len(),
{
    if list.len() > 0 {
        match with_query(map, list[0]) {
            Err(_) => {},
            Ok(more) => {
                lemma_left_is_stored_key(list[0], '=');
                lemma_query_keys(more, list.drop_first(), stored);
            },
        }
    }
}

proof fn lemma_query_replays(pairs: Seq<(Seq<char>, Seq<char>)>, i: int)
    requires
        0 <= i <= pairs.len(),
        keys_of(pairs).no_duplicates(),
        forall|k: int| 0 <= k < pairs.len() ==> stored_key(#[trigger] keys_of(pairs)[k], '='),
    ensures
        query_from(
            map_of(pairs.subrange(0, i)),
            pair_texts(pairs, "="@).subrange(i, pairs.len() as int),
        ) == Ok::<Map<Seq<char>, Seq<char>>, ApiError<Seq<char>>>(map_of(pairs)),
    decreases pairs.len() - i,
{
    let listed = pair_texts(pairs, "="@);
    let rest = listed.subrange(i, pairs.len() as int);
    let front = pairs.subrange(0, i);
    if i == pairs.len() {
        assert(front =~= pairs);
    } else {
        let (key, value) = pairs[i];
        reveal_strlit("=");
        assert("="@ =~= seq!['=']);
        assert(keys_of(pairs)[i] == key);
        lemma_pair_splits(key, value, '=');
        assert(rest[0] == key + seq!['='] + value);
        assert(keys_of(front) =~= keys_of(pairs).subrange(0, i));
        lemma_map_of(front);
        assert(!keys_of(front).contains(key)) by {
            assert forall|k: int| 0 <= k < i implies keys_of(front)[k] != key by {
                assert(keys_of(pairs)[k] != keys_of(pairs)[i]);
            }
        }
        let longer = pairs.subrange(0, i + 1);
        assert(longer.drop_last() =~= front);
        assert(map_of(longer) == map_of(front).insert(key, value));
        assert(rest.drop_first() =~= listed.subrange(i + 1, pairs.len() as int));
        lemma_query_replays(pairs, i + 1);
    }
}

/// Storing a request's query parameters loses nothing: the stored map, listed
/// as `key=value` in the order of its keys, reads back as the same map.
pub proof fn law_stored_query_reads_back(
    list: Seq<Seq<char>>,
    stored: Map<Seq<char>, Seq<char>>,
    pairs: Seq<(Seq<char>, Seq<char>)>,
)
    requires
        query_from(Map::empty(), list) == Ok::<Map<Seq<char>, Seq<char>>, ApiError<Seq<char>>>(
            stored,
        ),
        ascending(keys_of(pairs)),
        map_of(pairs) == stored,
    ensures
        query_from(Map::empty(), pair_texts(pairs, "="@)) == Ok::<
            Map<Seq<char>, Seq<char>>,
            ApiError<Seq<char>>,
        >(stored),
{
    lemma_query_keys(Map::empty(), list, stored);
    lemma_ascending_distinct(keys_of(pairs));
    lemma_map_of(pairs);
    assert forall|k: int| 0 <= k < pairs.len() implies stored_key(#[trigger] keys_of(pairs)[k], '=') by {
        assert(keys_of(pairs).contains(keys_of(pairs)[k]));
        assert(stored.contains_key(keys_of(pairs)[k]));
    }
    lemma_query_replays(pairs, 0);
    assert(pair_texts(pairs, "="@).subrange(0, pairs.len() as int) =~= pair_texts(pairs, "="@));
    assert(pairs.subrange(0, 0) =~= Seq::<(Seq<char>, Seq<char>)>::empty());
}

/// Whether a pair can be a stored header.
pub open spec fn stored_header(name: Seq<char>, value: Seq<char>) -> bool {
    stored_key(name, ':') && free_header(name) && trimmed(value) == value
}

proof fn lemma_headers_stored(
    map: Map<Seq<char>, Seq<char>>,
    list: Seq<Seq<char>>,
    stored: Map<Seq<char>, Seq<char>>,
)
    requires
        forall|name: Seq<char>|
            #![trigger map.contains_key(name)]
            map.contains_key(name) ==> stored_header(name, map[name]),
        headers_from(map, list) == Ok::<Map<Seq<char>, Seq<char>>, ApiError<Seq<char>>>(stored),
    ensures
        forall|name: Seq<char>|
            #![trigger stored.contains_key(name)]
            stored.contains_key(name) ==> stored_header(name, stored[name]),
    decreases list.len(),
{
    if list.len() > 0 {
        match with_header(map, list[0]) {
            Err(_) => {},
            Ok(more) => {
                lemma_left_is_stored_key(list[0], ':');
                lemma_trimmed_again(split_once_spec(list[0], ':')->Some_0.1);
                assert forall|name: Seq<char>|
                    #![trigger more.contains_key(name)]
                    more.contains_key(name) implies stored_header(name, more[name]) by {
                    if map.contains_key(name) {
                    }
                }
                lemma_headers_stored(more, list.drop_first(), stored);
            },
        }
    }
}

proof fn lemma_headers_replay(pairs: Seq<(Seq<char>, Seq<char>)>, i: int)
    requires
        0 <= i <= pairs.len(),
        keys_of(pairs).no_duplicates(),
        forall|k: int| 0 <= k < pairs.len() ==> stored_header((#[trigger] pairs[k]).0, pairs[k].1),
    ensures
        headers_from(
            map_of(pairs.subrange(0, i)),
            pair_texts(pairs, ": "@).subrange(i, pairs.len() as int),
        ) == Ok::<Map<Seq<char>, Seq<char>>, ApiError<Seq<char>>>(map_of(pairs)),
    decreases pairs.len() - i,
{
    let listed = pair_texts(pairs, ": "@);
    let rest = listed.subrange(i, pairs.len() as int);
    let front = pairs.subrange(0, i);
    if i == pairs.len() {
        assert(front =~= pairs);
    } else {
        let (key, value) = pairs[i];
        reveal_strlit(": ");
        assert(": "@ =~= seq![':', ' ']);
        assert(keys_of(pairs)[i] == key);
        lemma_pair_splits(key, seq![' '] + value, ':');
        assert(rest[0] =~= key + seq![':'] + (seq![' '] + value));
        lemma_trimmed_after_space(value);
        assert(keys_of(front) =~= keys_of(pairs).subrange(0, i));
        lemma_map_of(front);
        assert(!keys_of(front).contains(key)) by {
            assert forall|k: int| 0 <= k < i implies keys_of(front)[k] != key by {
                assert(keys_of(pairs)[k] != keys_of(pairs)[i]);
            }
        }
        let longer = pairs.subrange(0, i + 1);
        assert(longer.drop_last() =~= front);
        assert(map_of(longer) == map_of(front).insert(key, value));
        assert(rest.drop_first() =~= listed.subrange(i + 1, pairs.len() as int));
        lemma_headers_replay(pairs, i + 1);
    }
}

/// Storing a request's headers loses nothing: the stored map, listed as
/// `Name: value` in the order of its names, reads back as the same map.
pub proof fn law_stored_headers_read_back(
    list: Seq<Seq<char>>,
    stored: Map<Seq<char>, Seq<char>>,
    pairs: Seq<(Seq<char>, Seq<char>)>,
)
    requires
        headers_from(Map::empty(), list) == Ok::<Map<Seq<char>, Seq<char>>, ApiError<Seq<char>>>(
            stored,
        ),
        ascending(keys_of(pairs)),
        map_of(pairs) == stored,
    ensures
        headers_from(Map::empty(), pair_texts(pairs, ": "@)) == Ok::<
            Map<Seq<char>, Seq<char>>,
            ApiError<Seq<char>>,
        >(stored),
{
    lemma_headers_stored(Map::empty(), list, stored);
    lemma_ascending_distinct(keys_of(pairs));
    lemma_map_of(pairs);
    assert forall|k: int| 0 <= k < pairs.len() implies stored_header((#[trigger] pairs[k]).0, pairs[k].1) by {
        assert(keys_of(pairs)[k] == pairs[k].0);
        assert(keys_of(pairs).contains(pairs[k].0));
        assert(stored.contains_key(pairs[k].0));
    }
    lemma_headers_replay(pairs, 0);
    assert(pair_texts(pairs, ": "@).subrange(0, pairs.len() as int) =~= pair_texts(pairs, ": "@));
    assert(pairs.subrange(0, 0) =~= Seq::<(Seq<char>, Seq<char>)>::empty());
}

/// A variable has the value that was set last: settings are taken one after the
/// other, each in place of an earlier value, and the others stay.
pub proof fn law_the_last_setting_counts(
    vars: Map<Seq<char>, Seq<char>>,
    list: Seq<Seq<char>>,
    name: Seq<char>,
    value: Seq<char>,
    other: Seq<char>,
)
    requires
        vars_from(vars, list) is Ok,
        !name.contains('='),
    ensures
        ({
            let before = vars_from(vars, list)->Ok_0;
            let after = vars_from(vars, list.push(name + seq!['='] + value));
            &&& after is Ok
            &&& after->Ok_0.contains_key(trimmed(name))
            &&& after->Ok_0[trimmed(name)] == value
            &&& other != trimmed(name) ==> after->Ok_0.contains_key(other) == before.contains_key(
                other,
            )
            &&& other != trimmed(name) && before.contains_key(other) ==> after->Ok_0[other]
                == before[other]
        }),
    decreases list.len(),
{
    let raw = name + seq!['='] + value;
    crate::text::law_texts_part_at_the_first_place(name, '=', value);
    let more = list.push(raw);
    if list.len() == 0 {
        assert(more[0] == raw);
        assert(more.drop_first() =~= Seq::<Seq<char>>::empty());
        reveal_with_fuel(vars_from, 2);
    } else {
        assert(more[0] == list[0]);
        assert(more.drop_first() =~= list.drop_first().push(raw));
        let pair = split_once_spec(list[0], '=')->Some_0;
        law_the_last_setting_counts(
            vars.insert(trimmed(pair.0), pair.1),
            list.drop_first(),
            name,
            value,
            other,
        );
    }
}

/// What is stored of query parameters and of headers is what was given: one more is
/// there under its name, without the blanks around it, with its value, and a second
/// value for a name is refused rather than stored in place of the first.
pub proof fn law_stored_pairs_are_those_given(
    map: Map<Seq<char>, Seq<char>>,
    name: Seq<char>,
    value: Seq<char>,
)
    requires
        !name.contains('='),
        !name.contains(':'),
    ensures
        !map.contains_key(trimmed(name)) || map[trimmed(name)] == value ==> with_query(
            map,
            name + seq!['='] + value,
        ) == Ok::<Map<Seq<char>, Seq<char>>, ApiError<Seq<char>>>(
            map.insert(trimmed(name), value),
        ),
        map.contains_key(trimmed(name)) && map[trimmed(name)] != value ==> with_query(
            map,
            name + seq!['='] + value,
        ) is Err,
        free_header(trimmed(name)) && !map.contains_key(trimmed(name)) ==> with_header(
            map,
            name + seq![':'] + value,
        ) == Ok::<Map<Seq<char>, Seq<char>>, ApiError<Seq<char>>>(
            map.insert(trimmed(name), trimmed(value)),
        ),
        map.contains_key(trimmed(name)) && map[trimmed(name)] != trimmed(value) ==> with_header(
            map,
            name + seq![':'] + value,
        ) is Err,
        !free_header(trimmed(name)) ==> with_header(map, name + seq![':'] + value) is Err,
{
    crate::text::law_texts_part_at_the_first_place(name, '=', value);
    crate::text::law_texts_part_at_the_first_place(name, ':', value);
}

/// Stored pairs are taken one after the other, and the first that is refused
/// refuses them all.
pub proof fn law_stored_pairs_are_taken_in_turn(
    map: Map<Seq<char>, Seq<char>>,
    first: Seq<char>,
    rest: Seq<Seq<char>>,
)
    ensures
        query_from(map, seq![first] + rest) == match with_query(map, first) {
            Ok(more) => query_from(more, rest),
            Err(fault) => Err(fault),
        },
        headers_from(map, seq![first] + rest) == match with_header(map, first) {
            Ok(more) => headers_from(more, rest),
            Err(fault) => Err(fault),
        },
        query_from(map, Seq::empty()) == Ok::<Map<Seq<char>, Seq<char>>, ApiError<Seq<char>>>(map),
        headers_from(map, Seq::empty()) == Ok::<Map<Seq<char>, Seq<char>>, ApiError<Seq<char>>>(
            map,
        ),
{
    assert((seq![first] + rest).drop_first() =~= rest);
}

/// The headers that carry the credentials are the auth layer's own, whatever the
/// case of their names; no request may name one, nor the content type.
pub proof fn law_credentials_are_not_free(name: Seq<char>)
    ensures
        lowered(name) == "authorization"@ || lowered(name) == "cookie"@ || lowered(name)
            == "x-adp-token"@ || lowered(name) == "x-adp-alg"@ || lowered(name)
            == "x-adp-signature"@ || lowered(name) == "x-amz-access-token"@ ==> !free_header(name),
        lowered(name) == lowered("content-type"@) ==> !free_header(name),
        name.len() > 0 && !free_header(name) ==> lowered(name) == "authorization"@ || lowered(name)
            == "cookie"@ || lowered(name) == "x-adp-token"@ || lowered(name) == "x-adp-alg"@
            || lowered(name) == "x-adp-signature"@ || lowered(name) == "x-amz-access-token"@
            || lowered(name) == lowered("content-type"@),
{
}

} // verus!
