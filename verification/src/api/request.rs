//! A request from its raw parts to what is sent: merged from the command line
//! and a request file, rendered, checked, and shown.

use vstd::prelude::*;
use vstd::string::StrSliceExecFns;
use vstd::string::StringExecFns;
use vstd::utf8::decode_utf8;
use vstd::utf8::encode_utf8;
use vstd::utf8::encode_utf8_decode_utf8;
use vstd::utf8::encode_utf8_valid_utf8;
use vstd::utf8::valid_utf8;
use super::auth_mode_str;
use super::auth_of;
use super::auth_word;
use super::bare_path;
use super::error::ApiError;
use super::http::header_name_accepted;
use super::http::header_value_accepted;
use super::http::method_accepted;
use super::http::queryless;
use super::http::scheme_of;
use super::http::token;
use super::http::url_scheme;
use super::http::url_without_query;
use super::http::value_bytes;
use super::normalize_api_path;
use super::normalized;
use super::parse_auth_mode;
use super::path_without_query;
use super::query::merge_query;
use super::query::merged;
use super::request_file::auth_managed;
use super::request_file::collect_vars;
use super::request_file::file_vars;
use super::request_file::headers_from;
use super::request_file::is_auth_managed_header;
use super::request_file::pair_texts;
use super::request_file::parse_header_strings;
use super::request_file::parse_query_strings;
use super::request_file::query_from;
use super::request_file::rendered;
use super::request_file::unknown_names;
use super::request_file::vars_from;
use super::request_file::RequestFile;
use super::request_file::Templater;
use super::AuthMode;
use crate::json::compact;
use crate::json::compact_text;
use crate::json::document;
use crate::json::held;
use crate::json::pretty;
use crate::json::pretty_text;
use crate::json::value_from_bytes;
use crate::json::JsonView;
use crate::paths::absolute;
use crate::paths::is_absolute;
use crate::paths::join_path;
use crate::paths::joined_path;
use crate::text::cat2;
use crate::text::cat3;
use crate::text::cat4;
use crate::text::chars_of;
use crate::text::copy_text;
use crate::text::decimal;
use crate::text::from_utf8;
use crate::text::join;
use crate::text::joined;
use crate::text::lowered;
use crate::text::number;
use crate::text::opt_str;
use crate::text::opt_text;
use crate::text::raised;
use crate::text::same;
use crate::text::same_ignoring_ascii_case;
use crate::text::split_once;
use crate::text::split_once_spec;
use crate::text::texts;
use crate::text::to_ascii_upper;
use crate::text::to_upper;
use crate::text::trim;
use crate::text::trimmed;
use crate::text::unicode_upper;
use crate::text_map::ascending;
use crate::text_map::map_of;
use crate::text_map::pairs_of;
use crate::text_map::TextMap;
use super::request_file::law_plain_text_stays;
use super::request_file::plain;

verus! {

/// A body and how it is sent.
#[derive(Debug)]
pub enum ResolvedBody {
    /// A JSON value.
    Json(serde_json::Value),
    /// Bytes of the given content type.
    Raw {
        /// The bytes.
        bytes: Vec<u8>,
        /// The content type.
        content_type: String,
    },
}

/// A body, with its JSON value and its texts.
pub enum BodyView {
    /// A JSON value.
    Json(JsonView),
    /// Bytes of the given content type.
    Raw {
        /// The bytes.
        bytes: Seq<u8>,
        /// The content type.
        content_type: Seq<char>,
    },
}

impl View for ResolvedBody {
    type V = BodyView;

    open spec fn view(&self) -> BodyView {
        match *self {
            ResolvedBody::Json(value) => BodyView::Json(held(value)),
            ResolvedBody::Raw { bytes, content_type } => BodyView::Raw {
                bytes: bytes@,
                content_type: content_type@,
            },
        }
    }
}

/// The view of an optional body.
pub open spec fn opt_body(body: Option<ResolvedBody>) -> Option<BodyView> {
    match body {
        Some(b) => Some(b@),
        None => None,
    }
}

/// A method in capitals, where HTTP accepts it.
pub open spec fn method_of(raw: Seq<char>) -> Result<Seq<char>, ApiError<Seq<char>>> {
    if token(encode_utf8(raised(raw))) {
        Ok(raised(raw))
    } else {
        Err(ApiError::MethodInvalid(raw))
    }
}

/// Reads a method: ASCII letters count as capitals.
pub fn parse_method(raw: &str) -> (method: Result<String, ApiError<String>>)
    ensures
        match method {
            Ok(m) => method_of(raw@) == Ok::<Seq<char>, ApiError<Seq<char>>>(m@),
            Err(e) => method_of(raw@) == Err::<Seq<char>, ApiError<Seq<char>>>(e@),
        },
{
    let method = to_ascii_upper(raw);
    if method_accepted(method.as_str()) {
        Ok(method)
    } else {
        Err(ApiError::MethodInvalid(String::from_str(raw)))
    }
}

/// The header that a `Name: value` text stands for: not one that the auth layer
/// or the body owns, and one that HTTP accepts.
pub open spec fn header_of(raw: Seq<char>) -> Result<
    (Seq<char>, Seq<char>),
    ApiError<Seq<char>>,
> {
    match split_once_spec(raw, ':') {
        None => Err(ApiError::HeaderNotPair(raw)),
        Some((left, right)) => {
            let name = trimmed(left);
            let value = trimmed(right);
            if name.len() == 0 {
                Err(ApiError::HeaderNameEmpty(raw))
            } else if auth_managed(lowered(name)) {
                Err(ApiError::HeaderManaged(name))
            } else if lowered(name) == lowered("content-type"@) {
                Err(ApiError::HeaderContentType)
            } else if !token(encode_utf8(name)) || encode_utf8(name).len() > 65535 {
                Err(ApiError::HeaderName(name))
            } else if !value_bytes(encode_utf8(value)) {
                Err(ApiError::HeaderValue(name))
            } else {
                Ok((name, value))
            }
        },
    }
}

/// Reads a `Name: value` header.
pub fn parse_header(raw: &str) -> (header: Result<(String, String), ApiError<String>>)
    ensures
        match header {
            Ok(pair) => header_of(raw@) == Ok::<(Seq<char>, Seq<char>), ApiError<Seq<char>>>(
                (pair.0@, pair.1@),
            ),
            Err(e) => header_of(raw@) == Err::<(Seq<char>, Seq<char>), ApiError<Seq<char>>>(e@),
        },
{
    match split_once(raw, ':') {
        None => Err(ApiError::HeaderNotPair(String::from_str(raw))),
        Some((left, right)) => {
            let name = trim(left.as_str());
            let value = trim(right.as_str());
            if name.as_str().is_empty() {
                Err(ApiError::HeaderNameEmpty(String::from_str(raw)))
            } else if is_auth_managed_header(name.as_str()) {
                Err(ApiError::HeaderManaged(name))
            } else if same_ignoring_ascii_case(name.as_str(), "content-type") {
                Err(ApiError::HeaderContentType)
            } else if !header_name_accepted(name.as_str()) {
                Err(ApiError::HeaderName(name))
            } else if !header_value_accepted(value.as_str()) {
                Err(ApiError::HeaderValue(name))
            } else {
                Ok((name, value))
            }
        },
    }
}

/// The headers that the texts stand for, behind those that are there, or the
/// first fault.
pub open spec fn headers_of(
    done: Seq<(Seq<char>, Seq<char>)>,
    list: Seq<Seq<char>>,
) -> Result<Seq<(Seq<char>, Seq<char>)>, ApiError<Seq<char>>>
    decreases list.len(),
{
    if list.len() == 0 {
        Ok(done)
    } else {
        match header_of(list[0]) {
            Err(error) => Err(error),
            Ok(pair) => headers_of(done.push(pair), list.drop_first()),
        }
    }
}

/// Reads `Name: value` headers, in order.
pub fn parse_headers(list: &[String]) -> (headers: Result<
    Vec<(String, String)>,
    ApiError<String>,
>)
    ensures
        match headers {
            Ok(pairs) => headers_of(Seq::empty(), texts(list@)) == Ok::<
                Seq<(Seq<char>, Seq<char>)>,
                ApiError<Seq<char>>,
            >(pairs_of(pairs@)),
            Err(e) => headers_of(Seq::empty(), texts(list@)) == Err::<
                Seq<(Seq<char>, Seq<char>)>,
                ApiError<Seq<char>>,
            >(e@),
        },
{
    let ghost all = texts(list@);
    let mut pairs: Vec<(String, String)> = Vec::new();
    let mut i: usize = 0;
    assert(pairs_of(pairs@) =~= Seq::<(Seq<char>, Seq<char>)>::empty());
    assert(all.subrange(0, all.len() as int) =~= all);
    while i < list.len()
        invariant
            i <= list@.len(),
            all == texts(list@),
            headers_of(Seq::empty(), all) == headers_of(
                pairs_of(pairs@),
                all.subrange(i as int, all.len() as int),
            ),
        decreases list.len() - i,
    {
        let ghost rest = all.subrange(i as int, all.len() as int);
        assert(rest[0] == list@[i as int]@);
        assert(rest.drop_first() =~= all.subrange(i + 1, all.len() as int));
        match parse_header(list[i].as_str()) {
            Err(error) => {
                return Err(error);
            },
            Ok(pair) => {
                let ghost before = pairs_of(pairs@);
                pairs.push(pair);
                assert(pairs_of(pairs@) =~= before.push((pair.0@, pair.1@)));
            },
        }
        i = i + 1;
    }
    Ok(pairs)
}

/// How bytes are sent: as they are with a content type, as the JSON document
/// that they hold without.
pub open spec fn body_of(bytes: Seq<u8>, content_type: Option<Seq<char>>) -> Result<
    BodyView,
    ApiError<Seq<char>>,
> {
    match content_type {
        Some(kind) => if value_bytes(encode_utf8(kind)) {
            Ok(BodyView::Raw { bytes, content_type: kind })
        } else {
            Err(ApiError::ContentTypeInvalid(kind))
        },
        None => match document(bytes) {
            Some(json) => Ok(BodyView::Json(json)),
            None => Err(ApiError::BodyNotJson),
        },
    }
}

/// Decides how bytes are sent.
pub fn classify_body(bytes: Vec<u8>, content_type: Option<String>) -> (body: Result<
    ResolvedBody,
    ApiError<String>,
>)
    ensures
        match body {
            Ok(b) => body_of(bytes@, opt_text(content_type)) == Ok::<
                BodyView,
                ApiError<Seq<char>>,
            >(b@),
            Err(e) => body_of(bytes@, opt_text(content_type)) == Err::<
                BodyView,
                ApiError<Seq<char>>,
            >(e@),
        },
{
    match content_type {
        Some(kind) => {
            if header_value_accepted(kind.as_str()) {
                Ok(ResolvedBody::Raw { bytes, content_type: kind })
            } else {
                Err(ApiError::ContentTypeInvalid(kind))
            }
        },
        None => match value_from_bytes(bytes.as_slice()) {
            Ok(value) => Ok(ResolvedBody::Json(value)),
            Err(_) => Err(ApiError::BodyNotJson),
        },
    }
}

/// The body of a request; a content type without bytes is a fault.
pub open spec fn final_body(bytes: Option<Seq<u8>>, content_type: Option<Seq<char>>) -> Result<
    Option<BodyView>,
    ApiError<Seq<char>>,
> {
    match bytes {
        Some(b) => match body_of(b, content_type) {
            Ok(body) => Ok(Some(body)),
            Err(error) => Err(error),
        },
        None => if content_type is Some {
            Err(ApiError::ContentTypeWithoutBody)
        } else {
            Ok(None)
        },
    }
}

/// The bytes of an optional list.
pub open spec fn opt_bytes(bytes: Option<Vec<u8>>) -> Option<Seq<u8>> {
    match bytes {
        Some(b) => Some(b@),
        None => None,
    }
}

/// Decides the body of a request.
pub fn finalize_body(bytes: Option<Vec<u8>>, content_type: Option<String>) -> (body: Result<
    Option<ResolvedBody>,
    ApiError<String>,
>)
    ensures
        match body {
            Ok(b) => final_body(opt_bytes(bytes), opt_text(content_type)) == Ok::<
                Option<BodyView>,
                ApiError<Seq<char>>,
            >(opt_body(b)),
            Err(e) => final_body(opt_bytes(bytes), opt_text(content_type)) == Err::<
                Option<BodyView>,
                ApiError<Seq<char>>,
            >(e@),
        },
{
    match bytes {
        Some(b) => match classify_body(b, content_type) {
            Ok(body) => Ok(Some(body)),
            Err(error) => Err(error),
        },
        None => {
            if content_type.is_some() {
                Err(ApiError::ContentTypeWithoutBody)
            } else {
                Ok(None)
            }
        },
    }
}

/// The body file of a request file, seen from the file's own directory; `-`,
/// the standard input, stays.
pub open spec fn body_path(body_file: Seq<char>, base: Option<Seq<char>>) -> Seq<char> {
    if body_file == "-"@ || absolute(body_file) {
        body_file
    } else {
        match base {
            Some(dir) => joined_path(dir, body_file),
            None => body_file,
        }
    }
}

/// Resolves the body file of a request file, so that both travel together.
pub fn resolve_body_path(body_file: &str, base: Option<&str>) -> (path: String)
    ensures
        path@ == body_path(body_file@, opt_str(base)),
{
    if same(body_file, "-") || is_absolute(body_file) {
        return String::from_str(body_file);
    }
    match base {
        Some(dir) => join_path(dir, body_file),
        None => String::from_str(body_file),
    }
}

/// What the command line says of a request.
#[derive(Debug)]
pub struct ApiArgs {
    /// The method.
    pub method: Option<String>,
    /// The path.
    pub path: Option<String>,
    /// The auth mode.
    pub auth: AuthMode,
    /// Query parameters, `key=value`.
    pub query: Vec<String>,
    /// Template variables, `key=value`.
    pub var: Vec<String>,
    /// Headers, `Name: value`.
    pub header: Vec<String>,
    /// The content type of a raw body.
    pub content_type: Option<String>,
    /// The body itself.
    pub body: Option<String>,
    /// The file that holds the body.
    pub body_file: Option<String>,
}

/// A request merged from the command line and a file, before its templates are
/// filled.
#[derive(Debug)]
pub struct Composed {
    /// The template variables.
    pub vars: TextMap,
    /// The method.
    pub method: String,
    /// The path.
    pub path: String,
    /// The auth mode.
    pub auth: AuthMode,
    /// The marketplace that the file asks for.
    pub marketplace: Option<String>,
    /// Query parameters: those of the file, then those of the command line.
    pub query: Vec<String>,
    /// Headers: those of the file, then those of the command line.
    pub headers: Vec<String>,
    /// The body itself.
    pub body: Option<String>,
    /// The file that holds the body.
    pub body_file: Option<String>,
    /// The content type of a raw body.
    pub content_type: Option<String>,
}

/// The first text, or the second where there is none.
pub open spec fn first_given(a: Option<Seq<char>>, b: Option<Seq<char>>) -> Option<Seq<char>> {
    if a is Some {
        a
    } else {
        b
    }
}

/// The method that is asked for.
pub open spec fn raw_method(args: ApiArgs, file: Option<&RequestFile>) -> Option<Seq<char>> {
    first_given(
        opt_text(args.method),
        match file {
            Some(f) => opt_text(f.method),
            None => None,
        },
    )
}

/// The path that is asked for.
pub open spec fn raw_path(args: ApiArgs, file: Option<&RequestFile>) -> Option<Seq<char>> {
    first_given(
        opt_text(args.path),
        match file {
            Some(f) => opt_text(f.path),
            None => None,
        },
    )
}

/// The auth mode that the file asks for, where the command line gives none.
pub open spec fn file_auth(explicit: bool, file: Option<&RequestFile>) -> Option<Seq<char>> {
    match file {
        Some(f) => if explicit {
            None
        } else {
            opt_text(f.auth)
        },
        None => None,
    }
}

/// The query parameters of the file and those of the command line.
pub open spec fn raw_query(args: ApiArgs, file: Option<&RequestFile>) -> Seq<Seq<char>> {
    match file {
        Some(f) => pair_texts(f.query.pairs(), "="@) + texts(args.query@),
        None => texts(args.query@),
    }
}

/// The headers of the file and those of the command line.
pub open spec fn raw_headers(args: ApiArgs, file: Option<&RequestFile>) -> Seq<Seq<char>> {
    match file {
        Some(f) => pair_texts(f.headers.pairs(), ": "@) + texts(args.header@),
        None => texts(args.header@),
    }
}

/// The body itself, the file of the body and the content type: anything that
/// the command line says of them replaces all that the file says.
pub open spec fn raw_body(
    args: ApiArgs,
    file: Option<&RequestFile>,
    file_dir: Option<Seq<char>>,
) -> (Option<Seq<char>>, Option<Seq<char>>, Option<Seq<char>>) {
    if args.body is Some || args.body_file is Some || args.content_type is Some {
        (opt_text(args.body), opt_text(args.body_file), opt_text(args.content_type))
    } else {
        match file {
            Some(f) => (
                opt_text(f.body),
                match opt_text(f.body_file) {
                    Some(path) => Some(body_path(path, file_dir)),
                    None => None,
                },
                opt_text(f.content_type),
            ),
            None => (None, None, None),
        }
    }
}

/// What keeps a request from being composed, looked for in this order: a
/// variable that is no pair, no method, no path, an unknown auth mode.
pub open spec fn compose_fault(args: ApiArgs, explicit: bool, file: Option<&RequestFile>) -> Option<
    ApiError<Seq<char>>,
> {
    match vars_from(file_vars(file), texts(args.var@)) {
        Err(error) => Some(error),
        Ok(_) => if raw_method(args, file) is None {
            Some(ApiError::MethodMissing)
        } else if raw_path(args, file) is None {
            Some(ApiError::PathMissing)
        } else {
            match file_auth(explicit, file) {
                Some(word) => if auth_of(word) is None {
                    Some(ApiError::AuthUnknown(word))
                } else {
                    None
                },
                None => None,
            }
        },
    }
}

/// The marketplace that the file asks for.
pub open spec fn file_market(file: Option<&RequestFile>) -> Option<Seq<char>> {
    match file {
        Some(f) => opt_text(f.marketplace),
        None => None,
    }
}

/// The auth mode of a request.
pub open spec fn composed_auth(args: ApiArgs, explicit: bool, file: Option<&RequestFile>) -> AuthMode {
    match file_auth(explicit, file) {
        Some(word) => match auth_of(word) {
            Some(mode) => mode,
            None => args.auth,
        },
        None => args.auth,
    }
}

fn append_texts(list: &mut Vec<String>, more: &Vec<String>)
    ensures
        texts(final(list)@) == texts(old(list)@) + texts(more@),
{
    let ghost before = texts(list@);
    let mut i: usize = 0;
    while i < more.len()
        invariant
            i <= more@.len(),
            texts(list@) == before + texts(more@).subrange(0, i as int),
        decreases more.len() - i,
    {
        let ghost now = texts(list@);
        list.push(more[i].clone());
        assert(texts(list@) =~= now.push(more@[i as int]@));
        i = i + 1;
        assert(texts(more@).subrange(0, i as int) =~= texts(more@).subrange(0, i - 1).push(
            more@[i - 1]@,
        ));
        assert(texts(list@) =~= before + texts(more@).subrange(0, i as int));
    }
    assert(texts(more@).subrange(0, i as int) =~= texts(more@));
}

/// Merges what the command line and a request file say of a request; the
/// command line wins.
pub fn compose(
    args: &ApiArgs,
    auth_explicit: bool,
    file: Option<&RequestFile>,
    file_dir: Option<&str>,
) -> (result: Result<Composed, ApiError<String>>)
    ensures
        match result {
            Err(e) => compose_fault(*args, auth_explicit, file) == Some(e@),
            Ok(c) => {
                &&& compose_fault(*args, auth_explicit, file) is None
                &&& vars_from(file_vars(file), texts(args.var@)) == Ok::<
                    Map<Seq<char>, Seq<char>>,
                    ApiError<Seq<char>>,
                >(c.vars@)
                &&& raw_method(*args, file) == Some(c.method@)
                &&& raw_path(*args, file) == Some(c.path@)
                &&& c.auth == composed_auth(*args, auth_explicit, file)
                &&& opt_text(c.marketplace) == file_market(file)
                &&& texts(c.query@) == raw_query(*args, file)
                &&& texts(c.headers@) == raw_headers(*args, file)
                &&& (opt_text(c.body), opt_text(c.body_file), opt_text(c.content_type)) == raw_body(
                    *args,
                    file,
                    opt_str(file_dir),
                )
            },
        },
{
    let vars = match collect_vars(file, args.var.as_slice()) {
        Ok(vars) => vars,
        Err(error) => {
            return Err(error);
        },
    };
    let method = match (&args.method, file) {
        (Some(text), _) => text.clone(),
        (None, Some(f)) => match &f.method {
            Some(text) => text.clone(),
            None => {
                return Err(ApiError::MethodMissing);
            },
        },
        (None, None) => {
            return Err(ApiError::MethodMissing);
        },
    };
    let path = match (&args.path, file) {
        (Some(text), _) => text.clone(),
        (None, Some(f)) => match &f.path {
            Some(text) => text.clone(),
            None => {
                return Err(ApiError::PathMissing);
            },
        },
        (None, None) => {
            return Err(ApiError::PathMissing);
        },
    };
    let mut auth = args.auth;
    if let Some(f) = file {
        if !auth_explicit {
            if let Some(word) = &f.auth {
                match parse_auth_mode(word.as_str()) {
                    Some(mode) => {
                        auth = mode;
                    },
                    None => {
                        return Err(ApiError::AuthUnknown(word.clone()));
                    },
                }
            }
        }
    }
    let marketplace = match file {
        Some(f) => copy_text(&f.marketplace),
        None => None,
    };
    let mut query = match file {
        Some(f) => f.query_as_strings(),
        None => Vec::new(),
    };
    append_texts(&mut query, &args.query);
    let mut headers = match file {
        Some(f) => f.headers_as_strings(),
        None => Vec::new(),
    };
    append_texts(&mut headers, &args.header);
    proof {
        if file is None {
            assert(texts(query@) =~= texts(args.query@));
            assert(texts(headers@) =~= texts(args.header@));
        }
    }
    let (body, body_file, content_type) = if args.body.is_some() || args.body_file.is_some()
        || args.content_type.is_some() {
        (copy_text(&args.body), copy_text(&args.body_file), copy_text(&args.content_type))
    } else {
        match file {
            Some(f) => {
                let body_file = match &f.body_file {
                    Some(path) => Some(resolve_body_path(path.as_str(), file_dir)),
                    None => None,
                };
                (copy_text(&f.body), body_file, copy_text(&f.content_type))
            },
            None => (None, None, None),
        }
    };
    Ok(
        Composed {
            vars,
            method,
            path,
            auth,
            marketplace,
            query,
            headers,
            body,
            body_file,
            content_type,
        },
    )
}

/// The stored word for an auth mode: the default is not stored.
pub open spec fn stored_auth(mode: AuthMode) -> Option<Seq<char>> {
    if mode == AuthMode::Auto {
        None
    } else {
        Some(auth_word(mode))
    }
}

fn auth_to_store(mode: AuthMode) -> (word: Option<String>)
    ensures
        opt_text(word) == stored_auth(mode),
{
    if mode == AuthMode::Auto {
        None
    } else {
        Some(String::from_str(auth_mode_str(mode)))
    }
}

/// Whether a request file stores a composed request, with these parameters and
/// headers.
pub open spec fn stores_request(
    file: RequestFile,
    request: Composed,
    query: Map<Seq<char>, Seq<char>>,
    headers: Map<Seq<char>, Seq<char>>,
) -> bool {
    &&& opt_text(file.method) == Some(request.method@)
    &&& opt_text(file.path) == Some(request.path@)
    &&& opt_text(file.auth) == stored_auth(request.auth)
    &&& opt_text(file.marketplace) == opt_text(request.marketplace)
    &&& opt_text(file.content_type) == opt_text(request.content_type)
    &&& opt_text(file.body) == opt_text(request.body)
    &&& opt_text(file.body_file) == opt_text(request.body_file)
    &&& file.query@ == query
    &&& file.headers@ == headers
    &&& file.vars@ == request.vars@
}

/// The request file that stores a composed request, its templates unfilled. A
/// request that a file cannot hold is refused rather than stored as another.
pub fn saved_request(request: Composed) -> (file: Result<RequestFile, ApiError<String>>)
    ensures
        match (
            query_from(Map::empty(), texts(request.query@)),
            headers_from(Map::empty(), texts(request.headers@)),
        ) {
            (Err(fault), _) => file matches Err(e) && e@ == fault,
            (Ok(_), Err(fault)) => file matches Err(e) && e@ == fault,
            (Ok(query), Ok(headers)) => file matches Ok(f) && stores_request(
                f,
                request,
                query,
                headers,
            ),
        },
{
    let query = match parse_query_strings(request.query.as_slice()) {
        Ok(map) => map,
        Err(error) => {
            return Err(error);
        },
    };
    let headers = match parse_header_strings(request.headers.as_slice()) {
        Ok(map) => map,
        Err(error) => {
            return Err(error);
        },
    };
    Ok(
        RequestFile {
            method: Some(request.method),
            path: Some(request.path),
            auth: auth_to_store(request.auth),
            marketplace: request.marketplace,
            content_type: request.content_type,
            body: request.body,
            body_file: request.body_file,
            query,
            headers,
            vars: request.vars,
        },
    )
}

/// A request whose templates are filled.
#[derive(Debug)]
pub struct Rendered {
    /// The method.
    pub method: String,
    /// The path.
    pub path: String,
    /// The query parameters.
    pub query: Vec<String>,
    /// The headers.
    pub headers: Vec<String>,
    /// The content type of a raw body.
    pub content_type: Option<String>,
    /// The marketplace that the file asks for.
    pub marketplace: Option<String>,
    /// The bytes of the body.
    pub body: Option<Vec<u8>>,
}

/// Each text of a list with its templates filled.
pub open spec fn all_rendered(list: Seq<Seq<char>>, vars: Map<Seq<char>, Seq<char>>) -> Seq<
    Seq<char>,
> {
    list.map_values(|s: Seq<char>| rendered(s, vars))
}

/// The names without a value in any text of a list.
pub open spec fn all_unknown(list: Seq<Seq<char>>, vars: Map<Seq<char>, Seq<char>>) -> Set<
    Seq<char>,
>
    decreases list.len(),
{
    if list.len() == 0 {
        Set::empty()
    } else {
        all_unknown(list.drop_last(), vars).union(unknown_names(list.last(), vars))
    }
}

/// An optional text with its templates filled.
pub open spec fn opt_rendered(text: Option<Seq<char>>, vars: Map<Seq<char>, Seq<char>>) -> Option<
    Seq<char>,
> {
    match text {
        Some(s) => Some(rendered(s, vars)),
        None => None,
    }
}

/// The names without a value in an optional text.
pub open spec fn opt_unknown(text: Option<Seq<char>>, vars: Map<Seq<char>, Seq<char>>) -> Set<
    Seq<char>,
> {
    match text {
        Some(s) => unknown_names(s, vars),
        None => Set::empty(),
    }
}

/// The text of the body, where it has one: the body itself, or what its file
/// holds as long as that is UTF-8.
pub open spec fn body_template(inline: Option<Seq<char>>, payload: Option<Seq<u8>>) -> Option<
    Seq<char>,
> {
    match (inline, payload) {
        (Some(text), _) => Some(text),
        (None, Some(bytes)) => if valid_utf8(bytes) {
            Some(decode_utf8(bytes))
        } else {
            None
        },
        (None, None) => None,
    }
}

/// The bytes of the body: its text with the templates filled, or the payload
/// as it is where that is no text.
pub open spec fn rendered_body(
    inline: Option<Seq<char>>,
    payload: Option<Seq<u8>>,
    vars: Map<Seq<char>, Seq<char>>,
) -> Option<Seq<u8>> {
    match body_template(inline, payload) {
        Some(text) => Some(encode_utf8(rendered(text, vars))),
        None => payload,
    }
}

/// The names without a value anywhere in a request.
pub open spec fn request_unknown(request: Composed, payload: Option<Seq<u8>>) -> Set<Seq<char>> {
    let vars = request.vars@;
    unknown_names(request.method@, vars).union(unknown_names(request.path@, vars)).union(
        all_unknown(texts(request.query@), vars),
    ).union(all_unknown(texts(request.headers@), vars)).union(
        opt_unknown(opt_text(request.content_type), vars),
    ).union(opt_unknown(opt_text(request.marketplace), vars)).union(
        opt_unknown(body_template(opt_text(request.body), payload), vars),
    )
}

fn render_all(templater: &mut Templater, list: &Vec<String>) -> (out: Vec<String>)
    ensures
        texts(out@) == all_rendered(texts(list@), old(templater).known()),
        final(templater).known() == old(templater).known(),
        final(templater).unknown() == old(templater).unknown().union(
            all_unknown(texts(list@), old(templater).known()),
        ),
{
    let ghost vars = templater.known();
    let ghost all = texts(list@);
    let ghost start = templater.unknown();
    let mut out: Vec<String> = Vec::new();
    let mut i: usize = 0;
    assert(all_unknown(all.subrange(0, 0), vars) =~= Set::<Seq<char>>::empty());
    assert(start.union(Set::<Seq<char>>::empty()) =~= start);
    while i < list.len()
        invariant
            i <= list@.len(),
            out@.len() == i,
            all == texts(list@),
            templater.known() == vars,
            forall|k: int| 0 <= k < i ==> (#[trigger] out@[k])@ == rendered(all[k], vars),
            templater.unknown() == start.union(all_unknown(all.subrange(0, i as int), vars)),
        decreases list.len() - i,
    {
        let text = templater.render(list[i].as_str());
        out.push(text);
        let ghost front = all.subrange(0, i + 1);
        assert(front.drop_last() =~= all.subrange(0, i as int));
        assert(front.last() == list@[i as int]@);
        assert(templater.unknown() =~= start.union(all_unknown(front, vars)));
        i = i + 1;
    }
    assert(all.subrange(0, i as int) =~= all);
    assert(texts(out@) =~= all_rendered(all, vars));
    out
}

fn render_opt(templater: &mut Templater, text: &Option<String>) -> (out: Option<String>)
    ensures
        opt_text(out) == opt_rendered(opt_text(*text), old(templater).known()),
        final(templater).known() == old(templater).known(),
        final(templater).unknown() == old(templater).unknown().union(
            opt_unknown(opt_text(*text), old(templater).known()),
        ),
{
    match text {
        Some(t) => Some(templater.render(t.as_str())),
        None => {
            assert(templater.unknown().union(Set::<Seq<char>>::empty()) =~= templater.unknown());
            None
        },
    }
}

/// Whether a request is another with its templates filled.
pub open spec fn renders(request: Composed, payload: Option<Seq<u8>>, r: Rendered) -> bool {
    &&& r.method@ == rendered(request.method@, request.vars@)
    &&& r.path@ == rendered(request.path@, request.vars@)
    &&& texts(r.query@) == all_rendered(texts(request.query@), request.vars@)
    &&& texts(r.headers@) == all_rendered(texts(request.headers@), request.vars@)
    &&& opt_text(r.content_type) == opt_rendered(opt_text(request.content_type), request.vars@)
    &&& opt_text(r.marketplace) == opt_rendered(opt_text(request.marketplace), request.vars@)
    &&& opt_bytes(r.body) == rendered_body(opt_text(request.body), payload, request.vars@)
}

/// Fills the templates of a request. `payload` is what the body file holds,
/// for a request with a body file and no body of its own.
pub fn render_request(request: &Composed, payload: Option<Vec<u8>>) -> (result: Result<
    Rendered,
    ApiError<String>,
>)
    ensures
        result is Ok <==> (request_unknown(*request, opt_bytes(payload)) =~= Set::<
            Seq<char>,
        >::empty()),
        match result {
            Ok(r) => renders(*request, opt_bytes(payload), r),
            Err(error) => exists|names: Seq<Seq<char>>|
                #![trigger ascending(names)]
                {
                    &&& ascending(names)
                    &&& forall|name: Seq<char>|
                        request_unknown(*request, opt_bytes(payload)).contains(name)
                            <==> names.contains(name)
                    &&& error@ == ApiError::UndefinedVariables(joined(names, ", "@))
                },
        },
{
    let mut templater = Templater::new(&request.vars);
    let method = templater.render(request.method.as_str());
    assert(templater.unknown() =~= unknown_names(request.method@, request.vars@));
    let path = templater.render(request.path.as_str());
    let query = render_all(&mut templater, &request.query);
    let headers = render_all(&mut templater, &request.headers);
    let content_type = render_opt(&mut templater, &request.content_type);
    let marketplace = render_opt(&mut templater, &request.marketplace);
    let ghost before = templater.unknown();
    let ghost given = opt_bytes(payload);
    let body: Option<Vec<u8>> = match (&request.body, payload) {
        (Some(text), _) => {
            let text = templater.render(text.as_str());
            Some(text.as_str().as_bytes_vec())
        },
        (None, Some(bytes)) => match from_utf8(bytes.as_slice()) {
            Some(text) => {
                proof {
                    encode_utf8_valid_utf8(text@);
                    encode_utf8_decode_utf8(text@);
                }
                let text = templater.render(text.as_str());
                Some(text.as_str().as_bytes_vec())
            },
            None => {
                assert(before.union(Set::<Seq<char>>::empty()) =~= before);
                Some(bytes)
            },
        },
        (None, None) => {
            assert(before.union(Set::<Seq<char>>::empty()) =~= before);
            None
        },
    };
    assert(templater.unknown() == request_unknown(*request, given));
    match templater.finish() {
        Err(error) => Err(error),
        Ok(()) => Ok(
            Rendered { method, path, query, headers, content_type, marketplace, body },
        ),
    }
}

/// A request that is ready to be sent.
#[derive(Debug)]
pub struct Prepared {
    /// The method in capitals.
    pub method: String,
    /// The path, or the whole URL of a foreign host.
    pub display_path: String,
    /// The query parameters.
    pub query: Vec<(String, String)>,
    /// The headers.
    pub headers: Vec<(String, String)>,
    /// The body.
    pub body: Option<ResolvedBody>,
}

/// The parts of a request that is ready to be sent.
pub struct PreparedView {
    /// The method in capitals.
    pub method: Seq<char>,
    /// The path, or the whole URL of a foreign host.
    pub display_path: Seq<char>,
    /// The query parameters.
    pub query: Seq<(Seq<char>, Seq<char>)>,
    /// The headers.
    pub headers: Seq<(Seq<char>, Seq<char>)>,
    /// The body.
    pub body: Option<BodyView>,
}

impl View for Prepared {
    type V = PreparedView;

    open spec fn view(&self) -> PreparedView {
        PreparedView {
            method: self.method@,
            display_path: self.display_path@,
            query: pairs_of(self.query@),
            headers: pairs_of(self.headers@),
            body: opt_body(self.body),
        }
    }
}

/// Where a request goes: to an API path, or, for a foreign host, to an `https`
/// URL as it stands.
pub open spec fn target(path: Seq<char>, foreign: bool) -> Result<Seq<char>, ApiError<Seq<char>>> {
    if foreign {
        match scheme_of(path) {
            None => Err(ApiError::UrlInvalid(path)),
            Some(scheme) => if scheme == "https"@ {
                Ok(path)
            } else {
                Err(ApiError::UrlNotHttps(scheme))
            },
        }
    } else {
        Ok(normalized(path))
    }
}

/// The request that a rendered one comes to, or the first fault in it: of the
/// method, the headers, the body, the target, the query.
pub open spec fn prepared(request: Rendered, foreign: bool) -> Result<
    PreparedView,
    ApiError<Seq<char>>,
> {
    match method_of(request.method@) {
        Err(error) => Err(error),
        Ok(method) => match headers_of(Seq::empty(), texts(request.headers@)) {
            Err(error) => Err(error),
            Ok(headers) => match final_body(
                opt_bytes(request.body),
                opt_text(request.content_type),
            ) {
                Err(error) => Err(error),
                Ok(body) => match target(request.path@, foreign) {
                    Err(error) => Err(error),
                    Ok(display_path) => match merged(display_path, texts(request.query@)) {
                        Err(error) => Err(error),
                        Ok(query) => Ok(
                            PreparedView { method, display_path, query, headers, body },
                        ),
                    },
                },
            },
        },
    }
}

/// Decides where a request goes.
pub fn resolve_target(path: &str, foreign: bool) -> (result: Result<String, ApiError<String>>)
    ensures
        match result {
            Ok(text) => target(path@, foreign) == Ok::<Seq<char>, ApiError<Seq<char>>>(text@),
            Err(e) => target(path@, foreign) == Err::<Seq<char>, ApiError<Seq<char>>>(e@),
        },
{
    if foreign {
        match url_scheme(path) {
            None => Err(ApiError::UrlInvalid(String::from_str(path))),
            Some(scheme) => {
                if same(scheme.as_str(), "https") {
                    Ok(String::from_str(path))
                } else {
                    Err(ApiError::UrlNotHttps(scheme))
                }
            },
        }
    } else {
        Ok(normalize_api_path(path))
    }
}

/// Checks a rendered request and brings it into the form that is sent.
pub fn prepare(request: Rendered, foreign: bool) -> (result: Result<Prepared, ApiError<String>>)
    ensures
        match result {
            Ok(p) => prepared(request, foreign) == Ok::<PreparedView, ApiError<Seq<char>>>(p@),
            Err(e) => prepared(request, foreign) == Err::<PreparedView, ApiError<Seq<char>>>(e@),
        },
{
    let method = match parse_method(request.method.as_str()) {
        Ok(method) => method,
        Err(error) => {
            return Err(error);
        },
    };
    let headers = match parse_headers(request.headers.as_slice()) {
        Ok(headers) => headers,
        Err(error) => {
            return Err(error);
        },
    };
    let body = match finalize_body(request.body, request.content_type) {
        Ok(body) => body,
        Err(error) => {
            return Err(error);
        },
    };
    let display_path = match resolve_target(request.path.as_str(), foreign) {
        Ok(path) => path,
        Err(error) => {
            return Err(error);
        },
    };
    let query = match merge_query(display_path.as_str(), request.query.as_slice()) {
        Ok(query) => query,
        Err(error) => {
            return Err(error);
        },
    };
    Ok(Prepared { method, display_path, query, headers, body })
}

/// Storing a header is refused for what it is named exactly where sending it is.
pub proof fn law_store_refuses_what_send_refuses(raw: Seq<char>)
    ensures
        super::request_file::with_header(Map::empty(), raw) is Ok <==> match header_of(raw) {
            Ok(_) => true,
            Err(ApiError::HeaderName(_)) => true,
            Err(ApiError::HeaderValue(_)) => true,
            Err(_) => false,
        },
{
}

/// Whether a content type can be shown: visible ASCII and tabs.
pub open spec fn visible(s: Seq<char>) -> bool {
    forall|i: int| 0 <= i < s.len() ==> (32 <= #[trigger] s[i] as u32 && (s[i] as u32) < 127) || s[i] == '\t'
}

/// A content type as it is shown, or `fallback` where it cannot be.
pub open spec fn shown_type(kind: Seq<char>, fallback: Seq<char>) -> Seq<char> {
    if visible(kind) {
        kind
    } else {
        fallback
    }
}

fn show_type(kind: &str, fallback: &str) -> (text: String)
    ensures
        text@ == shown_type(kind@, fallback@),
{
    let chars = chars_of(kind);
    let mut i: usize = 0;
    while i < chars.len()
        invariant
            i <= chars@.len(),
            chars@ == kind@,
            forall|k: int|
                0 <= k < i ==> (32 <= #[trigger] chars@[k] as u32 && (chars@[k] as u32) < 127)
                    || chars@[k] == '\t',
        decreases chars.len() - i,
    {
        let code: u32 = chars[i] as u32;
        if !((32 <= code && code < 127) || chars[i] == '\t') {
            assert(!visible(kind@)) by {
                assert(chars@[i as int] == kind@[i as int]);
            }
            return String::from_str(fallback);
        }
        i = i + 1;
    }
    String::from_str(kind)
}

/// The lines that show the body of a request.
pub open spec fn body_lines(body: Option<BodyView>) -> Seq<char> {
    match body {
        Some(BodyView::Json(json)) => "body (application/json):\n"@ + pretty_text(json) + "\n"@,
        Some(BodyView::Raw { bytes, content_type }) => {
            let head = "body ("@ + shown_type(content_type, "?"@);
            if valid_utf8(bytes) {
                head + "):\n"@ + decode_utf8(bytes) + "\n"@
            } else {
                head + "): <"@ + decimal(bytes.len() as int) + " bytes>\n"@
            }
        },
        None => Seq::empty(),
    }
}

/// One line for each header.
pub open spec fn header_lines(prefix: Seq<char>, headers: Seq<(Seq<char>, Seq<char>)>) -> Seq<char>
    decreases headers.len(),
{
    if headers.len() == 0 {
        Seq::empty()
    } else {
        header_lines(prefix, headers.drop_last()) + prefix + headers.last().0 + ": "@
            + headers.last().1 + "\n"@
    }
}

/// The path of a request with its query behind it.
pub open spec fn full_path(path: Seq<char>, query: Seq<(Seq<char>, Seq<char>)>) -> Seq<char> {
    if query.len() == 0 {
        bare_path(path)
    } else {
        bare_path(path) + "?"@ + joined(pair_texts(query, "="@), "&"@)
    }
}

/// The lines that show a request instead of sending it.
pub open spec fn dry_run(
    method: Seq<char>,
    path: Seq<char>,
    auth: AuthMode,
    query: Seq<(Seq<char>, Seq<char>)>,
    headers: Seq<(Seq<char>, Seq<char>)>,
    body: Option<BodyView>,
    marketplace: Option<Seq<char>>,
) -> Seq<char> {
    unicode_upper(method) + " "@ + full_path(path, query) + "\nauth: "@ + auth_word(auth) + "\n"@
        + (match marketplace {
        Some(market) => "marketplace: "@ + market + "\n"@,
        None => Seq::empty(),
    }) + header_lines("header: "@, headers) + body_lines(body)
}

fn show_headers(prefix: &str, headers: &Vec<(String, String)>) -> (lines: String)
    ensures
        lines@ == header_lines(prefix@, pairs_of(headers@)),
{
    let ghost all = pairs_of(headers@);
    let mut lines = String::new();
    let mut i: usize = 0;
    assert(lines@ =~= header_lines(prefix@, all.subrange(0, 0)));
    while i < headers.len()
        invariant
            i <= headers@.len(),
            all == pairs_of(headers@),
            lines@ == header_lines(prefix@, all.subrange(0, i as int)),
        decreases headers.len() - i,
    {
        let ghost front = all.subrange(0, i + 1);
        assert(front.drop_last() =~= all.subrange(0, i as int));
        assert(front.last() == (headers@[i as int].0@, headers@[i as int].1@));
        lines.append(prefix);
        lines.append(headers[i].0.as_str());
        lines.append(": ");
        lines.append(headers[i].1.as_str());
        lines.append("\n");
        i = i + 1;
    }
    assert(all.subrange(0, i as int) =~= all);
    lines
}

fn show_pairs(pairs: &Vec<(String, String)>) -> (list: Vec<String>)
    ensures
        texts(list@) == pair_texts(pairs_of(pairs@), "="@),
{
    let ghost want = pair_texts(pairs_of(pairs@), "="@);
    let mut list: Vec<String> = Vec::new();
    let mut i: usize = 0;
    while i < pairs.len()
        invariant
            i <= pairs@.len(),
            list@.len() == i,
            want == pair_texts(pairs_of(pairs@), "="@),
            forall|k: int| 0 <= k < i ==> (#[trigger] list@[k])@ == want[k],
        decreases pairs.len() - i,
    {
        list.push(cat3(pairs[i].0.as_str(), "=", pairs[i].1.as_str()));
        assert(pairs_of(pairs@)[i as int] == (pairs@[i as int].0@, pairs@[i as int].1@));
        i = i + 1;
    }
    assert(texts(list@) =~= want);
    list
}

fn show_body(body: Option<&ResolvedBody>) -> (lines: String)
    ensures
        lines@ == body_lines(
            match body {
                Some(b) => Some(b@),
                None => None,
            },
        ),
{
    match body {
        Some(ResolvedBody::Json(value)) => cat3(
            "body (application/json):\n",
            pretty(value).as_str(),
            "\n",
        ),
        Some(ResolvedBody::Raw { bytes, content_type }) => {
            let mut lines = cat2("body (", show_type(content_type.as_str(), "?").as_str());
            match from_utf8(bytes.as_slice()) {
                Some(text) => {
                    proof {
                        encode_utf8_valid_utf8(text@);
                        encode_utf8_decode_utf8(text@);
                    }
                    lines.append("):\n");
                    lines.append(text.as_str());
                    lines.append("\n");
                },
                None => {
                    lines.append("): <");
                    lines.append(number(bytes.len() as u64).as_str());
                    lines.append(" bytes>\n");
                },
            }
            lines
        },
        None => String::new(),
    }
}

/// Shows a request instead of sending it.
pub fn dry_run_text(
    method: &str,
    path: &str,
    auth: AuthMode,
    query: &Vec<(String, String)>,
    headers: &Vec<(String, String)>,
    body: Option<&ResolvedBody>,
    marketplace: Option<&str>,
) -> (text: String)
    ensures
        text@ == dry_run(
            method@,
            path@,
            auth,
            pairs_of(query@),
            pairs_of(headers@),
            match body {
                Some(b) => Some(b@),
                None => None,
            },
            opt_str(marketplace),
        ),
{
    let mut full = path_without_query(path);
    if query.len() > 0 {
        full.append("?");
        full.append(join(&show_pairs(query), "&").as_str());
    }
    let mut text = cat3(to_upper(method).as_str(), " ", full.as_str());
    text.append("\nauth: ");
    text.append(auth_mode_str(auth));
    text.append("\n");
    let market = match marketplace {
        Some(market) => cat3("marketplace: ", market, "\n"),
        None => String::new(),
    };
    text.append(market.as_str());
    text.append(show_headers("header: ", headers).as_str());
    text.append(show_body(body).as_str());
    text
}

/// The content type and the body text that store a body: a JSON value as its
/// compact text, raw bytes as the text that they are.
pub open spec fn stored_body(body: Option<BodyView>) -> Option<
    (Option<Seq<char>>, Option<Seq<char>>),
> {
    match body {
        Some(BodyView::Json(json)) => Some((None, Some(compact_text(json)))),
        Some(BodyView::Raw { bytes, content_type }) => if valid_utf8(bytes) {
            Some((Some(shown_type(content_type, Seq::empty())), Some(decode_utf8(bytes))))
        } else {
            None
        },
        None => Some((None, None)),
    }
}

fn map_from_pairs(pairs: &Vec<(String, String)>) -> (map: TextMap)
    ensures
        map@ == map_of(pairs_of(pairs@)),
{
    let ghost all = pairs_of(pairs@);
    let mut map = TextMap::new();
    let mut i: usize = 0;
    assert(map@ =~= map_of(all.subrange(0, 0)));
    while i < pairs.len()
        invariant
            i <= pairs@.len(),
            all == pairs_of(pairs@),
            map@ == map_of(all.subrange(0, i as int)),
        decreases pairs.len() - i,
    {
        let ghost front = all.subrange(0, i + 1);
        assert(front.drop_last() =~= all.subrange(0, i as int));
        assert(front.last() == (pairs@[i as int].0@, pairs@[i as int].1@));
        map.insert(pairs[i].0.clone(), pairs[i].1.clone());
        i = i + 1;
    }
    assert(all.subrange(0, i as int) =~= all);
    map
}

/// Whether a request file stores the parts of a request, with this content type and
/// this text of the body.
pub open spec fn stores_parts(
    file: RequestFile,
    method: Seq<char>,
    path: Seq<char>,
    auth: AuthMode,
    query: Seq<(Seq<char>, Seq<char>)>,
    headers: Seq<(Seq<char>, Seq<char>)>,
    body: (Option<Seq<char>>, Option<Seq<char>>),
) -> bool {
    &&& opt_text(file.method) == Some(unicode_upper(method))
    &&& opt_text(file.path) == Some(bare_path(path))
    &&& opt_text(file.auth) == stored_auth(auth)
    &&& file.marketplace is None
    &&& opt_text(file.content_type) == body.0
    &&& opt_text(file.body) == body.1
    &&& file.body_file is None
    &&& file.query@ == map_of(query)
    &&& file.headers@ == map_of(headers)
    &&& file.vars@ == Map::<Seq<char>, Seq<char>>::empty()
}

/// The request file that stores an interactively composed request. A binary
/// body cannot be stored.
pub fn request_file_from_parts(
    method: &str,
    path: &str,
    auth: AuthMode,
    query: &Vec<(String, String)>,
    headers: &Vec<(String, String)>,
    body: Option<&ResolvedBody>,
) -> (file: Result<RequestFile, ApiError<String>>)
    ensures
        match stored_body(
            match body {
                Some(b) => Some(b@),
                None => None,
            },
        ) {
            None => file matches Err(e) && e@ == ApiError::<Seq<char>>::BinaryBody,
            Some(stored) => file matches Ok(f) && stores_parts(
                f,
                method@,
                path@,
                auth,
                pairs_of(query@),
                pairs_of(headers@),
                stored,
            ),
        },
{
    let (content_type, text) = match body {
        Some(ResolvedBody::Json(value)) => (None, Some(compact(value))),
        Some(ResolvedBody::Raw { bytes, content_type }) => match from_utf8(bytes.as_slice()) {
            Some(text) => {
                proof {
                    encode_utf8_valid_utf8(text@);
                    encode_utf8_decode_utf8(text@);
                    reveal_strlit("");
                    assert(""@ =~= Seq::<char>::empty());
                }
                (Some(show_type(content_type.as_str(), "")), Some(text))
            },
            None => {
                return Err(ApiError::BinaryBody);
            },
        },
        None => (None, None),
    };
    Ok(
        RequestFile {
            method: Some(to_upper(method)),
            path: Some(path_without_query(path)),
            auth: auth_to_store(auth),
            marketplace: None,
            content_type,
            body: text,
            body_file: None,
            query: map_from_pairs(query),
            headers: map_from_pairs(headers),
            vars: TextMap::new(),
        },
    )
}

/// What became of a line that the user entered.
#[derive(Debug)]
pub enum Offer {
    /// The line is blank: there is nothing more to enter.
    Finished,
    /// The line was taken.
    Taken,
    /// The line was refused.
    Refused(ApiError<String>),
}

/// Takes a query parameter that the user entered, unless it is no pair.
pub fn offer_query(path: &str, extra: &mut Vec<String>, entry: String) -> (offer: Offer)
    ensures
        trimmed(entry@).len() == 0 ==> offer is Finished && final(extra)@ == old(extra)@,
        trimmed(entry@).len() > 0 ==> match merged(path@, texts(old(extra)@).push(entry@)) {
            Ok(_) => offer is Taken && final(extra)@ == old(extra)@.push(entry),
            Err(fault) => offer matches Offer::Refused(e) && e@ == fault && final(extra)@ == old(
                extra,
            )@,
        },
{
    if trim(entry.as_str()).as_str().is_empty() {
        return Offer::Finished;
    }
    let ghost known = extra@;
    extra.push(entry);
    assert(texts(extra@) =~= texts(known).push(entry@));
    match merge_query(path, extra.as_slice()) {
        Ok(_) => Offer::Taken,
        Err(error) => {
            extra.pop();
            assert(extra@ =~= known);
            Offer::Refused(error)
        },
    }
}

/// Takes a header that the user entered, unless it cannot be sent.
pub fn offer_header(headers: &mut Vec<(String, String)>, entry: &str) -> (offer: Offer)
    ensures
        trimmed(entry@).len() == 0 ==> offer is Finished && final(headers)@ == old(headers)@,
        trimmed(entry@).len() > 0 ==> match header_of(entry@) {
            Ok(pair) => offer is Taken && pairs_of(final(headers)@) == pairs_of(
                old(headers)@,
            ).push(pair),
            Err(fault) => offer matches Offer::Refused(e) && e@ == fault && final(headers)@ == old(
                headers,
            )@,
        },
{
    if trim(entry).as_str().is_empty() {
        return Offer::Finished;
    }
    match parse_header(entry) {
        Ok(header) => {
            let ghost known = pairs_of(headers@);
            headers.push(header);
            assert(pairs_of(headers@) =~= known.push((header.0@, header.1@)));
            Offer::Taken
        },
        Err(error) => Offer::Refused(error),
    }
}

/// A header as it is shown: a mark in place of a value that is not text.
pub open spec fn shown_header(header: (String, Option<String>)) -> (Seq<char>, Seq<char>) {
    (
        header.0@,
        match header.1 {
            Some(value) => value@,
            None => "<binary>"@,
        },
    )
}

/// The head of an answer: the version and the status, then one line for each
/// header.
pub open spec fn head_text(
    version: Seq<char>,
    status: Seq<char>,
    headers: Seq<(String, Option<String>)>,
) -> Seq<char> {
    version + " "@ + status + "\n"@ + header_lines(
        Seq::empty(),
        headers.map_values(|header: (String, Option<String>)| shown_header(header)),
    )
}

/// Writes the head of an answer; a header without a value is one whose value is
/// not text.
pub fn response_head(version: &str, status: &str, headers: &Vec<(String, Option<String>)>) -> (text:
    String)
    ensures
        text@ == head_text(version@, status@, headers@),
{
    let ghost all = headers@.map_values(|header: (String, Option<String>)| shown_header(header));
    let mut text = cat4(version, " ", status, "\n");
    let ghost first = text@;
    let ghost none = Seq::<char>::empty();
    let mut i: usize = 0;
    assert(text@ =~= first + header_lines(none, all.subrange(0, 0)));
    while i < headers.len()
        invariant
            i <= headers@.len(),
            none == Seq::<char>::empty(),
            all == headers@.map_values(|header: (String, Option<String>)| shown_header(header)),
            text@ == first + header_lines(none, all.subrange(0, i as int)),
        decreases headers.len() - i,
    {
        let ghost front = all.subrange(0, i + 1);
        let ghost before = text@;
        assert(front.drop_last() =~= all.subrange(0, i as int));
        assert(front.last() == shown_header(headers@[i as int]));
        text.append(headers[i].0.as_str());
        text.append(": ");
        match &headers[i].1 {
            Some(value) => text.append(value.as_str()),
            None => text.append("<binary>"),
        }
        text.append("\n");
        i = i + 1;
        assert(text@ =~= first + header_lines(none, front));
    }
    assert(all.subrange(0, i as int) =~= all);
    text
}

/// Where a request is sent, without its query.
pub open spec fn sent_to(path: Seq<char>, foreign: bool) -> Option<Seq<char>> {
    if foreign {
        queryless(path)
    } else {
        Some(bare_path(path))
    }
}

/// Where a request is sent: a path of the API without its query, or the address
/// of another host without it.
pub fn send_target(path: &str, foreign: bool) -> (target: Option<String>)
    ensures
        opt_text(target) == sent_to(path@, foreign),
        target is None <==> foreign && scheme_of(path@) is None,
{
    if foreign {
        url_without_query(path)
    } else {
        Some(path_without_query(path))
    }
}

/// The bytes of the status line and the headers, with an empty line behind.
pub open spec fn head_bytes(shown: bool, head: Seq<char>) -> Seq<u8> {
    if shown {
        encode_utf8(head).push(10u8)
    } else {
        Seq::empty()
    }
}

/// The body of an answer as it is written: JSON is laid out for a terminal.
pub open spec fn answer_body(body: Seq<u8>, to_tty: bool) -> Seq<u8> {
    if to_tty {
        match document(body) {
            Some(json) => encode_utf8(pretty_text(json)),
            None => body,
        }
    } else {
        body
    }
}

/// What is written of an answer. A terminal gets a last line end, and no body
/// that is not text.
pub open spec fn answer(
    head: Seq<char>,
    body: Seq<u8>,
    include_headers: bool,
    to_tty: bool,
) -> Seq<u8> {
    let text = answer_body(body, to_tty);
    if !to_tty {
        head_bytes(include_headers, head) + text
    } else if valid_utf8(text) {
        head_bytes(include_headers, head) + text + seq![10u8]
    } else {
        head_bytes(include_headers, head)
    }
}

/// Whether the body of an answer is withheld from a terminal.
pub open spec fn withheld(body: Seq<u8>, to_tty: bool) -> bool {
    to_tty && !valid_utf8(answer_body(body, to_tty))
}

fn append_bytes(bytes: &mut Vec<u8>, more: &[u8])
    ensures
        final(bytes)@ == old(bytes)@ + more@,
{
    let ghost before = bytes@;
    let mut i: usize = 0;
    while i < more.len()
        invariant
            i <= more@.len(),
            bytes@ == before + more@.subrange(0, i as int),
        decreases more.len() - i,
    {
        bytes.push(more[i]);
        i = i + 1;
        assert(bytes@ =~= before + more@.subrange(0, i as int));
    }
    assert(more@.subrange(0, i as int) =~= more@);
}

/// Decides what is written of an answer; the flag says whether its body is
/// withheld because a terminal cannot show it.
pub fn response_payload(head: &str, body: &[u8], include_headers: bool, to_tty: bool) -> (result: (
    Vec<u8>,
    bool,
))
    ensures
        result.0@ == answer(head@, body@, include_headers, to_tty),
        result.1 == withheld(body@, to_tty),
{
    let mut payload: Vec<u8> = Vec::new();
    if include_headers {
        append_bytes(&mut payload, head.as_bytes());
        payload.push(10);
        assert(payload@ =~= encode_utf8(head@).push(10u8));
    } else {
        assert(payload@ =~= Seq::<u8>::empty());
    }
    if !to_tty {
        append_bytes(&mut payload, body);
        return (payload, false);
    }
    let pretty_body: Option<String> = match value_from_bytes(body) {
        Ok(value) => Some(pretty(&value)),
        Err(_) => None,
    };
    match pretty_body {
        Some(text) => {
            proof {
                encode_utf8_valid_utf8(text@);
            }
            append_bytes(&mut payload, text.as_str().as_bytes());
            let ghost whole = payload@;
            payload.push(10);
            assert(payload@ =~= whole + seq![10u8]);
            (payload, false)
        },
        None => match from_utf8(body) {
            Some(text) => {
                proof {
                    encode_utf8_valid_utf8(text@);
                }
                append_bytes(&mut payload, body);
                let ghost whole = payload@;
                payload.push(10);
                assert(payload@ =~= whole + seq![10u8]);
                (payload, false)
            },
            None => (payload, true),
        },
    }
}

/// The marketplace of a request: the one that its file names; else, unless it
/// goes to a foreign host, the one that the program works for.
#[derive(Debug)]
pub enum Market {
    /// The named one.
    Named(String),
    /// The one that the program works for.
    Current,
    /// None.
    Unset,
}

/// The marketplace of a request.
pub open spec fn market_for(named: Option<String>, foreign: bool) -> Market {
    match named {
        Some(name) => Market::Named(name),
        None => if foreign {
            Market::Unset
        } else {
            Market::Current
        },
    }
}

/// Decides the marketplace of a request.
pub fn request_market(named: Option<String>, foreign: bool) -> (market: Market)
    ensures
        market == market_for(named, foreign),
{
    match named {
        Some(name) => Market::Named(name),
        None => if foreign {
            Market::Unset
        } else {
            Market::Current
        },
    }
}

/// What the command line says of the body is the body of the request, with or
/// without a request file: each of its three parts as it was given, and nothing of
/// the file. Where it says nothing of the body, the file does, with its body
/// file seen from the directory of the request file.
pub proof fn law_given_bodies_are_sent(
    args: ApiArgs,
    file: Option<&RequestFile>,
    dir: Option<Seq<char>>,
)
    ensures
        args.body matches Some(text) ==> raw_body(args, file, dir).0 == Some(text@),
        args.body_file matches Some(path) ==> raw_body(args, file, dir).1 == Some(path@),
        args.content_type matches Some(kind) ==> raw_body(args, file, dir).2 == Some(kind@),
        args.body is Some || args.body_file is Some || args.content_type is Some ==> raw_body(
            args,
            file,
            dir,
        ) == raw_body(args, None, None),
        args.body is None && args.body_file is None && args.content_type is None ==> match file {
            Some(f) => {
                &&& raw_body(args, file, dir).0 == opt_text(f.body)
                &&& raw_body(args, file, dir).2 == opt_text(f.content_type)
                &&& raw_body(args, file, dir).1 is Some <==> f.body_file is Some
                &&& f.body_file matches Some(path) ==> raw_body(args, file, dir).1 == Some(
                    if path@ == "-"@ || absolute(path@) || dir is None {
                        path@
                    } else {
                        joined_path(dir->Some_0, path@)
                    },
                )
            },
            None => raw_body(args, file, dir) == (
                None::<Seq<char>>,
                None::<Seq<char>>,
                None::<Seq<char>>,
            ),
        },
{
}

/// The command line wins over the request file in the method, the path and the
/// auth mode; what it does not say, the file says.
pub proof fn law_command_line_wins(args: ApiArgs, explicit: bool, file: Option<&RequestFile>)
    ensures
        args.method matches Some(text) ==> raw_method(args, file) == Some(text@),
        args.path matches Some(text) ==> raw_path(args, file) == Some(text@),
        file matches Some(f) ==> {
            &&& args.method is None ==> raw_method(args, file) == opt_text(f.method)
            &&& args.path is None ==> raw_path(args, file) == opt_text(f.path)
            &&& !explicit && f.auth is Some ==> {
                &&& compose_fault(args, explicit, file) is None ==> Some(
                    composed_auth(args, explicit, file),
                ) == auth_of(f.auth->Some_0@)
            }
            &&& f.auth is None ==> composed_auth(args, explicit, file) == args.auth
        },
        explicit || file is None ==> composed_auth(args, explicit, file) == args.auth,
{
}

/// The parameters and headers of the command line all go into the request, in
/// order, behind those of the file, which all go in too, as `key=value` and
/// `Name: value`.
pub proof fn law_parameters_are_all_taken(args: ApiArgs, file: Option<&RequestFile>, i: int)
    ensures
        ({
            let query = raw_query(args, file);
            let headers = raw_headers(args, file);
            let stored_query = match file {
                Some(f) => f.query.pairs(),
                None => Seq::empty(),
            };
            let stored_headers = match file {
                Some(f) => f.headers.pairs(),
                None => Seq::empty(),
            };
            &&& query.len() == stored_query.len() + args.query@.len()
            &&& headers.len() == stored_headers.len() + args.header@.len()
            &&& 0 <= i < args.query@.len() ==> query[stored_query.len() + i] == args.query@[i]@
            &&& 0 <= i < args.header@.len() ==> headers[stored_headers.len() + i] == args.header@[i]@
            &&& 0 <= i < stored_query.len() ==> query[i] == stored_query[i].0 + "="@
                + stored_query[i].1
            &&& 0 <= i < stored_headers.len() ==> headers[i] == stored_headers[i].0 + ": "@
                + stored_headers[i].1
        }),
{
}

/// A request is composed wherever it has a method, a path, variables that are
/// pairs and a known auth mode.
pub proof fn law_composing_fails_for_cause(
    args: ApiArgs,
    explicit: bool,
    file: Option<&RequestFile>,
)
    ensures
        compose_fault(args, explicit, file) is None <==> {
            &&& vars_from(file_vars(file), texts(args.var@)) is Ok
            &&& args.method is Some || (file matches Some(f) && f.method is Some)
            &&& args.path is Some || (file matches Some(f) && f.path is Some)
            &&& explicit || file is None || file->Some_0.auth is None || auth_of(
                file->Some_0.auth->Some_0@,
            ) is Some
        },
{
}

/// A body given as text is what is rendered and sent, whatever a file holds; bytes
/// that are no text are sent as they are.
pub proof fn law_bodies_are_rendered(
    text: Seq<char>,
    payload: Option<Seq<u8>>,
    bytes: Seq<u8>,
    vars: Map<Seq<char>, Seq<char>>,
)
    ensures
        rendered_body(Some(text), payload, vars) == Some(encode_utf8(rendered(text, vars))),
        !valid_utf8(bytes) ==> rendered_body(None, Some(bytes), vars) == Some(bytes),
        rendered_body(None, Some(encode_utf8(text)), vars) == Some(
            encode_utf8(rendered(text, vars)),
        ),
        rendered_body(None, None, vars) is None,
{
    encode_utf8_valid_utf8(text);
    encode_utf8_decode_utf8(text);
}

/// Every list that is rendered keeps its length and its order.
pub proof fn law_lists_are_rendered_one_by_one(
    list: Seq<Seq<char>>,
    vars: Map<Seq<char>, Seq<char>>,
    i: int,
)
    requires
        0 <= i < list.len(),
    ensures
        all_rendered(list, vars).len() == list.len(),
        all_rendered(list, vars)[i] == rendered(list[i], vars),
        forall|name: Seq<char>|
            unknown_names(list[i], vars).contains(name) ==> all_unknown(list, vars).contains(name),
    decreases list.len(),
{
    if i < list.len() - 1 {
        let front = list.drop_last();
        assert(front[i] == list[i]);
        law_lists_are_rendered_one_by_one(front, vars, i);
    }
    assert forall|name: Seq<char>| unknown_names(list[i], vars).contains(name) implies all_unknown(
        list,
        vars,
    ).contains(name) by {
        assert(all_unknown(list, vars) == all_unknown(list.drop_last(), vars).union(
            unknown_names(list.last(), vars),
        ));
        if i == list.len() - 1 {
            assert(list.last() == list[i]);
        } else {
            assert(all_unknown(list.drop_last(), vars).contains(name));
        }
    }
}

/// A name without a value keeps the request from being sent, wherever it stands:
/// in the method, the path, a parameter, a header, the content type, the
/// marketplace or the body.
pub proof fn law_unknown_names_are_told(
    request: Composed,
    payload: Option<Seq<u8>>,
    name: Seq<char>,
    i: int,
)
    ensures
        ({
            let vars = request.vars@;
            let told = request_unknown(request, payload).contains(name);
            &&& unknown_names(request.method@, vars).contains(name) ==> told
            &&& unknown_names(request.path@, vars).contains(name) ==> told
            &&& 0 <= i < request.query@.len() && unknown_names(request.query@[i]@, vars).contains(
                name,
            ) ==> told
            &&& 0 <= i < request.headers@.len() && unknown_names(
                request.headers@[i]@,
                vars,
            ).contains(name) ==> told
            &&& request.content_type matches Some(text) ==> unknown_names(text@, vars).contains(
                name,
            ) ==> told
            &&& request.marketplace matches Some(text) ==> unknown_names(text@, vars).contains(
                name,
            ) ==> told
            &&& request.body matches Some(text) ==> unknown_names(text@, vars).contains(name)
                ==> told
        }),
{
    let vars = request.vars@;
    if 0 <= i < request.query@.len() {
        law_lists_are_rendered_one_by_one(texts(request.query@), vars, i);
        assert(texts(request.query@)[i] == request.query@[i]@);
    }
    if 0 <= i < request.headers@.len() {
        law_lists_are_rendered_one_by_one(texts(request.headers@), vars, i);
        assert(texts(request.headers@)[i] == request.headers@[i]@);
    }
}

proof fn lemma_headers_one_by_one(
    done: Seq<(Seq<char>, Seq<char>)>,
    list: Seq<Seq<char>>,
    all: Seq<(Seq<char>, Seq<char>)>,
)
    requires
        headers_of(done, list) == Ok::<Seq<(Seq<char>, Seq<char>)>, ApiError<Seq<char>>>(all),
    ensures
        all.len() == done.len() + list.len(),
        forall|i: int| 0 <= i < done.len() ==> (#[trigger] all[i]) == done[i],
        forall|i: int|
            0 <= i < list.len() ==> header_of(#[trigger] list[i]) == Ok::<
                (Seq<char>, Seq<char>),
                ApiError<Seq<char>>,
            >(all[done.len() + i]),
    decreases list.len(),
{
    if list.len() > 0 {
        let pair = header_of(list[0])->Ok_0;
        let rest = list.drop_first();
        let more = done.push(pair);
        lemma_headers_one_by_one(more, rest, all);
        assert forall|i: int| 0 <= i < done.len() implies (#[trigger] all[i]) == done[i] by {
            assert(all[i] == more[i]);
        }
        assert(all[done.len() as int] == more[done.len() as int]);
        assert forall|i: int| 0 <= i < list.len() implies header_of(#[trigger] list[i]) == Ok::<
            (Seq<char>, Seq<char>),
            ApiError<Seq<char>>,
        >(all[done.len() + i]) by {
            if i > 0 {
                assert(rest[i - 1] == list[i]);
            }
        }
    }
}

/// A request that is ready to be sent is the one that was asked for: its method in
/// capitals, every header, in order, as it was given but for the blanks around
/// its parts, none of them one that the auth layer or the body owns, and the body
/// as it was given, with its content type, or as a JSON document without one.
pub proof fn law_prepared_is_what_was_asked_for(
    request: Rendered,
    foreign: bool,
    ready: PreparedView,
)
    requires
        prepared(request, foreign) == Ok::<PreparedView, ApiError<Seq<char>>>(ready),
    ensures
        ready.method == raised(request.method@),
        ready.headers.len() == request.headers@.len(),
        forall|i: int|
            0 <= i < request.headers@.len() ==> {
                let parts = split_once_spec((#[trigger] request.headers@[i])@, ':');
                &&& parts is Some
                &&& ready.headers[i] == (trimmed(parts->Some_0.0), trimmed(parts->Some_0.1))
                &&& !auth_managed(lowered(ready.headers[i].0))
                &&& lowered(ready.headers[i].0) != lowered("content-type"@)
            },
        foreign ==> ready.display_path == request.path@ && scheme_of(request.path@) == Some(
            "https"@,
        ),
        !foreign ==> ready.display_path == normalized(request.path@),
        request.body is None <==> ready.body is None,
        request.body is None ==> request.content_type is None,
        request.body is Some && request.content_type is Some ==> ready.body == Some(
            BodyView::Raw {
                bytes: request.body->Some_0@,
                content_type: request.content_type->Some_0@,
            },
        ),
        request.body is Some && request.content_type is None ==> document(
            request.body->Some_0@,
        ) is Some && ready.body == Some(
            BodyView::Json(document(request.body->Some_0@)->Some_0),
        ),
        merged(ready.display_path, texts(request.query@)) == Ok::<
            Seq<(Seq<char>, Seq<char>)>,
            ApiError<Seq<char>>,
        >(ready.query),
{
    let list = texts(request.headers@);
    lemma_headers_one_by_one(Seq::empty(), list, ready.headers);
    assert forall|i: int| 0 <= i < request.headers@.len() implies {
        let parts = split_once_spec((#[trigger] request.headers@[i])@, ':');
        &&& parts is Some
        &&& ready.headers[i] == (trimmed(parts->Some_0.0), trimmed(parts->Some_0.1))
        &&& !auth_managed(lowered(ready.headers[i].0))
        &&& lowered(ready.headers[i].0) != lowered("content-type"@)
    } by {
        assert(list[i] == request.headers@[i]@);
        assert(header_of(list[i]) == Ok::<(Seq<char>, Seq<char>), ApiError<Seq<char>>>(
            ready.headers[0 + i],
        ));
    }
}

/// A piped answer is written as it came; the head stands before it where it is
/// asked for, and nothing of the body is lost.
pub proof fn law_piped_answers_are_written_as_they_came(
    head: Seq<char>,
    body: Seq<u8>,
    include_headers: bool,
)
    ensures
        include_headers ==> answer(head, body, include_headers, false) == encode_utf8(head) + seq![
            10u8,
        ] + body,
        !include_headers ==> answer(head, body, include_headers, false) == body,
        !withheld(body, false),
{
    if include_headers {
        assert(answer(head, body, include_headers, false) =~= encode_utf8(head) + seq![10u8]
            + body);
    } else {
        assert(answer(head, body, include_headers, false) =~= body);
    }
}

/// A terminal gets a JSON body laid out, other text as it came, each with a line
/// end behind; a body that is no text is withheld from it, and that is told.
pub proof fn law_terminals_get_text(head: Seq<char>, body: Seq<u8>, include_headers: bool)
    ensures
        ({
            let before = if include_headers {
                encode_utf8(head) + seq![10u8]
            } else {
                Seq::empty()
            };
            let written = answer(head, body, include_headers, true);
            &&& document(body) matches Some(json) ==> written == before + encode_utf8(
                pretty_text(json),
            ) + seq![10u8]
            &&& document(body) is None && valid_utf8(body) ==> written == before + body + seq![10u8]
            &&& document(body) is None && !valid_utf8(body) ==> written == before
            &&& withheld(body, true) <==> document(body) is None && !valid_utf8(body)
        }),
{
    if document(body) is Some {
        encode_utf8_valid_utf8(pretty_text(document(body)->Some_0));
    }
    let before = if include_headers {
        encode_utf8(head) + seq![10u8]
    } else {
        Seq::empty()
    };
    assert(head_bytes(include_headers, head) =~= before);
}

/// What is shown in place of sending holds the method, where the request goes, the
/// auth mode, every header and the body.
pub proof fn law_dry_runs_show_the_request(
    method: Seq<char>,
    path: Seq<char>,
    auth: AuthMode,
    query: Seq<(Seq<char>, Seq<char>)>,
    headers: Seq<(Seq<char>, Seq<char>)>,
    body: Option<BodyView>,
    more: (Seq<char>, Seq<char>),
)
    ensures
        header_lines("header: "@, headers.push(more)) == header_lines("header: "@, headers)
            + "header: "@ + more.0 + ": "@ + more.1 + "\n"@,
        header_lines("header: "@, Seq::empty()) == Seq::<char>::empty(),
        body matches Some(BodyView::Json(json)) ==> body_lines(body) == "body (application/json):\n"@
            + pretty_text(json) + "\n"@,
        dry_run(method, path, auth, query, headers, body, None) == unicode_upper(method) + " "@
            + full_path(path, query) + "\nauth: "@ + auth_word(auth) + "\n"@ + header_lines(
            "header: "@,
            headers,
        ) + body_lines(body),
{
    assert(headers.push(more).drop_last() =~= headers);
    let text = unicode_upper(method) + " "@ + full_path(path, query) + "\nauth: "@ + auth_word(auth)
        + "\n"@;
    assert(text + Seq::<char>::empty() =~= text);
}

/// An interactively composed request is stored as it was: a JSON body by its text
/// without a content type, a raw one by its text with it; only bytes that are no
/// text cannot be stored.
pub proof fn law_bodies_are_stored(body: BodyView)
    ensures
        body matches BodyView::Json(json) ==> stored_body(Some(body)) == Some(
            (None::<Seq<char>>, Some(compact_text(json))),
        ),
        body matches BodyView::Raw { bytes, content_type } ==> {
            &&& stored_body(Some(body)) is Some <==> valid_utf8(bytes)
            &&& valid_utf8(bytes) ==> stored_body(Some(body))->Some_0.1 == Some(decode_utf8(bytes))
            &&& valid_utf8(bytes) && visible(content_type) ==> stored_body(Some(body))->Some_0.0
                == Some(content_type)
        },
        stored_body(None) == Some((None::<Seq<char>>, None::<Seq<char>>)),
{
}

/// A method is read in capitals, once and for all.
pub proof fn law_methods_are_capitals(raw: Seq<char>)
    ensures
        method_of(raw) matches Ok(method) ==> method == raised(raw) && token(encode_utf8(method)),
        method_of(raw) is Err ==> !token(encode_utf8(raised(raw))) && method_of(raw)->Err_0
            == ApiError::MethodInvalid(raw),
{
}

/// Whether the command line says nothing of a request.
pub open spec fn says_nothing(args: ApiArgs) -> bool {
    &&& args.method is None
    &&& args.path is None
    &&& args.auth is Auto
    &&& args.query@.len() == 0
    &&& args.var@.len() == 0
    &&& args.header@.len() == 0
    &&& args.content_type is None
    &&& args.body is None
    &&& args.body_file is None
}

/// A request that was saved composes back: the file alone gives the same method, path,
/// auth mode, marketplace, variables, body and content type as the request that it
/// stores.
pub proof fn law_saved_requests_compose_back(
    file: RequestFile,
    request: Composed,
    query: Map<Seq<char>, Seq<char>>,
    headers: Map<Seq<char>, Seq<char>>,
    args: ApiArgs,
)
    requires
        stores_request(file, request, query, headers),
        says_nothing(args),
    ensures
        compose_fault(args, false, Some(&file)) is None,
        raw_method(args, Some(&file)) == Some(request.method@),
        raw_path(args, Some(&file)) == Some(request.path@),
        composed_auth(args, false, Some(&file)) == request.auth,
        file_market(Some(&file)) == opt_text(request.marketplace),
        vars_from(file_vars(Some(&file)), texts(args.var@)) == Ok::<
            Map<Seq<char>, Seq<char>>,
            ApiError<Seq<char>>,
        >(request.vars@),
        raw_body(args, Some(&file), None) == (
            opt_text(request.body),
            opt_text(request.body_file),
            opt_text(request.content_type),
        ),
        file.query@ == query,
        file.headers@ == headers,
{
    super::law_auth_words_round_trip(request.auth, auth_word(request.auth));
    assert(texts(args.var@) =~= Seq::<Seq<char>>::empty());
}

/// A request that was composed interactively composes back from its file: its method in
/// capitals, its path without the query, its auth mode, its parameters and headers, and
/// its body.
pub proof fn law_stored_parts_compose_back(
    file: RequestFile,
    method: Seq<char>,
    path: Seq<char>,
    auth: AuthMode,
    query: Seq<(Seq<char>, Seq<char>)>,
    headers: Seq<(Seq<char>, Seq<char>)>,
    body: (Option<Seq<char>>, Option<Seq<char>>),
    args: ApiArgs,
)
    requires
        stores_parts(file, method, path, auth, query, headers, body),
        says_nothing(args),
    ensures
        compose_fault(args, false, Some(&file)) is None,
        raw_method(args, Some(&file)) == Some(unicode_upper(method)),
        raw_path(args, Some(&file)) == Some(bare_path(path)),
        composed_auth(args, false, Some(&file)) == auth,
        file_market(Some(&file)) is None,
        raw_body(args, Some(&file), None) == (body.1, None::<Seq<char>>, body.0),
        file.query@ == map_of(query),
        file.headers@ == map_of(headers),
{
    super::law_auth_words_round_trip(auth, auth_word(auth));
    assert(texts(args.var@) =~= Seq::<Seq<char>>::empty());
}

/// A request without templates is rendered as it is, in every part.
pub proof fn law_plain_requests_are_rendered_as_they_are(
    request: Composed,
    payload: Option<Seq<u8>>,
    r: Rendered,
    i: int,
)
    requires
        renders(request, payload, r),
    ensures
        plain(request.method@) ==> r.method@ == request.method@,
        plain(request.path@) ==> r.path@ == request.path@,
        r.query@.len() == request.query@.len(),
        r.headers@.len() == request.headers@.len(),
        0 <= i < request.query@.len() && plain(request.query@[i]@) ==> r.query@[i]@
            == request.query@[i]@,
        0 <= i < request.headers@.len() && plain(request.headers@[i]@) ==> r.headers@[i]@
            == request.headers@[i]@,
        request.content_type matches Some(text) ==> plain(text@) ==> opt_text(r.content_type)
            == Some(text@),
        request.content_type is None ==> r.content_type is None,
        request.marketplace matches Some(text) ==> plain(text@) ==> opt_text(r.marketplace) == Some(
            text@,
        ),
        request.marketplace is None ==> r.marketplace is None,
        request.body matches Some(text) ==> plain(text@) ==> opt_bytes(r.body) == Some(
            encode_utf8(text@),
        ),
        request.body is None && payload is None ==> r.body is None,
{
    let vars = request.vars@;
    if plain(request.method@) {
        law_plain_text_stays(request.method@, vars);
    }
    if plain(request.path@) {
        law_plain_text_stays(request.path@, vars);
    }
    assert(texts(r.query@).len() == texts(request.query@).len());
    assert(texts(r.headers@).len() == texts(request.headers@).len());
    if 0 <= i < request.query@.len() && plain(request.query@[i]@) {
        law_plain_text_stays(request.query@[i]@, vars);
        assert(texts(r.query@)[i] == rendered(texts(request.query@)[i], vars));
    }
    if 0 <= i < request.headers@.len() && plain(request.headers@[i]@) {
        law_plain_text_stays(request.headers@[i]@, vars);
        assert(texts(r.headers@)[i] == rendered(texts(request.headers@)[i], vars));
    }
    if let Some(text) = request.content_type {
        if plain(text@) {
            law_plain_text_stays(text@, vars);
        }
    }
    if let Some(text) = request.marketplace {
        if plain(text@) {
            law_plain_text_stays(text@, vars);
        }
    }
    if let Some(text) = request.body {
        if plain(text@) {
            law_plain_text_stays(text@, vars);
        }
    }
}

/// The marketplace that a file names is the one of its request; else a request works for
/// the current one, unless it goes to a foreign host, which has none.
pub proof fn law_named_marketplaces_are_used(name: String, foreign: bool)
    ensures
        market_for(Some(name), foreign) == Market::Named(name),
        market_for(None, false) is Current,
        market_for(None, true) is Unset,
{
}

/// A path of the API is sent without its query, which is sent as parameters.
pub proof fn law_paths_are_sent_without_their_query(bare: Seq<char>, query: Seq<char>)
    requires
        !bare.contains('?'),
    ensures
        sent_to(bare + seq!['?'] + query, false) == Some(bare),
        sent_to(bare, false) == Some(bare),
        sent_to(bare, true) == queryless(bare),
{
    crate::text::law_texts_part_at_the_first_place(bare, '?', query);
}

/// The head of an answer holds its version, its status and every header, in order; a value
/// that is no text is marked as such.
pub proof fn law_heads_hold_every_header(
    version: Seq<char>,
    status: Seq<char>,
    headers: Seq<(String, Option<String>)>,
    header: (String, Option<String>),
)
    ensures
        head_text(version, status, Seq::empty()) == version + " "@ + status + "\n"@,
        head_text(version, status, headers.push(header)) == head_text(version, status, headers)
            + header.0@ + ": "@ + (match header.1 {
            Some(value) => value@,
            None => "<binary>"@,
        }) + "\n"@,
{
    let show = |h: (String, Option<String>)| shown_header(h);
    let lines = headers.map_values(show);
    let none = Seq::<char>::empty();
    let all = headers.push(header).map_values(show);
    assert(all =~= lines.push(show(header)));
    assert(all.drop_last() =~= lines);
    assert(Seq::<(String, Option<String>)>::empty().map_values(show) =~= Seq::<
        (Seq<char>, Seq<char>),
    >::empty());
    let first = version + " "@ + status + "\n"@;
    assert(first + none =~= first);
    assert(head_text(version, status, headers.push(header)) =~= head_text(version, status, headers)
        + header.0@ + ": "@ + shown_header(header).1 + "\n"@);
}

} // verus!
