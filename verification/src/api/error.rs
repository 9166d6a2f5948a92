//! What can be wrong with a request.

use vstd::prelude::*;
use vstd::string::StringExecFns;
use crate::text::cat2;
use crate::text::cat3;
use crate::text::quoted;
use crate::text::quoted_form;

verus! {

/// A fault of a request; `T` holds the texts that the fault names.
#[derive(Debug)]
pub enum ApiError<T> {
    /// Neither the command line nor the file gives a method.
    MethodMissing,
    /// Neither the command line nor the file gives a path.
    PathMissing,
    /// The file's `auth` is no auth mode.
    AuthUnknown(T),
    /// A `--var` has no `=`.
    VarNotPair(T),
    /// A query parameter has no `=`.
    QueryNotPair(T),
    /// A query key is given twice, with two values.
    QueryConflict {
        /// The key.
        key: T,
        /// The value that came first.
        first: T,
        /// The other value.
        second: T,
    },
    /// A header has no `:`.
    HeaderNotPair(T),
    /// A header has nothing before its `:`.
    HeaderNameEmpty(T),
    /// A header that the auth layer owns was to be sent.
    HeaderManaged(T),
    /// A header that the auth layer owns was to be stored.
    HeaderManagedStored(T),
    /// The content type was to be sent as a header.
    HeaderContentType,
    /// The content type was to be stored as a header.
    HeaderContentTypeStored,
    /// A header is given twice, with two values.
    HeaderConflict {
        /// The name.
        name: T,
        /// The value that came first.
        first: T,
        /// The other value.
        second: T,
    },
    /// The name of a header holds what no header name may hold.
    HeaderName(T),
    /// The value of the named header holds what no header value may hold.
    HeaderValue(T),
    /// Placeholders without a value, joined.
    UndefinedVariables(T),
    /// The method holds what no method may hold.
    MethodInvalid(T),
    /// The content type holds what no header value may hold.
    ContentTypeInvalid(T),
    /// A body without a content type is no JSON document.
    BodyNotJson,
    /// There is a content type and no body.
    ContentTypeWithoutBody,
    /// The path is no URL.
    UrlInvalid(T),
    /// The URL has another scheme than `https`.
    UrlNotHttps(T),
    /// A binary body cannot be stored.
    BinaryBody,
}

impl View for ApiError<String> {
    type V = ApiError<Seq<char>>;

    open spec fn view(&self) -> ApiError<Seq<char>> {
        match *self {
            ApiError::MethodMissing => ApiError::MethodMissing,
            ApiError::PathMissing => ApiError::PathMissing,
            ApiError::AuthUnknown(raw) => ApiError::AuthUnknown(raw@),
            ApiError::VarNotPair(raw) => ApiError::VarNotPair(raw@),
            ApiError::QueryNotPair(raw) => ApiError::QueryNotPair(raw@),
            ApiError::QueryConflict { key, first, second } => ApiError::QueryConflict {
                key: key@,
                first: first@,
                second: second@,
            },
            ApiError::HeaderNotPair(raw) => ApiError::HeaderNotPair(raw@),
            ApiError::HeaderNameEmpty(raw) => ApiError::HeaderNameEmpty(raw@),
            ApiError::HeaderManaged(name) => ApiError::HeaderManaged(name@),
            ApiError::HeaderManagedStored(name) => ApiError::HeaderManagedStored(name@),
            ApiError::HeaderContentType => ApiError::HeaderContentType,
            ApiError::HeaderContentTypeStored => ApiError::HeaderContentTypeStored,
            ApiError::HeaderConflict { name, first, second } => ApiError::HeaderConflict {
                name: name@,
                first: first@,
                second: second@,
            },
            ApiError::HeaderName(name) => ApiError::HeaderName(name@),
            ApiError::HeaderValue(name) => ApiError::HeaderValue(name@),
            ApiError::UndefinedVariables(names) => ApiError::UndefinedVariables(names@),
            ApiError::MethodInvalid(raw) => ApiError::MethodInvalid(raw@),
            ApiError::ContentTypeInvalid(raw) => ApiError::ContentTypeInvalid(raw@),
            ApiError::BodyNotJson => ApiError::BodyNotJson,
            ApiError::ContentTypeWithoutBody => ApiError::ContentTypeWithoutBody,
            ApiError::UrlInvalid(raw) => ApiError::UrlInvalid(raw@),
            ApiError::UrlNotHttps(scheme) => ApiError::UrlNotHttps(scheme@),
            ApiError::BinaryBody => ApiError::BinaryBody,
        }
    }
}

/// The words that tell the user of a fault.
pub open spec fn fault_message(error: ApiError<Seq<char>>) -> Seq<char> {
    match error {
        ApiError::MethodMissing => "a method is required (positional or in the request file)"@,
        ApiError::PathMissing => "a path is required (positional or in the request file)"@,
        ApiError::AuthUnknown(raw) => "invalid auth in the request file: unknown auth mode "@
            + quoted_form(raw),
        ApiError::VarNotPair(raw) => "--var "@ + quoted_form(raw) + " is not KEY=VALUE"@,
        ApiError::QueryNotPair(raw) => "query parameter "@ + quoted_form(raw)
            + " is not KEY=VALUE"@,
        ApiError::QueryConflict { key, first, second } => "query key "@ + quoted_form(key)
            + " appears with different values ("@ + quoted_form(first) + " and "@
            + quoted_form(second)
            + ") — the request file stores one value per key and cannot represent repeated parameters"@,
        ApiError::HeaderNotPair(raw) => "header "@ + quoted_form(raw)
            + " is not \"Name: value\""@,
        ApiError::HeaderNameEmpty(raw) => "header "@ + quoted_form(raw) + " has an empty name"@,
        ApiError::HeaderManaged(name) => "header "@ + quoted_form(name)
            + " is managed by --auth and cannot be set with --header; use --auth signing|token|cookies instead"@,
        ApiError::HeaderManagedStored(name) => "header "@ + quoted_form(name)
            + " is managed by --auth and cannot be stored in a request file; use the file's `auth` field instead"@,
        ApiError::HeaderContentType =>
            "set the body content type with --content-type, not --header"@,
        ApiError::HeaderContentTypeStored =>
            "store the body content type in the file's `content_type` field, not a header"@,
        ApiError::HeaderConflict { name, first, second } => "header "@ + quoted_form(name)
            + " appears with different values ("@ + quoted_form(first) + " and "@
            + quoted_form(second) + ") — the request file stores one value per header"@,
        ApiError::HeaderName(name) => "invalid header name "@ + quoted_form(name),
        ApiError::HeaderValue(name) => "invalid value for header "@ + quoted_form(name),
        ApiError::UndefinedVariables(names) => "undefined template variable(s): "@ + names
            + " (set them with --var or [vars])"@,
        ApiError::MethodInvalid(raw) => "invalid HTTP method "@ + quoted_form(raw),
        ApiError::ContentTypeInvalid(raw) => "invalid content type "@ + quoted_form(raw),
        ApiError::BodyNotJson => "body is not valid JSON; set --content-type for a raw body"@,
        ApiError::ContentTypeWithoutBody => "a content type was set but there is no body"@,
        ApiError::UrlInvalid(raw) => "invalid URL "@ + quoted_form(raw),
        ApiError::UrlNotHttps(scheme) => "--foreign-host requires an https URL (got "@
            + quoted_form(scheme) + ")"@,
        ApiError::BinaryBody => "cannot save a binary body to a request file"@,
    }
}

/// `subject` and its `name`, given with the two values, and what follows.
fn conflict(subject: &str, name: &str, first: &str, second: &str, rest: &str) -> (text: String)
    ensures
        text@ == subject@ + quoted_form(name@) + " appears with different values ("@ + quoted_form(
            first@,
        ) + " and "@ + quoted_form(second@) + rest@,
{
    let mut text = cat3(subject, quoted(name).as_str(), " appears with different values (");
    text.append(quoted(first).as_str());
    text.append(" and ");
    text.append(quoted(second).as_str());
    text.append(rest);
    text
}

impl ApiError<String> {
    /// The words that tell the user of the fault.
    pub fn message(&self) -> (text: String)
        ensures
            text@ == fault_message(self@),
    {
        match self {
            ApiError::MethodMissing => String::from_str(
                "a method is required (positional or in the request file)",
            ),
            ApiError::PathMissing => String::from_str(
                "a path is required (positional or in the request file)",
            ),
            ApiError::AuthUnknown(raw) => cat2(
                "invalid auth in the request file: unknown auth mode ",
                quoted(raw.as_str()).as_str(),
            ),
            ApiError::VarNotPair(raw) => cat3(
                "--var ",
                quoted(raw.as_str()).as_str(),
                " is not KEY=VALUE",
            ),
            ApiError::QueryNotPair(raw) => cat3(
                "query parameter ",
                quoted(raw.as_str()).as_str(),
                " is not KEY=VALUE",
            ),
            ApiError::QueryConflict { key, first, second } => conflict(
                "query key ",
                key.as_str(),
                first.as_str(),
                second.as_str(),
                ") — the request file stores one value per key and cannot represent repeated parameters",
            ),
            ApiError::HeaderNotPair(raw) => cat3(
                "header ",
                quoted(raw.as_str()).as_str(),
                " is not \"Name: value\"",
            ),
            ApiError::HeaderNameEmpty(raw) => cat3(
                "header ",
                quoted(raw.as_str()).as_str(),
                " has an empty name",
            ),
            ApiError::HeaderManaged(name) => cat3(
                "header ",
                quoted(name.as_str()).as_str(),
                " is managed by --auth and cannot be set with --header; use --auth signing|token|cookies instead",
            ),
            ApiError::HeaderManagedStored(name) => cat3(
                "header ",
                quoted(name.as_str()).as_str(),
                " is managed by --auth and cannot be stored in a request file; use the file's `auth` field instead",
            ),
            ApiError::HeaderContentType => String::from_str(
                "set the body content type with --content-type, not --header",
            ),
            ApiError::HeaderContentTypeStored => String::from_str(
                "store the body content type in the file's `content_type` field, not a header",
            ),
            ApiError::HeaderConflict { name, first, second } => conflict(
                "header ",
                name.as_str(),
                first.as_str(),
                second.as_str(),
                ") — the request file stores one value per header",
            ),
            ApiError::HeaderName(name) => cat2(
                "invalid header name ",
                quoted(name.as_str()).as_str(),
            ),
            ApiError::HeaderValue(name) => cat2(
                "invalid value for header ",
                quoted(name.as_str()).as_str(),
            ),
            ApiError::UndefinedVariables(names) => cat3(
                "undefined template variable(s): ",
                names.as_str(),
                " (set them with --var or [vars])",
            ),
            ApiError::MethodInvalid(raw) => cat2(
                "invalid HTTP method ",
                quoted(raw.as_str()).as_str(),
            ),
            ApiError::ContentTypeInvalid(raw) => cat2(
                "invalid content type ",
                quoted(raw.as_str()).as_str(),
            ),
            ApiError::BodyNotJson => String::from_str(
                "body is not valid JSON; set --content-type for a raw body",
            ),
            ApiError::ContentTypeWithoutBody => String::from_str(
                "a content type was set but there is no body",
            ),
            ApiError::UrlInvalid(raw) => cat2("invalid URL ", quoted(raw.as_str()).as_str()),
            ApiError::UrlNotHttps(scheme) => cat3(
                "--foreign-host requires an https URL (got ",
                quoted(scheme.as_str()).as_str(),
                ")",
            ),
            ApiError::BinaryBody => String::from_str(
                "cannot save a binary body to a request file",
            ),
        }
    }
}

} // verus!
