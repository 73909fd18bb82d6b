//! File paths and the URIs that stand for them.
use crate::handler::MyHandler;
use vstd::prelude::*;
use vstd::utf8::encode_utf8;

verus! {

/// What `url::Url` makes of a text: the URL in its normal form, or why the text is no URL.
pub uninterp spec fn parsed_url(text: Seq<char>) -> Result<Seq<char>, Seq<char>>;

/// The file path that a URL stands for, where the text is a URL and it stands for one.
pub uninterp spec fn url_path(text: Seq<char>) -> Option<Seq<char>>;

/// The URL of a file.
pub uninterp spec fn path_url(path: Seq<char>) -> Option<Seq<char>>;

/// The URL of a directory.
pub uninterp spec fn directory_url(path: Seq<char>) -> Option<Seq<char>>;

/// Whether a text has the syntax of a URI.
pub uninterp spec fn uri_syntax(text: Seq<char>) -> bool;

/// Whether a path is absolute.
pub uninterp spec fn absolute_path(path: Seq<char>) -> bool;

/// The path that the second names from the directory of the first.
pub uninterp spec fn joined_path(base: Seq<char>, path: Seq<char>) -> Seq<char>;

/// `url::Url::parse`: the normal form of the URL, or the message of the error, depends on the text
/// alone.
#[verifier::external_body]
pub(crate) fn parse_url(text: &str) -> (url: Result<String, String>)
    ensures
        match url {
            Ok(url) => parsed_url(text@) == Ok::<Seq<char>, Seq<char>>(url@),
            Err(message) => parsed_url(text@) == Err::<Seq<char>, Seq<char>>(message@),
        },
{
    match url::Url::parse(text) {
        Ok(url) => Ok(url.to_string()),
        Err(error) => Err(error.to_string()),
    }
}

/// `url::Url::to_file_path`: the path depends on the URL alone, on the platform that the library is
/// built for. A text that is no URL has no path. Where a path is not UTF-8, replacement characters
/// stand for what is not.
#[verifier::external_body]
fn url_to_path(text: &str) -> (path: Option<String>)
    ensures
        path.deep_view() == url_path(text@),
        parsed_url(text@) is Err ==> path is None,
{
    let path = url::Url::parse(text).ok()?.to_file_path().ok()?;
    Some(path.to_string_lossy().into_owned())
}

/// `url::Url::from_file_path`: the URL depends on the path alone, on the platform that the library
/// is built for.
#[verifier::external_body]
fn path_to_url(path: &str) -> (url: Option<String>)
    ensures
        url.deep_view() == path_url(path@),
{
    url::Url::from_file_path(path).ok().map(|url| url.to_string())
}

/// `url::Url::from_directory_path`: the URL depends on the path alone, on the platform that the
/// library is built for.
#[verifier::external_body]
fn directory_to_url(path: &str) -> (url: Option<String>)
    ensures
        url.deep_view() == directory_url(path@),
{
    url::Url::from_directory_path(path).ok().map(|url| url.to_string())
}

/// How many bytes a URI has at most.
pub open spec fn uri_bytes() -> nat {
    0x7fff_ffff
}

/// How many bytes a URI has at most.
pub const MAX_URI_BYTES: usize = 0x7fff_ffff;

/// `<lsp_types::Uri as FromStr>::from_str`: whether the text parses depends on the text alone. The
/// URI keeps the text as it is. A longer text is not for it: it panics.
#[verifier::external_body]
fn has_uri_syntax(text: &str) -> (valid: bool)
    requires
        encode_utf8(text@).len() <= uri_bytes(),
    ensures
        valid == uri_syntax(text@),
{
    text.parse::<lsp_types::Uri>().is_ok()
}

/// `std::path::Path::is_absolute`: depends on the path alone, on the platform that the library is
/// built for.
#[verifier::external_body]
fn is_absolute(path: &str) -> (absolute: bool)
    ensures
        absolute == absolute_path(path@),
{
    std::path::Path::new(path).is_absolute()
}

/// `std::path::Path::join`: depends on the two paths alone, on the platform that the library is
/// built for.
#[verifier::external_body]
fn join_path(base: &str, path: &str) -> (joined: String)
    ensures
        joined@ == joined_path(base@, path@),
{
    std::path::Path::new(base).join(path).to_string_lossy().into_owned()
}

/// Whether a text is a URI: it has the syntax of one, and is not too long.
pub open spec fn is_uri_text(text: Seq<char>) -> bool {
    encode_utf8(text).len() <= uri_bytes() && uri_syntax(text)
}

/// Whether a text is a URI.
pub fn is_uri(text: &str) -> (is_uri: bool)
    ensures
        is_uri == is_uri_text(text@),
{
    text.as_bytes().len() <= MAX_URI_BYTES && has_uri_syntax(text)
}

/// The text, where it is a URI.
pub open spec fn as_uri(text: Option<Seq<char>>) -> Option<Seq<char>> {
    match text {
        Some(text) => if is_uri_text(text) {
            Some(text)
        } else {
            None
        },
        None => None,
    }
}

/// The path as it is where it is absolute, else seen from the current directory.
pub open spec fn absolute(path: Seq<char>, current_dir: Seq<char>) -> Seq<char> {
    if absolute_path(path) {
        path
    } else {
        joined_path(current_dir, path)
    }
}

impl MyHandler {
    /// Makes a path absolute.
    pub fn to_absolute_path(path: &str, current_dir: &str) -> (full: String)
        ensures
            full@ == absolute(path@, current_dir@),
    {
        if is_absolute(path) {
            path.to_owned()
        } else {
            join_path(current_dir, path)
        }
    }
}

/// The URI of a file. `None` where the path has none.
pub fn file_uri(path: &str) -> (uri: Option<String>)
    ensures
        uri.deep_view() == as_uri(path_url(path@)),
{
    match path_to_url(path) {
        Some(url) => if is_uri(url.as_str()) {
            Some(url)
        } else {
            None
        },
        None => None,
    }
}

/// The URI of a directory. `None` where the path has no URL; an error with the URL where that is no
/// URI.
pub fn directory_uri(path: &str) -> (uri: Result<Option<String>, String>)
    ensures
        match uri {
            Ok(uri) => uri.deep_view() == directory_url(path@) && as_uri(directory_url(path@))
                == directory_url(path@),
            Err(url) => directory_url(path@) == Some(url@) && !is_uri_text(url@),
        },
{
    match directory_to_url(path) {
        Some(url) => if is_uri(url.as_str()) {
            Ok(Some(url))
        } else {
            Err(url)
        },
        None => Ok(None),
    }
}

/// The file path that a URI stands for. `None` where it stands for none.
pub fn path_of_uri(uri: &str) -> (path: Option<String>)
    ensures
        path.deep_view() == url_path(uri@),
{
    url_to_path(uri)
}

/// The URI in its normal form. `None` where it is no URL, or its normal form no URI.
pub fn normal_uri(uri: &str) -> (normal: Option<String>)
    ensures
        normal.deep_view() == as_uri(parsed_url(uri@).ok()),
{
    match parse_url(uri) {
        Ok(url) => if is_uri(url.as_str()) {
            Some(url)
        } else {
            None
        },
        Err(_) => None,
    }
}

/// A path becomes absolute by the current directory, unless it is; an absolute path does not depend on the
/// directory.
pub proof fn a_path_is_made_absolute_once(
    path: Seq<char>,
    current_dir: Seq<char>,
    other_dir: Seq<char>,
)
    ensures
        absolute_path(path) ==> absolute(path, current_dir) == path && absolute(path, other_dir)
            == absolute(path, current_dir),
        !absolute_path(path) ==> absolute(path, current_dir) == joined_path(current_dir, path),
{
}

/// A text is taken for a URI as it is, or not at all: where it has the syntax of one and no more bytes
/// than one may have.
pub proof fn a_uri_is_taken_as_it_is(text: Seq<char>)
    ensures
        as_uri(Some(text)) is Some <==> uri_syntax(text) && encode_utf8(text).len() <= 0x7fff_ffff,
        as_uri(Some(text)) matches Some(uri) ==> uri == text,
        as_uri(None) is None,
{
}

} // verus!
