//! Document identifiers. Documents are named by their URI text; the path of a URI is
//! what `Url::parse` and `Url::path` make of it.
use vstd::prelude::*;

use crate::text::{chars_of, str_ends_with};

verus! {

/// The path `Url::path` gives for the text once `Url::parse` accepts it; none when the
/// text is no URL.
pub uninterp spec fn url_path(text: Seq<char>) -> Option<Seq<char>>;

/// `Url::parse` then `Url::path`: the path of a URL given as text.
#[verifier::external_body]
fn parse_url_path(text: &str) -> (r: Option<String>)
    ensures
        match r {
            Some(p) => url_path(text@) == Some(p@),
            None => url_path(text@) is None,
        },
{
    match tower_lsp::lsp_types::Url::parse(text) {
        Ok(u) => Some(u.path().to_string()),
        Err(_) => None,
    }
}

/// The path of a document: its URL path, or the whole text when it is no URL.
pub open spec fn path_of(uri: Seq<char>) -> Seq<char> {
    match url_path(uri) {
        Some(p) => p,
        None => uri,
    }
}

/// The path of the document `uri`.
pub fn uri_path(uri: &str) -> (r: String)
    ensures
        r@ == path_of(uri@),
{
    match parse_url_path(uri) {
        Some(p) => p,
        None => uri.to_owned(),
    }
}

/// The scheme and authority `Url::scheme` and `Url::authority` give for the text once
/// `Url::parse` accepts it; none when the text is no URL.
pub uninterp spec fn url_scheme_authority(text: Seq<char>) -> Option<(Seq<char>, Seq<char>)>;

/// `Url::parse` then `Url::scheme` and `Url::authority`.
#[verifier::external_body]
fn parse_url_scheme_authority(text: &str) -> (r: Option<(String, String)>)
    ensures
        match r {
            Some(p) => url_scheme_authority(text@) == Some((p.0@, p.1@)),
            None => url_scheme_authority(text@) is None,
        },
{
    match tower_lsp::lsp_types::Url::parse(text) {
        Ok(u) => Some((u.scheme().to_string(), u.authority().to_string())),
        Err(_) => None,
    }
}

/// The text `Url` writes for the text once `Url::parse` accepts it; none when the text
/// is no URL.
pub uninterp spec fn url_text(text: Seq<char>) -> Option<Seq<char>>;

/// `Url::parse` then `Url::to_string`: the URL as `Url` writes it.
#[verifier::external_body]
fn parse_url_text(text: &str) -> (r: Option<String>)
    ensures
        match r {
            Some(u) => url_text(text@) == Some(u@),
            None => url_text(text@) is None,
        },
{
    match tower_lsp::lsp_types::Url::parse(text) {
        Ok(u) => Some(u.to_string()),
        Err(_) => None,
    }
}

/// The URL made of the scheme and authority of the URL `uri` followed by `path`; none
/// when either is no URL.
pub open spec fn url_with_path(uri: Seq<char>, path: Seq<char>) -> Option<Seq<char>> {
    match url_scheme_authority(uri) {
        Some((scheme, authority)) => url_text(scheme + "://"@ + authority + path),
        None => None,
    }
}

/// The URL `scheme://authority` of `uri` followed by `path`.
pub fn uri_with_path(uri: &str, path: &str) -> (r: Option<String>)
    ensures
        match r {
            Some(u) => url_with_path(uri@, path@) == Some(u@),
            None => url_with_path(uri@, path@) is None,
        },
{
    let (scheme, authority) = match parse_url_scheme_authority(uri) {
        Some(p) => p,
        None => {
            return None;
        },
    };
    let mut text = scheme;
    text.append("://");
    text.append(&authority);
    text.append(path);
    proof { reveal_strlit("://"); }
    parse_url_text(&text)
}

/// `Url::parse`, `Url::to_file_path` and `Path::file_name`: the last segment of the file
/// path the URI names, or the URI itself when it is no URL. What a file path is depends
/// on the platform's path rules, so nothing more is stated of the result.
#[verifier::external_body]
pub(crate) fn file_name_of(uri: &str) -> (r: String)
    ensures
        url_text(uri@) is None ==> r@ == uri@,
{
    let parsed = match tower_lsp::lsp_types::Url::parse(uri) {
        Ok(u) => u,
        Err(_) => return uri.to_string(),
    };
    match parsed.to_file_path() {
        Ok(p) => match p.file_name() {
            Some(n) => n.to_string_lossy().into_owned(),
            None => parsed.to_string(),
        },
        Err(_) => parsed.to_string(),
    }
}

} // verus!
