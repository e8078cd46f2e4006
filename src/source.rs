//! The source object: where in a storage URI the bucket, the prefix and the
//! object name are found.

use vstd::prelude::*;
use vstd::string::StringExecFns;
use crate::key::{
    joined, join_key, name_of, prefix_of, split_key, strip_leading_slashes, trim_leading_slashes,
};

verus! {

#[verifier::external_type_specification]
#[verifier::external_body]
pub struct ExParseError(url::ParseError);

/// Whether `url::Url::parse` accepts the text.
pub uninterp spec fn url_accepts(s: Seq<char>) -> bool;

/// The host that `url::Url::host_str` gives for the URL parsed from the text.
pub uninterp spec fn url_host(s: Seq<char>) -> Option<Seq<char>>;

/// The path that `url::Url::path` gives for the URL parsed from the text.
pub uninterp spec fn url_path(s: Seq<char>) -> Seq<char>;

/// What the library reads of a parsed URI: its host and its path.
pub struct UriParts {
    pub host: Option<String>,
    pub path: String,
}

/// The view of an optional host.
pub open spec fn host_view(h: Option<String>) -> Option<Seq<char>> {
    match h {
        Some(s) => Some(s@),
        None => None,
    }
}

/// Relies on url::Url::parse to parse `s`, and on Url::host_str and Url::path
/// for the host and the path of the result; each depends on the text alone.
#[verifier::external_body]
fn parse_url(s: &str) -> (r: Result<UriParts, url::ParseError>)
    ensures
        r is Ok <==> url_accepts(s@),
        r matches Ok(p) ==> host_view(p.host) == url_host(s@) && p.path@ == url_path(s@),
{
    match url::Url::parse(s) {
        Ok(u) => Ok(UriParts { host: u.host_str().map(|h| h.to_string()), path: u.path().to_string() }),
        Err(e) => Err(e),
    }
}

/// The object that copies are made of: its bucket, the prefix of its key
/// and the name that follows the prefix.
pub struct SourceRef {
    pub bucket: String,
    pub prefix: String,
    pub object_name: String,
}

pub struct SourceRefView {
    pub bucket: Seq<char>,
    pub prefix: Seq<char>,
    pub object_name: Seq<char>,
}

impl View for SourceRef {
    type V = SourceRefView;

    open spec fn view(&self) -> SourceRefView {
        SourceRefView { bucket: self.bucket@, prefix: self.prefix@, object_name: self.object_name@ }
    }
}

/// Why a storage URI names no source object.
#[derive(Debug, Clone, Copy, PartialEq, Eq, Structural)]
pub enum SourceError {
    /// The text is not a well-formed URI.
    InvalidUri,
    /// The URI has no host, so no bucket.
    MissingHost,
}

/// The key that a URI's path names: the path without its leading `/`.
pub open spec fn key_of_path(path: Seq<char>) -> Seq<char> {
    trim_leading_slashes(path)
}

/// The source object named by a URI with this host and path.
pub open spec fn source_for(host: Seq<char>, path: Seq<char>) -> SourceRefView {
    SourceRefView {
        bucket: host,
        prefix: prefix_of(key_of_path(path)),
        object_name: name_of(key_of_path(path)),
    }
}

impl SourceRef {
    /// The key of the object that is copied: `prefix/object_name`, or the
    /// name alone when the prefix is empty.
    pub fn source_key(&self) -> (r: String)
        ensures
            r@ == joined(self.prefix@, self.object_name@),
    {
        join_key(self.prefix.as_str(), self.object_name.as_str())
    }
}

/// The source object named by a parsed URI: the host is the bucket, the
/// path without its leading `/` is the key.
pub fn source_from_parts(parts: &UriParts) -> (r: Result<SourceRef, SourceError>)
    ensures
        r matches Err(SourceError::MissingHost) <==> parts.host is None,
        !(r matches Err(SourceError::InvalidUri)),
        r matches Ok(src) ==> src@ == source_for(parts.host->Some_0@, parts.path@),
{
    match &parts.host {
        None => Err(SourceError::MissingHost),
        Some(host) => {
            let key = strip_leading_slashes(parts.path.as_str());
            let (prefix, object_name) = split_key(key);
            Ok(SourceRef { bucket: String::from_str(host.as_str()), prefix, object_name })
        },
    }
}

/// What reading a storage URI gives: the source object, or why there is none.
pub open spec fn source_result(uri: Seq<char>) -> Result<SourceRefView, SourceError> {
    if !url_accepts(uri) {
        Err(SourceError::InvalidUri)
    } else {
        match url_host(uri) {
            None => Err(SourceError::MissingHost),
            Some(host) => Ok(source_for(host, url_path(uri))),
        }
    }
}

/// The view of the result of reading a source object.
pub open spec fn source_result_view(r: Result<SourceRef, SourceError>) -> Result<SourceRefView, SourceError> {
    match r {
        Ok(src) => Ok(src@),
        Err(e) => Err(e),
    }
}

/// Reads the source object from a storage URI such as
/// `s3://bucket/dir/name`.
pub fn parse_source(uri: &str) -> (r: Result<SourceRef, SourceError>)
    ensures
        r matches Err(SourceError::InvalidUri) <==> !url_accepts(uri@),
        r matches Err(SourceError::MissingHost) <==> url_accepts(uri@) && url_host(uri@) is None,
        r matches Ok(src) ==> src@ == source_for(url_host(uri@)->Some_0, url_path(uri@)),
        source_result_view(r) == source_result(uri@),
{
    match parse_url(uri) {
        Err(_) => Err(SourceError::InvalidUri),
        Ok(parts) => source_from_parts(&parts),
    }
}

} // verus!
