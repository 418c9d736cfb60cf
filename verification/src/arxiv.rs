//! Conversion of arXiv feed entries into canonical paper records.
//!
//! The feed itself is fetched and its XML walked outside the library;
//! what arrives here is one entry's plain fields.  The publication text
//! is machine-parseable RFC 3339, entrusted to `chrono`.

use vstd::prelude::*;
use crate::types::{Paper, Source, spec_sanitize_title, sanitize_title};
use crate::eccc::DateError;

verus! {

/// The UTC unix timestamp denoted by an RFC 3339 date-time text, when the
/// text parses as one.
pub uninterp spec fn rfc3339_utc_of(s: Seq<char>) -> Option<int>;

/// Relies on chrono's `DateTime::parse_from_rfc3339`: parses an RFC 3339
/// date-time with offset and yields the UTC unix timestamp of the instant
/// it denotes.
#[verifier::external_body]
fn parse_rfc3339(s: &str) -> (r: Option<i64>)
    ensures
        match r {
            Some(t) => rfc3339_utc_of(s@) == Some(t as int),
            None => rfc3339_utc_of(s@) is None,
        },
{
    match chrono::DateTime::parse_from_rfc3339(s) {
        Ok(d) => Some(d.timestamp()),
        Err(_) => None,
    }
}

/// Builds the canonical paper record out of one feed entry's fields: the
/// title is sanitized, the publication text is resolved from RFC 3339 to
/// a UTC instant, and the version tag rides on the source.  Fails exactly
/// when the publication text is not RFC 3339.
pub fn paper_from_arxiv_entry(
    title: &str,
    description: String,
    published_raw: &str,
    link: String,
    authors: Vec<String>,
    version: String,
) -> (r: Result<Paper, DateError>)
    ensures
        match r {
            Ok(p) => rfc3339_utc_of(published_raw@) == Some(p.published as int) && p.title@
                == spec_sanitize_title(title@) && p.description == description && p.link == link
                && p.authors == authors && p.source == Source::Arxiv(version),
            Err(e) => rfc3339_utc_of(published_raw@) is None && e == DateError::Parse,
        },
{
    let published = match parse_rfc3339(published_raw) {
        Some(t) => t,
        None => { return Err(DateError::Parse) },
    };
    Ok(
        Paper {
            title: sanitize_title(title),
            description,
            link,
            source: Source::Arxiv(version),
            published,
            authors,
        },
    )
}

} // verus!
