//! The persisted configuration, as plain values.
//!
//! Reading and writing the configuration file is I/O and lives outside
//! the library; this module holds the value itself — the two per-source
//! watermarks, the storage locations — and the little logic around it.

use vstd::prelude::*;
use crate::types::NewDate;

verus! {

/// The configuration record.  Instants are UTC unix timestamps in
/// seconds.
#[derive(Debug, PartialEq, Eq)]
pub struct Config {
    /// When a check last ran, whatever came of it.
    pub last_checked: i64,
    /// The remote directory id papers are uploaded into.
    pub directory_id: Option<String>,
    /// The ECCC watermark.
    pub last_checked_eccc: Option<i64>,
    /// The arXiv watermark.
    pub last_checked_arxiv: Option<i64>,
    /// A local directory to store papers in instead of uploading.
    pub local_store: Option<String>,
}

impl Config {
    /// The configuration a first run starts from: both watermarks at
    /// `now`, so nothing older than the first check is ever presented.
    pub fn default_at(now: i64) -> (c: Config)
        ensures
            c.last_checked == now,
            c.directory_id is None,
            c.last_checked_eccc == Some(now),
            c.last_checked_arxiv == Some(now),
            c.local_store is None,
    {
        Config {
            last_checked: now,
            directory_id: None,
            last_checked_eccc: Some(now),
            last_checked_arxiv: Some(now),
            local_store: None,
        }
    }

    /// The stored watermark pair.
    pub fn stored_marks(&self) -> (r: NewDate)
        ensures
            r.eccc == self.last_checked_eccc,
            r.arxiv == self.last_checked_arxiv,
    {
        NewDate { eccc: self.last_checked_eccc, arxiv: self.last_checked_arxiv }
    }

    /// Writes a reconciled watermark pair back into the configuration.
    pub fn apply_marks(&mut self, marks: &NewDate)
        ensures
            final(self).last_checked_eccc == marks.eccc,
            final(self).last_checked_arxiv == marks.arxiv,
            final(self).last_checked == old(self).last_checked,
            final(self).directory_id == old(self).directory_id,
            final(self).local_store == old(self).local_store,
    {
        self.last_checked_eccc = marks.eccc;
        self.last_checked_arxiv = marks.arxiv;
    }
}

/// The directory id of a read configuration, if both exist.
pub fn read_directory_id(config: &Option<Config>) -> (r: Option<String>)
    ensures
        match config {
            Some(c) => r == c.directory_id,
            None => r is None,
        },
{
    match config {
        Some(c) => match &c.directory_id {
            Some(id) => Some(id.clone()),
            None => None,
        },
        None => None,
    }
}

/// The directory id to use on a fresh setup: what the configuration
/// already holds, or the fixed fallback value when there is none.
pub fn setup(config: &Option<Config>) -> (r: String)
    ensures
        match read_directory_id_spec(config) {
            Some(id) => r == id,
            None => r@ == "NULL"@,
        },
{
    match read_directory_id(config) {
        Some(id) => id,
        None => "NULL".to_owned(),
    }
}

/// What [`read_directory_id`] returns.
pub open spec fn read_directory_id_spec(config: &Option<Config>) -> Option<String> {
    match config {
        Some(c) => c.directory_id,
        None => None,
    }
}

} // verus!
