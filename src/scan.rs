//! Turning the files met in a folder walk into catalog records.
use vstd::prelude::*;
use crate::age::{age_label, calculate_age_group, not_set_label};
use crate::catalog::{FileInfo, FileRecord, opt_text};
use crate::classify::{classify, kind_of_name};

verus! {

/// A time read from a file's metadata.
#[derive(Clone, Copy, Debug, PartialEq, Eq, Structural)]
pub enum FileTime {
    /// Earlier than the Unix epoch.
    BeforeEpoch,
    /// Whole seconds after the Unix epoch.
    Since(u64),
}

/// The creation time where it could be read, else the modification time, in
/// whole seconds since the Unix epoch. `None` where neither could be read, or
/// where the chosen one lies before the epoch or past the `i64` range.
pub open spec fn timestamp_of(created: Option<FileTime>, modified: Option<FileTime>) -> Option<i64> {
    let chosen = if created is Some { created } else { modified };
    match chosen {
        Some(FileTime::Since(s)) => if s <= i64::MAX { Some(s as i64) } else { None },
        _ => None,
    }
}

/// A file's timestamp from what its metadata held (see `timestamp_of`).
pub fn resolve_timestamp(created: Option<FileTime>, modified: Option<FileTime>) -> (r: Option<i64>)
    ensures
        r == timestamp_of(created, modified),
{
    let chosen = if created.is_some() { created } else { modified };
    match chosen {
        Some(FileTime::Since(s)) => {
            if s <= i64::MAX as u64 {
                Some(s as i64)
            } else {
                None
            }
        },
        _ => None,
    }
}

/// A regular file met while walking a folder, with its timestamp where it
/// could be resolved.
#[derive(Debug)]
pub struct ScannedFile {
    pub file_path: String,
    pub file_name: String,
    pub created_at: Option<i64>,
}

/// The record of a file met in a walk, or `None` where the file is not media
/// or has no timestamp. Without a birth date the age label says so.
pub open spec fn record_for(e: ScannedFile, birth_date: Option<Seq<char>>) -> Option<FileRecord> {
    match (kind_of_name(e.file_name@), e.created_at) {
        (Some(kind), Some(t)) => Some(
            FileRecord {
                id: None,
                file_path: e.file_path@,
                file_name: e.file_name@,
                file_type: kind,
                created_at: t,
                modified_at: t,
                age_group: match birth_date {
                    Some(b) => age_label(b, t),
                    None => not_set_label(),
                },
                thumbnail_path: None,
                note: None,
            },
        ),
        _ => None,
    }
}

/// The records of the files of a walk, in walk order, those without one left out.
pub open spec fn records_for(es: Seq<ScannedFile>, birth_date: Option<Seq<char>>) -> Seq<FileRecord>
    decreases es.len(),
{
    if es.len() == 0 {
        Seq::empty()
    } else {
        let rest = records_for(es.drop_last(), birth_date);
        match record_for(es.last(), birth_date) {
            Some(r) => rest.push(r),
            None => rest,
        }
    }
}

/// The record of one file met in a walk (see `record_for`).
pub fn build_record(entry: &ScannedFile, birth_date: &Option<String>) -> (r: Option<FileInfo>)
    ensures
        r matches Some(f) ==> record_for(*entry, opt_text(*birth_date)) == Some(f@),
        r is None ==> record_for(*entry, opt_text(*birth_date)) is None,
{
    let kind = match classify(entry.file_name.as_str()) {
        Some(k) => k,
        None => return None,
    };
    let created_at = match entry.created_at {
        Some(t) => t,
        None => return None,
    };
    let age_group = match birth_date {
        Some(b) => calculate_age_group(b.as_str(), created_at),
        None => String::from_str("not set"),
    };
    Some(FileInfo {
        id: None,
        file_path: entry.file_path.clone(),
        file_name: entry.file_name.clone(),
        file_type: kind,
        created_at,
        modified_at: created_at,
        age_group,
        thumbnail_path: None,
        note: None,
    })
}

/// The records of the files of a walk, in walk order (see `records_for`).
pub fn build_records(entries: &Vec<ScannedFile>, birth_date: &Option<String>) -> (r: Vec<FileInfo>)
    ensures
        crate::catalog::views(r@) == records_for(entries@, opt_text(*birth_date)),
        r@.len() <= entries@.len(),
{
    let mut out: Vec<FileInfo> = Vec::new();
    let mut i: usize = 0;
    while i < entries.len()
        invariant
            i <= entries@.len(),
            crate::catalog::views(out@) == records_for(entries@.subrange(0, i as int), opt_text(*birth_date)),
            out@.len() <= i,
        decreases entries@.len() - i,
    {
        let ghost prefix = entries@.subrange(0, i as int);
        let ghost next = entries@.subrange(0, i + 1);
        proof {
            assert(next.drop_last() =~= prefix);
            assert(next.last() == entries@[i as int]);
        }
        match build_record(&entries[i], birth_date) {
            Some(f) => {
                out.push(f);
                proof {
                    assert(crate::catalog::views(out@) =~= records_for(next, opt_text(*birth_date)));
                }
            },
            None => {},
        }
        i = i + 1;
    }
    proof {
        assert(entries@.subrange(0, entries@.len() as int) =~= entries@);
    }
    out
}

} // verus!
