//! The operations a front end calls, over one catalog.
use vstd::prelude::*;
use crate::catalog::{
    birth_date_key, folder_path_key, opt_text, upsert_all, views, with_age_group, with_note,
    with_thumbnail, CatalogError, Database, FileInfo, FileRecord, Settings,
};
use crate::scan::{build_records, records_for, ScannedFile};

verus! {

proof fn lemma_upsert_len(s: Seq<FileRecord>, r: FileRecord)
    ensures
        crate::catalog::upsert(s, r).len() <= s.len() + 1,
{
}

/// Catalogs the files of a folder walk. `root_exists` says whether the folder
/// was there; `entries` are the regular files the walk met. Each file that is
/// media and has a timestamp becomes a record, which is upserted into `db`;
/// the records are returned in walk order.
pub fn scan_folder(
    db: &mut Database,
    root_exists: bool,
    entries: &Vec<ScannedFile>,
    birth_date: &Option<String>,
) -> (r: Result<Vec<FileInfo>, CatalogError>)
    requires
        old(db).wf(),
        old(db).records().len() + entries@.len() < i64::MAX,
    ensures
        final(db).wf(),
        final(db).setting_pairs() == old(db).setting_pairs(),
        !root_exists ==> r == Err::<Vec<FileInfo>, CatalogError>(CatalogError::NotFound)
            && final(db).records() == old(db).records(),
        root_exists ==> (r matches Ok(files) && views(files@) == records_for(
            entries@,
            opt_text(*birth_date),
        ) && final(db).records() == upsert_all(old(db).records(), views(files@))),
{
    if !root_exists {
        return Err(CatalogError::NotFound);
    }
    let files = build_records(entries, birth_date);
    let ghost start = db.records();
    let ghost all = views(files@);
    let mut i: usize = 0;
    while i < files.len()
        invariant
            i <= files@.len(),
            files@.len() <= entries@.len(),
            start.len() + entries@.len() < i64::MAX,
            all == views(files@),
            db.wf(),
            db.setting_pairs() == old(db).setting_pairs(),
            db.records() == upsert_all(start, all.subrange(0, i as int)),
            db.records().len() <= start.len() + i,
        decreases files@.len() - i,
    {
        proof {
            let next = all.subrange(0, i + 1);
            assert(next.drop_last() =~= all.subrange(0, i as int));
            assert(next.last() == files@[i as int]@);
            lemma_upsert_len(db.records(), files@[i as int]@);
        }
        db.save_file(&files[i]);
        i = i + 1;
    }
    proof {
        assert(all.subrange(0, files@.len() as int) =~= all);
    }
    Ok(files)
}

/// What the file-system side of making a thumbnail found.
#[derive(Debug)]
pub enum ThumbnailOutcome {
    /// The source file does not exist.
    SourceMissing,
    /// A thumbnail was already cached at this path; nothing was written.
    Cached(String),
    /// The source was decoded and a thumbnail written at this path.
    Written(String),
    /// The source is not a decodable image.
    Undecodable,
    /// The thumbnail could not be written.
    WriteFailed,
}

/// Finishes a thumbnail request once the file-system side has run. A cache
/// hit returns its path and changes nothing; a new thumbnail is recorded on the
/// source's record, which must exist.
pub fn generate_thumbnail(db: &mut Database, file_path: &str, outcome: ThumbnailOutcome) -> (r:
    Result<String, CatalogError>)
    requires
        old(db).wf(),
    ensures
        final(db).wf(),
        final(db).setting_pairs() == old(db).setting_pairs(),
        match outcome {
            ThumbnailOutcome::SourceMissing => r == Err::<String, CatalogError>(
                CatalogError::NotFound,
            ) && final(db).records() == old(db).records(),
            ThumbnailOutcome::Cached(p) => (r matches Ok(q) && q@ == p@) && final(db).records()
                == old(db).records(),
            ThumbnailOutcome::Undecodable => r == Err::<String, CatalogError>(
                CatalogError::DecodeError,
            ) && final(db).records() == old(db).records(),
            ThumbnailOutcome::WriteFailed => r == Err::<String, CatalogError>(
                CatalogError::IoError,
            ) && final(db).records() == old(db).records(),
            ThumbnailOutcome::Written(p) => if old(db).record(file_path@) is Some {
                (r matches Ok(q) && q@ == p@) && final(db).records() == with_thumbnail(
                    old(db).records(),
                    file_path@,
                    p@,
                )
            } else {
                r == Err::<String, CatalogError>(CatalogError::RecordNotFound)
                    && final(db).records() == old(db).records()
            },
        },
{
    match outcome {
        ThumbnailOutcome::SourceMissing => Err(CatalogError::NotFound),
        ThumbnailOutcome::Cached(p) => Ok(p),
        ThumbnailOutcome::Undecodable => Err(CatalogError::DecodeError),
        ThumbnailOutcome::WriteFailed => Err(CatalogError::IoError),
        ThumbnailOutcome::Written(p) => {
            match db.get_file(file_path) {
                Some(_) => {
                    db.set_thumbnail(file_path, p.as_str());
                    Ok(p)
                },
                None => Err(CatalogError::RecordNotFound),
            }
        },
    }
}

/// The record of `file_path`; `NotFound` where there is none.
pub fn get_file_info(db: &Database, file_path: &str) -> (r: Result<FileInfo, CatalogError>)
    requires
        db.wf(),
    ensures
        r matches Ok(f) ==> db.record(file_path@) == Some(f@),
        r is Err ==> db.record(file_path@) is None && r == Err::<FileInfo, CatalogError>(
            CatalogError::NotFound,
        ),
{
    match db.get_file(file_path) {
        Some(f) => Ok(f),
        None => Err(CatalogError::NotFound),
    }
}

/// Saves the settings that are given; an absent one keeps its value.
pub fn save_settings(db: &mut Database, baby_birth_date: Option<String>, folder_path: Option<String>)
    requires
        old(db).wf(),
    ensures
        final(db).wf(),
        final(db).records() == old(db).records(),
        final(db).setting(birth_date_key()) == match baby_birth_date {
            Some(d) => Some(d@),
            None => old(db).setting(birth_date_key()),
        },
        final(db).setting(folder_path_key()) == match folder_path {
            Some(p) => Some(p@),
            None => old(db).setting(folder_path_key()),
        },
{
    proof {
        reveal_strlit("baby_birth_date");
        reveal_strlit("folder_path");
        assert(birth_date_key().len() != folder_path_key().len());
    }
    if let Some(date) = baby_birth_date {
        db.save_setting("baby_birth_date", date.as_str());
    }
    if let Some(path) = folder_path {
        db.save_setting("folder_path", path.as_str());
    }
}

/// Both settings; an unset one is `None`.
pub fn get_settings(db: &Database) -> (r: Settings)
    requires
        db.wf(),
    ensures
        opt_text(r.baby_birth_date) == db.setting(birth_date_key()),
        opt_text(r.folder_path) == db.setting(folder_path_key()),
{
    db.get_all_settings()
}

/// Sets the note of the record of `file_path`; no change where there is none.
pub fn save_note(db: &mut Database, file_path: &str, note: &str)
    requires
        old(db).wf(),
    ensures
        final(db).wf(),
        final(db).records() == with_note(old(db).records(), file_path@, note@),
        final(db).setting_pairs() == old(db).setting_pairs(),
{
    db.save_note(file_path, note)
}

/// The note of the record of `file_path`; `NotFound` where there is no record.
pub fn get_note(db: &Database, file_path: &str) -> (r: Result<Option<String>, CatalogError>)
    requires
        db.wf(),
    ensures
        r matches Ok(n) ==> (db.record(file_path@) matches Some(rec) && opt_text(n) == rec.note),
        r is Err ==> db.record(file_path@) is None && r == Err::<Option<String>, CatalogError>(
            CatalogError::NotFound,
        ),
{
    match db.get_file(file_path) {
        Some(f) => Ok(f.note),
        None => Err(CatalogError::NotFound),
    }
}

/// Every record, newest first by `created_at`.
pub fn get_all_files(db: &Database) -> (r: Vec<FileInfo>)
    requires
        db.wf(),
    ensures
        views(r@).to_multiset() == db.records().to_multiset(),
        crate::catalog::newest_first(views(r@)),
{
    db.get_all_files()
}

/// Replaces the age label of the record of `file_path`; no change where there is none.
pub fn update_file_age_group(db: &mut Database, file_path: &str, age_group: &str)
    requires
        old(db).wf(),
    ensures
        final(db).wf(),
        final(db).records() == with_age_group(old(db).records(), file_path@, age_group@),
        final(db).setting_pairs() == old(db).setting_pairs(),
{
    db.update_file_age_group(file_path, age_group)
}

} // verus!
