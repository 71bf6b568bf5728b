//! The catalog store: file records keyed by path, and settings keyed by name.
use vstd::prelude::*;
use crate::classify::FileType;

verus! {

/// One catalogued media file.
#[derive(Debug)]
pub struct FileInfo {
    /// Assigned by the store on first insert and kept from then on.
    pub id: Option<i64>,
    /// Absolute path; no two records share one.
    pub file_path: String,
    pub file_name: String,
    pub file_type: FileType,
    /// Seconds since the Unix epoch.
    pub created_at: i64,
    pub modified_at: i64,
    pub age_group: String,
    pub thumbnail_path: Option<String>,
    pub note: Option<String>,
}

/// What a `FileInfo` holds, as mathematical values.
pub struct FileRecord {
    pub id: Option<i64>,
    pub file_path: Seq<char>,
    pub file_name: Seq<char>,
    pub file_type: FileType,
    pub created_at: i64,
    pub modified_at: i64,
    pub age_group: Seq<char>,
    pub thumbnail_path: Option<Seq<char>>,
    pub note: Option<Seq<char>>,
}

pub open spec fn opt_text(o: Option<String>) -> Option<Seq<char>> {
    match o {
        Some(s) => Some(s@),
        None => None,
    }
}

impl View for FileInfo {
    type V = FileRecord;

    open spec fn view(&self) -> FileRecord {
        FileRecord {
            id: self.id,
            file_path: self.file_path@,
            file_name: self.file_name@,
            file_type: self.file_type,
            created_at: self.created_at,
            modified_at: self.modified_at,
            age_group: self.age_group@,
            thumbnail_path: opt_text(self.thumbnail_path),
            note: opt_text(self.note),
        }
    }
}

/// The user's settings; an unset one is `None`.
#[derive(Debug)]
pub struct Settings {
    pub baby_birth_date: Option<String>,
    pub folder_path: Option<String>,
}

/// Why an operation on the catalog failed.
#[derive(Clone, Copy, Debug, PartialEq, Eq, Structural)]
pub enum CatalogError {
    /// A folder or source file that does not exist, or a path with no record.
    NotFound,
    /// Metadata or a file that could not be read or written.
    IoError,
    /// A source that is not a decodable image.
    DecodeError,
    /// A thumbnail for a path that was never scanned.
    RecordNotFound,
}

impl CatalogError {
    /// A message for people.
    pub fn message(&self) -> &'static str {
        match self {
            CatalogError::NotFound => "file or folder does not exist",
            CatalogError::IoError => "file could not be read or written",
            CatalogError::DecodeError => "file is not a decodable image",
            CatalogError::RecordNotFound => "file is not in the catalog",
        }
    }
}

pub fn copy_text(o: &Option<String>) -> (r: Option<String>)
    ensures
        opt_text(r) == opt_text(*o),
{
    match o {
        Some(s) => Some(s.clone()),
        None => None,
    }
}

impl FileInfo {
    /// A field-by-field copy.
    pub fn duplicate(&self) -> (r: FileInfo)
        ensures
            r@ == self@,
    {
        FileInfo {
            id: self.id,
            file_path: self.file_path.clone(),
            file_name: self.file_name.clone(),
            file_type: self.file_type,
            created_at: self.created_at,
            modified_at: self.modified_at,
            age_group: self.age_group.clone(),
            thumbnail_path: copy_text(&self.thumbnail_path),
            note: copy_text(&self.note),
        }
    }
}

pub open spec fn views(v: Seq<FileInfo>) -> Seq<FileRecord> {
    v.map_values(|f: FileInfo| f@)
}

pub open spec fn has_path(s: Seq<FileRecord>, p: Seq<char>) -> bool {
    exists|i: int| 0 <= i < s.len() && s[i].file_path == p
}

pub open spec fn index_of_path(s: Seq<FileRecord>, p: Seq<char>) -> int {
    choose|i: int| 0 <= i < s.len() && s[i].file_path == p
}

/// The record stored under path `p`, if any.
pub open spec fn record_at(s: Seq<FileRecord>, p: Seq<char>) -> Option<FileRecord> {
    if has_path(s, p) {
        Some(s[index_of_path(s, p)])
    } else {
        None
    }
}

pub open spec fn paths_unique(s: Seq<FileRecord>) -> bool {
    forall|i: int, j: int|
        0 <= i < s.len() && 0 <= j < s.len() && i != j ==> s[i].file_path != s[j].file_path
}

/// Records carry ids 1, 2, 3, ... in the order in which their paths came in.
pub open spec fn ids_in_order(s: Seq<FileRecord>) -> bool {
    forall|i: int| 0 <= i < s.len() ==> s[i].id == Some((i + 1) as i64)
}

/// Insert-or-overwrite keyed by path: an existing record keeps its place and
/// its id and takes every other field of `r`; a new path is appended with the
/// next id.
pub open spec fn upsert(s: Seq<FileRecord>, r: FileRecord) -> Seq<FileRecord> {
    if has_path(s, r.file_path) {
        let i = index_of_path(s, r.file_path);
        s.update(i, FileRecord { id: s[i].id, ..r })
    } else {
        s.push(FileRecord { id: Some((s.len() + 1) as i64), ..r })
    }
}

/// Each record of `rs` upserted in turn.
pub open spec fn upsert_all(s: Seq<FileRecord>, rs: Seq<FileRecord>) -> Seq<FileRecord>
    decreases rs.len(),
{
    if rs.len() == 0 {
        s
    } else {
        upsert(upsert_all(s, rs.drop_last()), rs.last())
    }
}

/// The record under path `p` with its age label replaced; no change where
/// there is none.
pub open spec fn with_age_group(s: Seq<FileRecord>, p: Seq<char>, a: Seq<char>) -> Seq<FileRecord> {
    if has_path(s, p) {
        let i = index_of_path(s, p);
        s.update(i, FileRecord { age_group: a, ..s[i] })
    } else {
        s
    }
}

/// The record under path `p` with its note replaced; no change where there is none.
pub open spec fn with_note(s: Seq<FileRecord>, p: Seq<char>, n: Seq<char>) -> Seq<FileRecord> {
    if has_path(s, p) {
        let i = index_of_path(s, p);
        s.update(i, FileRecord { note: Some(n), ..s[i] })
    } else {
        s
    }
}

/// The record under path `p` with its thumbnail set; no change where there is none.
pub open spec fn with_thumbnail(s: Seq<FileRecord>, p: Seq<char>, t: Seq<char>) -> Seq<FileRecord> {
    if has_path(s, p) {
        let i = index_of_path(s, p);
        s.update(i, FileRecord { thumbnail_path: Some(t), ..s[i] })
    } else {
        s
    }
}

/// Newest first: `created_at` never increases along the sequence.
pub open spec fn newest_first(s: Seq<FileRecord>) -> bool {
    forall|i: int, j: int| 0 <= i < j < s.len() ==> s[i].created_at >= s[j].created_at
}

pub open spec fn has_key(s: Seq<(Seq<char>, Seq<char>)>, k: Seq<char>) -> bool {
    exists|i: int| 0 <= i < s.len() && s[i].0 == k
}

pub open spec fn index_of_key(s: Seq<(Seq<char>, Seq<char>)>, k: Seq<char>) -> int {
    choose|i: int| 0 <= i < s.len() && s[i].0 == k
}

/// The value stored under setting `k`, if any.
pub open spec fn setting_at(s: Seq<(Seq<char>, Seq<char>)>, k: Seq<char>) -> Option<Seq<char>> {
    if has_key(s, k) {
        Some(s[index_of_key(s, k)].1)
    } else {
        None
    }
}

pub open spec fn keys_unique(s: Seq<(Seq<char>, Seq<char>)>) -> bool {
    forall|i: int, j: int| 0 <= i < s.len() && 0 <= j < s.len() && i != j ==> s[i].0 != s[j].0
}

pub open spec fn birth_date_key() -> Seq<char> {
    "baby_birth_date"@
}

pub open spec fn folder_path_key() -> Seq<char> {
    "folder_path"@
}

/// The catalog: file records keyed by path, and settings as name/value pairs.
/// Access from several threads goes through one lock around the whole store.
pub struct Database {
    files: Vec<FileInfo>,
    settings: Vec<(String, String)>,
}

proof fn lemma_unique_index(s: Seq<FileRecord>, p: Seq<char>, i: int)
    requires
        paths_unique(s),
        0 <= i < s.len(),
        s[i].file_path == p,
    ensures
        has_path(s, p),
        index_of_path(s, p) == i,
        record_at(s, p) == Some(s[i]),
{
}

proof fn lemma_unique_key_index(s: Seq<(Seq<char>, Seq<char>)>, k: Seq<char>, i: int)
    requires
        keys_unique(s),
        0 <= i < s.len(),
        s[i].0 == k,
    ensures
        has_key(s, k),
        index_of_key(s, k) == i,
{
}

proof fn lemma_upsert_keeps_unique(s: Seq<FileRecord>, r: FileRecord)
    requires
        paths_unique(s),
    ensures
        paths_unique(upsert(s, r)),
        has_path(upsert(s, r), r.file_path),
{
    if has_path(s, r.file_path) {
        let i = index_of_path(s, r.file_path);
        assert(upsert(s, r)[i].file_path == r.file_path);
    } else {
        assert(upsert(s, r)[s.len() as int].file_path == r.file_path);
    }
}

/// Upserting the same record twice leaves the store as upserting it once:
/// the second write overwrites, it does not duplicate.
pub proof fn lemma_upsert_twice(s: Seq<FileRecord>, r: FileRecord)
    requires
        paths_unique(s),
    ensures
        upsert(upsert(s, r), r) == upsert(s, r),
        upsert(upsert(s, r), r).len() == upsert(s, r).len(),
{
    let t = upsert(s, r);
    lemma_upsert_keeps_unique(s, r);
    let i = if has_path(s, r.file_path) { index_of_path(s, r.file_path) } else { s.len() as int };
    assert(t[i].file_path == r.file_path);
    lemma_unique_index(t, r.file_path, i);
    assert(upsert(t, r) =~= t);
}

/// The last record of `rs` with path `p`, if any.
pub open spec fn last_with_path(rs: Seq<FileRecord>, p: Seq<char>) -> Option<FileRecord>
    decreases rs.len(),
{
    if rs.len() == 0 {
        None
    } else if rs.last().file_path == p {
        Some(rs.last())
    } else {
        last_with_path(rs.drop_last(), p)
    }
}

/// Each record of `t` whose path occurs in `rs` takes the fields of the last
/// such record of `rs`, keeping its own id.
pub open spec fn overwrite(t: Seq<FileRecord>, rs: Seq<FileRecord>) -> Seq<FileRecord> {
    Seq::new(
        t.len(),
        |j: int|
            match last_with_path(rs, t[j].file_path) {
                Some(r) => FileRecord { id: t[j].id, ..r },
                None => t[j],
            },
    )
}

proof fn lemma_last_with_path_matches(rs: Seq<FileRecord>, p: Seq<char>)
    ensures
        last_with_path(rs, p) matches Some(r) ==> r.file_path == p,
    decreases rs.len(),
{
    if rs.len() > 0 && rs.last().file_path != p {
        lemma_last_with_path_matches(rs.drop_last(), p);
    }
}

proof fn lemma_overwrite_paths(t: Seq<FileRecord>, rs: Seq<FileRecord>)
    requires
        paths_unique(t),
    ensures
        paths_unique(overwrite(t, rs)),
        forall|j: int| 0 <= j < t.len() ==> (#[trigger] overwrite(t, rs)[j]).file_path == t[j].file_path
            && overwrite(t, rs)[j].id == t[j].id,
{
    assert forall|j: int| 0 <= j < t.len() implies (#[trigger] overwrite(t, rs)[j]).file_path
        == t[j].file_path && overwrite(t, rs)[j].id == t[j].id by {
        lemma_last_with_path_matches(rs, t[j].file_path);
    }
}

proof fn lemma_upsert_keeps_others(s: Seq<FileRecord>, r: FileRecord, i: int)
    requires
        paths_unique(s),
        0 <= i < s.len(),
        s[i].file_path != r.file_path,
    ensures
        upsert(s, r)[i] == s[i],
{
}

proof fn lemma_upsert_all_effect(s: Seq<FileRecord>, rs: Seq<FileRecord>)
    requires
        paths_unique(s),
    ensures
        paths_unique(upsert_all(s, rs)),
        forall|p: Seq<char>| #[trigger] last_with_path(rs, p) is Some ==> has_path(upsert_all(s, rs), p),
        forall|i: int| 0 <= i < upsert_all(s, rs).len() ==>
            (#[trigger] last_with_path(rs, upsert_all(s, rs)[i].file_path) matches Some(r) ==>
            upsert_all(s, rs)[i] == FileRecord { id: upsert_all(s, rs)[i].id, ..r }),
    decreases rs.len(),
{
    if rs.len() > 0 {
        let pre = rs.drop_last();
        let x = rs.last();
        let t0 = upsert_all(s, pre);
        let t = upsert(t0, x);
        lemma_upsert_all_effect(s, pre);
        lemma_upsert_keeps_unique(t0, x);
        assert forall|p: Seq<char>| #[trigger] last_with_path(rs, p) is Some implies has_path(t, p) by {
            if p != x.file_path {
                assert(last_with_path(pre, p) is Some);
                let i = choose|i: int| 0 <= i < t0.len() && t0[i].file_path == p;
                lemma_upsert_keeps_others(t0, x, i);
                assert(t[i].file_path == p);
            }
        }
        assert forall|i: int| 0 <= i < t.len() implies (#[trigger] last_with_path(rs, t[i].file_path)
            matches Some(r) ==> t[i] == FileRecord { id: t[i].id, ..r }) by {
            if t[i].file_path != x.file_path {
                if i < t0.len() {
                    lemma_upsert_keeps_others(t0, x, i);
                }
                if i >= t0.len() {
                    assert(t[i].file_path == x.file_path);
                }
                assert(last_with_path(rs, t[i].file_path) == last_with_path(pre, t0[i].file_path));
            } else {
                let k = if has_path(t0, x.file_path) {
                    index_of_path(t0, x.file_path)
                } else {
                    t0.len() as int
                };
                assert(t[k].file_path == x.file_path);
                assert(i == k);
                assert(last_with_path(rs, t[i].file_path) == Some(x));
            }
        }
    }
}

proof fn lemma_upsert_all_present(t: Seq<FileRecord>, rs: Seq<FileRecord>)
    requires
        paths_unique(t),
        forall|p: Seq<char>| #[trigger] last_with_path(rs, p) is Some ==> has_path(t, p),
    ensures
        upsert_all(t, rs) == overwrite(t, rs),
    decreases rs.len(),
{
    if rs.len() > 0 {
        let pre = rs.drop_last();
        let x = rs.last();
        assert forall|p: Seq<char>| #[trigger] last_with_path(pre, p) is Some implies has_path(t, p) by {
            if p != x.file_path {
                assert(last_with_path(rs, p) == last_with_path(pre, p));
            } else {
                assert(last_with_path(rs, p) is Some);
            }
        }
        lemma_upsert_all_present(t, pre);
        let o = overwrite(t, pre);
        lemma_overwrite_paths(t, pre);
        assert(last_with_path(rs, x.file_path) is Some);
        let k = choose|k: int| 0 <= k < t.len() && t[k].file_path == x.file_path;
        assert(o[k].file_path == x.file_path);
        assert(paths_unique(o));
        lemma_unique_index(o, x.file_path, k);
        assert forall|j: int| 0 <= j < t.len() implies upsert(o, x)[j] == overwrite(t, rs)[j] by {
            if j != k {
                assert(t[j].file_path != x.file_path);
                assert(last_with_path(rs, t[j].file_path) == last_with_path(pre, t[j].file_path));
            } else {
                assert(last_with_path(rs, t[j].file_path) == Some(x));
            }
        }
        assert(upsert(o, x) =~= overwrite(t, rs));
    }
}

/// Upserting the records of a scan a second time changes nothing: the
/// store after two identical scans is the store after one.
pub proof fn lemma_rescan_idempotent(s: Seq<FileRecord>, rs: Seq<FileRecord>)
    requires
        paths_unique(s),
    ensures
        upsert_all(upsert_all(s, rs), rs) == upsert_all(s, rs),
{
    let f = upsert_all(s, rs);
    lemma_upsert_all_effect(s, rs);
    lemma_upsert_all_present(f, rs);
    assert(overwrite(f, rs) =~= f);
}

/// Field updates on a path with no record change nothing.
pub proof fn lemma_unknown_path_updates(s: Seq<FileRecord>, p: Seq<char>, v: Seq<char>)
    requires
        !has_path(s, p),
    ensures
        with_note(s, p, v) == s,
        with_age_group(s, p, v) == s,
        with_thumbnail(s, p, v) == s,
        record_at(s, p) is None,
{
}

impl Database {
    /// The stored records, in the order their paths first came in.
    pub closed spec fn records(&self) -> Seq<FileRecord> {
        views(self.files@)
    }

    /// The stored settings as name/value pairs.
    pub closed spec fn setting_pairs(&self) -> Seq<(Seq<char>, Seq<char>)> {
        self.settings@.map_values(|p: (String, String)| (p.0@, p.1@))
    }

    /// Paths and setting names are unique, and ids follow insertion order.
    pub open spec fn wf(&self) -> bool {
        &&& paths_unique(self.records())
        &&& ids_in_order(self.records())
        &&& keys_unique(self.setting_pairs())
        &&& self.records().len() <= i64::MAX
    }

    /// The record stored under `p`, if any.
    pub open spec fn record(&self, p: Seq<char>) -> Option<FileRecord> {
        record_at(self.records(), p)
    }

    /// The value of setting `k`, if set.
    pub open spec fn setting(&self, k: Seq<char>) -> Option<Seq<char>> {
        setting_at(self.setting_pairs(), k)
    }

    /// An empty catalog.
    pub fn new() -> (r: Database)
        ensures
            r.wf(),
            r.records() == Seq::<FileRecord>::empty(),
            r.setting_pairs() == Seq::<(Seq<char>, Seq<char>)>::empty(),
    {
        let r = Database { files: Vec::new(), settings: Vec::new() };
        proof {
            assert(r.records() =~= Seq::<FileRecord>::empty());
            assert(r.setting_pairs() =~= Seq::<(Seq<char>, Seq<char>)>::empty());
        }
        r
    }

    fn position_of(&self, file_path: &str) -> (r: Option<usize>)
        requires
            self.wf(),
        ensures
            r matches Some(i) ==> i < self.records().len() && self.records()[i as int].file_path
                == file_path@ && index_of_path(self.records(), file_path@) == i,
            r is None ==> !has_path(self.records(), file_path@),
    {
        let key = String::from_str(file_path);
        let mut i: usize = 0;
        while i < self.files.len()
            invariant
                i <= self.files@.len(),
                key@ == file_path@,
                self.wf(),
                forall|j: int| 0 <= j < i ==> self.records()[j].file_path != file_path@,
            decreases self.files@.len() - i,
        {
            if self.files[i].file_path == key {
                proof {
                    lemma_unique_index(self.records(), file_path@, i as int);
                }
                return Some(i);
            }
            i = i + 1;
        }
        None
    }

    /// Stores `file` under its path: a new path gets the next id, a known
    /// path keeps its id and place and takes every other field. Returns the id.
    pub fn save_file(&mut self, file: &FileInfo) -> (r: i64)
        requires
            old(self).wf(),
            old(self).records().len() < i64::MAX,
        ensures
            final(self).wf(),
            final(self).records() == upsert(old(self).records(), file@),
            final(self).setting_pairs() == old(self).setting_pairs(),
            final(self).record(file@.file_path) matches Some(rec) && rec.id == Some(r),
    {
        let mut rec = file.duplicate();
        let ghost s = self.records();
        match self.position_of(file.file_path.as_str()) {
            Some(i) => {
                rec.id = self.files[i].id;
                let id = i as i64 + 1;
                self.files.set(i, rec);
                proof {
                    assert(self.records() =~= upsert(s, file@));
                    lemma_unique_index(self.records(), file@.file_path, i as int);
                }
                id
            },
            None => {
                let id = self.files.len() as i64 + 1;
                rec.id = Some(id);
                self.files.push(rec);
                proof {
                    assert(self.records() =~= upsert(s, file@));
                    lemma_unique_index(self.records(), file@.file_path, s.len() as int);
                }
                id
            },
        }
    }

    /// The record stored under `file_path`, or `None` where there is none.
    pub fn get_file(&self, file_path: &str) -> (r: Option<FileInfo>)
        requires
            self.wf(),
        ensures
            r matches Some(f) ==> self.record(file_path@) == Some(f@),
            r is None ==> self.record(file_path@) is None,
    {
        match self.position_of(file_path) {
            Some(i) => Some(self.files[i].duplicate()),
            None => None,
        }
    }

    /// Every record, newest first by `created_at`.
    pub fn get_all_files(&self) -> (r: Vec<FileInfo>)
        requires
            self.wf(),
        ensures
            views(r@).to_multiset() == self.records().to_multiset(),
            newest_first(views(r@)),
    {
        let mut out: Vec<FileInfo> = Vec::new();
        let mut i: usize = 0;
        proof {
            assert(views(out@) =~= Seq::<FileRecord>::empty());
            assert(self.records().subrange(0, 0) =~= Seq::<FileRecord>::empty());
        }
        while i < self.files.len()
            invariant
                i <= self.files@.len(),
                views(out@).to_multiset() == self.records().subrange(0, i as int).to_multiset(),
                newest_first(views(out@)),
            decreases self.files@.len() - i,
        {
            let f = self.files[i].duplicate();
            let mut pos: usize = 0;
            while pos < out.len() && out[pos].created_at >= f.created_at
                invariant
                    pos <= out@.len(),
                    forall|j: int| 0 <= j < pos ==> out@[j].created_at >= f.created_at,
                    i < self.files@.len(),
                    f@ == self.records()[i as int],
                    views(out@).to_multiset() == self.records().subrange(0, i as int).to_multiset(),
                    newest_first(views(out@)),
                decreases out@.len() - pos,
            {
                pos = pos + 1;
            }
            let ghost before = views(out@);
            let ghost fr = f@;
            out.insert(pos, f);
            proof {
                let now = views(out@);
                let rs = self.records();
                assert(now =~= before.insert(pos as int, fr));
                assert(pos < before.len() ==> before[pos as int].created_at < fr.created_at);
                assert forall|a: int, b: int| 0 <= a < b < now.len() implies now[a].created_at
                    >= now[b].created_at by {
                    if b < pos {
                        assert(now[a] == before[a] && now[b] == before[b]);
                    } else if b == pos {
                        assert(now[a] == before[a] && now[b] == fr);
                    } else if a < pos {
                        assert(now[a] == before[a] && now[b] == before[b - 1]);
                        assert(before[b - 1].created_at <= before[pos as int].created_at);
                    } else if a == pos {
                        assert(now[a] == fr && now[b] == before[b - 1]);
                        assert(before[b - 1].created_at <= before[pos as int].created_at);
                    } else {
                        assert(now[a] == before[a - 1] && now[b] == before[b - 1]);
                    }
                }
                vstd::seq_lib::to_multiset_insert(before, pos as int, fr);
                assert(rs.subrange(0, i + 1) =~= rs.subrange(0, i as int).push(rs[i as int]));
                vstd::seq_lib::to_multiset_build(rs.subrange(0, i as int), rs[i as int]);
            }
            i = i + 1;
        }
        proof {
            assert(self.records().subrange(0, self.files@.len() as int) =~= self.records());
        }
        out
    }

    /// Replaces the age label of the record under `file_path`; no change where
    /// there is none.
    pub fn update_file_age_group(&mut self, file_path: &str, age_group: &str)
        requires
            old(self).wf(),
        ensures
            final(self).wf(),
            final(self).records() == with_age_group(old(self).records(), file_path@, age_group@),
            final(self).setting_pairs() == old(self).setting_pairs(),
    {
        if let Some(i) = self.position_of(file_path) {
            let mut rec = self.files[i].duplicate();
            rec.age_group = String::from_str(age_group);
            let ghost s = self.records();
            self.files.set(i, rec);
            proof {
                assert(self.records() =~= with_age_group(s, file_path@, age_group@));
            }
        }
    }

    /// Replaces the note of the record under `file_path`; no change where there is none.
    pub fn save_note(&mut self, file_path: &str, note: &str)
        requires
            old(self).wf(),
        ensures
            final(self).wf(),
            final(self).records() == with_note(old(self).records(), file_path@, note@),
            final(self).setting_pairs() == old(self).setting_pairs(),
    {
        if let Some(i) = self.position_of(file_path) {
            let mut rec = self.files[i].duplicate();
            rec.note = Some(String::from_str(note));
            let ghost s = self.records();
            self.files.set(i, rec);
            proof {
                assert(self.records() =~= with_note(s, file_path@, note@));
            }
        }
    }

    /// Sets the thumbnail of the record under `file_path`; no change where there is none.
    pub fn set_thumbnail(&mut self, file_path: &str, thumbnail_path: &str)
        requires
            old(self).wf(),
        ensures
            final(self).wf(),
            final(self).records() == with_thumbnail(old(self).records(), file_path@, thumbnail_path@),
            final(self).setting_pairs() == old(self).setting_pairs(),
    {
        if let Some(i) = self.position_of(file_path) {
            let mut rec = self.files[i].duplicate();
            rec.thumbnail_path = Some(String::from_str(thumbnail_path));
            let ghost s = self.records();
            self.files.set(i, rec);
            proof {
                assert(self.records() =~= with_thumbnail(s, file_path@, thumbnail_path@));
            }
        }
    }

    fn key_position(&self, key: &str) -> (r: Option<usize>)
        requires
            self.wf(),
        ensures
            r matches Some(i) ==> i < self.setting_pairs().len() && self.setting_pairs()[i as int].0
                == key@ && index_of_key(self.setting_pairs(), key@) == i,
            r is None ==> !has_key(self.setting_pairs(), key@),
    {
        let k = String::from_str(key);
        let mut i: usize = 0;
        while i < self.settings.len()
            invariant
                i <= self.settings@.len(),
                k@ == key@,
                self.wf(),
                forall|j: int| 0 <= j < i ==> self.setting_pairs()[j].0 != key@,
            decreases self.settings@.len() - i,
        {
            if self.settings[i].0 == k {
                proof {
                    lemma_unique_key_index(self.setting_pairs(), key@, i as int);
                }
                return Some(i);
            }
            i = i + 1;
        }
        None
    }

    /// Stores `value` under setting `key`, replacing an earlier value.
    pub fn save_setting(&mut self, key: &str, value: &str)
        requires
            old(self).wf(),
        ensures
            final(self).wf(),
            final(self).records() == old(self).records(),
            final(self).setting(key@) == Some(value@),
            forall|k: Seq<char>| k != key@ ==> final(self).setting(k) == old(self).setting(k),
    {
        let pair = (String::from_str(key), String::from_str(value));
        let ghost s = self.setting_pairs();
        match self.key_position(key) {
            Some(i) => {
                self.settings.set(i, pair);
                proof {
                    assert(self.setting_pairs() =~= s.update(i as int, (key@, value@)));
                    lemma_unique_key_index(self.setting_pairs(), key@, i as int);
                    assert forall|k: Seq<char>| k != key@ implies self.setting(k) == setting_at(s, k) by {
                        if has_key(s, k) {
                            lemma_unique_key_index(self.setting_pairs(), k, index_of_key(s, k));
                        }
                        if has_key(self.setting_pairs(), k) {
                            lemma_unique_key_index(s, k, index_of_key(self.setting_pairs(), k));
                        }
                    }
                }
            },
            None => {
                self.settings.push(pair);
                proof {
                    assert(self.setting_pairs() =~= s.push((key@, value@)));
                    lemma_unique_key_index(self.setting_pairs(), key@, s.len() as int);
                    assert forall|k: Seq<char>| k != key@ implies self.setting(k) == setting_at(s, k) by {
                        if has_key(s, k) {
                            lemma_unique_key_index(self.setting_pairs(), k, index_of_key(s, k));
                        }
                        if has_key(self.setting_pairs(), k) {
                            lemma_unique_key_index(s, k, index_of_key(self.setting_pairs(), k));
                        }
                    }
                }
            },
        }
    }

    /// The value of setting `key`; `None` where it was never saved.
    pub fn get_setting(&self, key: &str) -> (r: Option<String>)
        requires
            self.wf(),
        ensures
            opt_text(r) == self.setting(key@),
    {
        match self.key_position(key) {
            Some(i) => {
                proof {
                    lemma_unique_key_index(self.setting_pairs(), key@, i as int);
                }
                Some(self.settings[i].1.clone())
            },
            None => None,
        }
    }

    /// Both settings of the application.
    pub fn get_all_settings(&self) -> (r: Settings)
        requires
            self.wf(),
        ensures
            opt_text(r.baby_birth_date) == self.setting(birth_date_key()),
            opt_text(r.folder_path) == self.setting(folder_path_key()),
    {
        Settings {
            baby_birth_date: self.get_setting("baby_birth_date"),
            folder_path: self.get_setting("folder_path"),
        }
    }
}

} // verus!
