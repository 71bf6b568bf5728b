use baby_growth::catalog::{CatalogError, Database, FileInfo};
use baby_growth::classify::FileType;
use baby_growth::commands::{
    generate_thumbnail, get_all_files, get_file_info, get_note, get_settings, save_note,
    save_settings, scan_folder, update_file_age_group, ThumbnailOutcome,
};
use baby_growth::scan::{build_record, ScannedFile};
use baby_growth::thumbnail::{thumbnail_file_name, thumbnail_name_for_digest};

fn record(path: &str, created_at: i64) -> FileInfo {
    FileInfo {
        id: None,
        file_path: path.to_string(),
        file_name: path.rsplit('/').next().unwrap().to_string(),
        file_type: FileType::Image,
        created_at,
        modified_at: created_at,
        age_group: "not set".to_string(),
        thumbnail_path: None,
        note: None,
    }
}

fn entry(path: &str, created_at: Option<i64>) -> ScannedFile {
    ScannedFile {
        file_path: path.to_string(),
        file_name: path.rsplit('/').next().unwrap().to_string(),
        created_at,
    }
}

fn walk() -> Vec<ScannedFile> {
    vec![
        entry("/p/a.jpg", Some(1673784000)),
        entry("/p/notes.txt", Some(1673784000)),
        entry("/p/b.MP4", Some(1718452800)),
        entry("/p/c.png", None),
        entry("/p/d.PNG", Some(1676462400)),
    ]
}

#[test]
fn save_file_assigns_ids_in_order() {
    let mut db = Database::new();
    assert_eq!(db.save_file(&record("/a.jpg", 1)), 1);
    assert_eq!(db.save_file(&record("/b.jpg", 2)), 2);
    assert_eq!(db.get_file("/b.jpg").unwrap().id, Some(2));
}

#[test]
fn save_file_overwrites_same_path() {
    let mut db = Database::new();
    db.save_file(&record("/a.jpg", 1));
    db.save_file(&record("/b.jpg", 2));
    let mut again = record("/a.jpg", 50);
    again.id = Some(99);
    assert_eq!(db.save_file(&again), 1);
    assert_eq!(db.get_all_files().len(), 2);
    let a = db.get_file("/a.jpg").unwrap();
    assert_eq!(a.id, Some(1));
    assert_eq!(a.created_at, 50);
}

#[test]
fn get_file_unknown_is_none() {
    let db = Database::new();
    assert!(db.get_file("/nowhere.jpg").is_none());
}

#[test]
fn all_files_newest_first() {
    let mut db = Database::new();
    db.save_file(&record("/a.jpg", 5));
    db.save_file(&record("/b.jpg", 9));
    db.save_file(&record("/c.jpg", 1));
    db.save_file(&record("/d.jpg", 7));
    let paths: Vec<String> = db.get_all_files().into_iter().map(|f| f.file_path).collect();
    assert_eq!(paths, vec!["/b.jpg", "/d.jpg", "/a.jpg", "/c.jpg"]);
}

#[test]
fn all_files_empty_store() {
    let db = Database::new();
    assert!(get_all_files(&db).is_empty());
}

#[test]
fn field_updates_on_known_path() {
    let mut db = Database::new();
    db.save_file(&record("/a.jpg", 5));
    update_file_age_group(&mut db, "/a.jpg", "2 years");
    save_note(&mut db, "/a.jpg", "first steps");
    let a = get_file_info(&db, "/a.jpg").unwrap();
    assert_eq!(a.age_group, "2 years");
    assert_eq!(a.note.as_deref(), Some("first steps"));
    assert_eq!(get_note(&db, "/a.jpg").unwrap().as_deref(), Some("first steps"));
}

#[test]
fn unknown_path_operations() {
    let mut db = Database::new();
    db.save_file(&record("/a.jpg", 5));
    assert_eq!(get_file_info(&db, "/x.jpg").unwrap_err(), CatalogError::NotFound);
    assert_eq!(get_note(&db, "/x.jpg").unwrap_err(), CatalogError::NotFound);
    save_note(&mut db, "/x.jpg", "lost");
    update_file_age_group(&mut db, "/x.jpg", "9 years");
    let all = get_all_files(&db);
    assert_eq!(all.len(), 1);
    assert_eq!(all[0].note, None);
    assert_eq!(all[0].age_group, "not set");
}

#[test]
fn note_absent_until_saved() {
    let mut db = Database::new();
    db.save_file(&record("/a.jpg", 5));
    assert_eq!(get_note(&db, "/a.jpg").unwrap(), None);
}

#[test]
fn settings_round_trip() {
    let mut db = Database::new();
    let s = get_settings(&db);
    assert_eq!(s.baby_birth_date, None);
    assert_eq!(s.folder_path, None);
    save_settings(&mut db, None, Some("/photos".to_string()));
    save_settings(&mut db, Some("2023-01-15".to_string()), None);
    let s = get_settings(&db);
    assert_eq!(s.baby_birth_date.as_deref(), Some("2023-01-15"));
    assert_eq!(s.folder_path.as_deref(), Some("/photos"));
    save_settings(&mut db, Some("2022-05-01".to_string()), None);
    assert_eq!(get_settings(&db).baby_birth_date.as_deref(), Some("2022-05-01"));
    assert_eq!(db.get_setting("folder_path").as_deref(), Some("/photos"));
    assert_eq!(db.get_setting("other"), None);
}

#[test]
fn save_setting_overwrites() {
    let mut db = Database::new();
    db.save_setting("k", "1");
    db.save_setting("k", "2");
    assert_eq!(db.get_setting("k").as_deref(), Some("2"));
}

#[test]
fn scan_missing_root() {
    let mut db = Database::new();
    assert_eq!(scan_folder(&mut db, false, &walk(), &None).unwrap_err(), CatalogError::NotFound);
    assert!(get_all_files(&db).is_empty());
}

#[test]
fn scan_keeps_media_with_timestamps() {
    let mut db = Database::new();
    let files = scan_folder(&mut db, true, &walk(), &Some("2023-01-15".to_string())).unwrap();
    let got: Vec<(&str, FileType, &str)> = files
        .iter()
        .map(|f| (f.file_path.as_str(), f.file_type, f.age_group.as_str()))
        .collect();
    assert_eq!(
        got,
        vec![
            ("/p/a.jpg", FileType::Image, "0 months"),
            ("/p/b.MP4", FileType::Video, "1 years 5 months"),
            ("/p/d.PNG", FileType::Image, "1 months"),
        ]
    );
    assert_eq!(files[1].modified_at, files[1].created_at);
    assert_eq!(get_all_files(&db).len(), 3);
}

#[test]
fn scan_without_birth_date() {
    let mut db = Database::new();
    let files = scan_folder(&mut db, true, &walk(), &None).unwrap();
    assert!(files.iter().all(|f| f.age_group == "not set"));
}

#[test]
fn scan_with_malformed_birth_date() {
    let mut db = Database::new();
    let files = scan_folder(&mut db, true, &walk(), &Some("not-a-date".to_string())).unwrap();
    assert_eq!(files.len(), 3);
    assert!(files.iter().all(|f| f.age_group == "unknown"));
}

#[test]
fn scan_twice_is_idempotent() {
    let mut db = Database::new();
    scan_folder(&mut db, true, &walk(), &None).unwrap();
    save_note(&mut db, "/p/a.jpg", "kept?");
    let first: Vec<(Option<i64>, String)> =
        get_all_files(&db).into_iter().map(|f| (f.id, f.file_path)).collect();
    scan_folder(&mut db, true, &walk(), &None).unwrap();
    let second: Vec<(Option<i64>, String)> =
        get_all_files(&db).into_iter().map(|f| (f.id, f.file_path)).collect();
    assert_eq!(first, second);
    assert_eq!(second.len(), 3);
    assert_eq!(get_note(&db, "/p/a.jpg").unwrap(), None);
}

#[test]
fn build_record_skips_non_media() {
    assert!(build_record(&entry("/p/x.doc", Some(1)), &None).is_none());
    assert!(build_record(&entry("/p/x.jpg", None), &None).is_none());
    let r = build_record(&entry("/p/x.jpg", Some(7)), &None).unwrap();
    assert_eq!(r.file_name, "x.jpg");
    assert_eq!(r.id, None);
}

#[test]
fn thumbnail_name_is_md5_hex() {
    assert_eq!(thumbnail_file_name("/photos/a.jpg"), "92d7b1386dab0acb3268f76b725eaadb.jpg");
    assert_eq!(thumbnail_file_name("/photos/a.jpg"), thumbnail_file_name("/photos/a.jpg"));
    assert_ne!(thumbnail_file_name("/photos/b.jpg"), thumbnail_file_name("/photos/a.jpg"));
}

#[test]
fn thumbnail_name_from_digest() {
    assert_eq!(thumbnail_name_for_digest(&vec![0x00, 0xff, 0x1a]), "00ff1a.jpg");
    assert_eq!(thumbnail_name_for_digest(&vec![]), ".jpg");
}

#[test]
fn thumbnail_outcomes() {
    let mut db = Database::new();
    db.save_file(&record("/a.jpg", 5));
    assert_eq!(
        generate_thumbnail(&mut db, "/a.jpg", ThumbnailOutcome::SourceMissing).unwrap_err(),
        CatalogError::NotFound
    );
    assert_eq!(
        generate_thumbnail(&mut db, "/a.jpg", ThumbnailOutcome::Undecodable).unwrap_err(),
        CatalogError::DecodeError
    );
    assert_eq!(
        generate_thumbnail(&mut db, "/a.jpg", ThumbnailOutcome::WriteFailed).unwrap_err(),
        CatalogError::IoError
    );
    assert_eq!(
        generate_thumbnail(&mut db, "/z.jpg", ThumbnailOutcome::Written("/c/z.jpg".to_string()))
            .unwrap_err(),
        CatalogError::RecordNotFound
    );
    let t = generate_thumbnail(&mut db, "/a.jpg", ThumbnailOutcome::Written("/c/t.jpg".to_string()))
        .unwrap();
    assert_eq!(t, "/c/t.jpg");
    assert_eq!(get_file_info(&db, "/a.jpg").unwrap().thumbnail_path.as_deref(), Some("/c/t.jpg"));
}

#[test]
fn thumbnail_cache_hit_is_a_read() {
    let mut db = Database::new();
    db.save_file(&record("/a.jpg", 5));
    let first =
        generate_thumbnail(&mut db, "/a.jpg", ThumbnailOutcome::Cached("/c/t.jpg".to_string()));
    let second =
        generate_thumbnail(&mut db, "/a.jpg", ThumbnailOutcome::Cached("/c/t.jpg".to_string()));
    assert_eq!(first.unwrap(), "/c/t.jpg");
    assert_eq!(second.unwrap(), "/c/t.jpg");
    assert_eq!(get_file_info(&db, "/a.jpg").unwrap().thumbnail_path, None);
}

#[test]
fn error_messages() {
    assert!(!CatalogError::NotFound.message().is_empty());
    assert_ne!(CatalogError::DecodeError.message(), CatalogError::IoError.message());
}
