use sound_manager::catalog::create_schema;
use sound_manager::filter::Filter;
use sound_manager::folder::ROOT_FOLDER_ID;
use sound_manager::model::DatabaseData;
use sound_manager::scan::FsListing;
use sound_manager::store::open_store_in_memory;
use sound_manager::watcher::{FileEvent, PathKind, WatchOutcome};

fn mkpath(s: &str) -> Vec<String> {
    s.split('/').map(|x| x.to_string()).collect()
}

fn bootstrap_listing() -> FsListing {
    FsListing {
        dirs: vec![
            mkpath("folder1"),
            mkpath("folder2"),
            mkpath("folder1/folder1-1"),
            mkpath("folder1/folder1-2"),
        ],
        files: vec![
            mkpath("wave_audio_1.wav"),
            mkpath("flac_audio_1.flac"),
            mkpath("mp3_audio_1.mp3"),
            mkpath("ogg_audio_1.ogg"),
            mkpath("folder1/wave_audio_2.wav"),
            mkpath("folder1/folder1-1/flac_audio_2.flac"),
            mkpath("folder1/folder1-2/mp3_audio_2.mp3"),
            mkpath("folder2/ogg_audio_2.ogg"),
        ],
    }
}

fn setup_catalog() -> (DatabaseData, rusqlite::Connection) {
    let conn = open_store_in_memory().unwrap();
    create_schema(&conn).unwrap();
    let mut data = DatabaseData::new_empty(String::from("test_database"));
    data.scan(&bootstrap_listing(), &conn).unwrap();
    (data, conn)
}

#[test]
fn test_get_entries() {
    let (data, _db) = setup_catalog();

    assert_eq!(data.entry_count(), 8);

    let expected = [
        "wave_audio_1.wav",
        "flac_audio_1.flac",
        "mp3_audio_1.mp3",
        "ogg_audio_1.ogg",
        "folder1/wave_audio_2.wav",
        "folder1/folder1-1/flac_audio_2.flac",
        "folder1/folder1-2/mp3_audio_2.mp3",
        "folder2/ogg_audio_2.ogg",
    ];
    for path in expected {
        let id = data.get_entry_id(&mkpath(path)).unwrap();
        let entry = data.get_entry(id).unwrap();
        assert_eq!(entry.file_name, mkpath(path).last().unwrap().clone());
        assert_eq!(entry.path, mkpath(path));
    }
}

#[test]
fn test_get_folders() {
    let (data, _db) = setup_catalog();

    let root = data.get_folder(ROOT_FOLDER_ID).unwrap();
    assert_eq!(root.name, "test_database");
    assert_eq!(root.id, ROOT_FOLDER_ID);
    assert_eq!(root.parent_id, ROOT_FOLDER_ID);
    assert_eq!(root.path.len(), 0);
    assert_eq!(root.sub_folders.len(), 2);
    assert_eq!(root.entries.len(), 4);

    let folder1_id = data.get_folder_by_path(&mkpath("folder1")).unwrap();
    let folder1 = data.get_folder(folder1_id).unwrap();
    assert_eq!(folder1.name, "folder1");
    assert_eq!(folder1.parent_id, ROOT_FOLDER_ID);
    assert_eq!(folder1.path, mkpath("folder1"));
    assert_eq!(folder1.sub_folders.len(), 2);
    assert_eq!(folder1.entries.len(), 1);

    let folder1_1_id = data.get_folder_by_path(&mkpath("folder1/folder1-1")).unwrap();
    let folder1_1 = data.get_folder(folder1_1_id).unwrap();
    assert_eq!(folder1_1.name, "folder1-1");
    assert_eq!(folder1_1.parent_id, folder1.id);
    assert_eq!(folder1_1.path, mkpath("folder1/folder1-1"));
    assert_eq!(folder1_1.sub_folders.len(), 0);
    assert_eq!(folder1_1.entries.len(), 1);

    let folder1_2_id = data.get_folder_by_path(&mkpath("folder1/folder1-2")).unwrap();
    let folder1_2 = data.get_folder(folder1_2_id).unwrap();
    assert_eq!(folder1_2.name, "folder1-2");
    assert_eq!(folder1_2.parent_id, folder1.id);
    assert_eq!(folder1_2.path, mkpath("folder1/folder1-2"));
    assert_eq!(folder1_2.sub_folders.len(), 0);
    assert_eq!(folder1_2.entries.len(), 1);

    let folder2_id = data.get_folder_by_path(&mkpath("folder2")).unwrap();
    let folder2 = data.get_folder(folder2_id).unwrap();
    assert_eq!(folder2.name, "folder2");
    assert_eq!(folder2.parent_id, ROOT_FOLDER_ID);
    assert_eq!(folder2.path, mkpath("folder2"));
    assert_eq!(folder2.sub_folders.len(), 0);
    assert_eq!(folder2.entries.len(), 1);
}

#[test]
fn test_rescan_after_changes() {
    let (mut data, db) = setup_catalog();

    // A second scan of the same tree changes nothing.
    data.scan(&bootstrap_listing(), &db).unwrap();
    assert_eq!(data.entry_count(), 8);

    // A scan that no longer shows one folder drops it with its entry.
    let mut listing = bootstrap_listing();
    listing.dirs.retain(|d| d != &mkpath("folder2"));
    listing.files.retain(|f| f != &mkpath("folder2/ogg_audio_2.ogg"));
    data.scan(&listing, &db).unwrap();
    assert_eq!(data.entry_count(), 7);
    assert!(data.get_folder_by_path(&mkpath("folder2")).is_none());

    // Scanning the full tree again restores it from the store.
    data.scan(&bootstrap_listing(), &db).unwrap();
    assert_eq!(data.entry_count(), 8);
    assert!(data.get_entry_id(&mkpath("folder2/ogg_audio_2.ogg")).is_some());
}

#[test]
fn test_file_watcher_create_single_file() {
    let (mut data, db) = setup_catalog();

    let new_file_path = mkpath("new_mp3_audio.mp3");
    let outcome = data
        .handle_file_event(&FileEvent::FileCreated { path: new_file_path.clone() }, &db)
        .unwrap();
    assert!(matches!(outcome, WatchOutcome::Changed));

    assert_eq!(data.entry_count(), 9);
    let new_entry = data.get_entry(data.get_entry_id(&new_file_path).unwrap()).unwrap();
    assert_eq!(new_entry.path, new_file_path);
    assert_eq!(new_entry.folder_id, ROOT_FOLDER_ID);
}

#[test]
fn test_file_watcher_create_single_file_in_subfolder() {
    let (mut data, db) = setup_catalog();

    let new_file_path = mkpath("folder1/new_flac_audio.flac");
    data.handle_file_event(&FileEvent::FileCreated { path: new_file_path.clone() }, &db).unwrap();

    assert_eq!(data.entry_count(), 9);
    let new_entry = data.get_entry(data.get_entry_id(&new_file_path).unwrap()).unwrap();
    assert_eq!(new_entry.path, new_file_path);
    assert_eq!(
        new_entry.folder_id,
        data.get_folder_by_path(&mkpath("folder1")).unwrap()
    );
}

#[test]
fn test_file_watcher_create_multiple_files() {
    let (mut data, db) = setup_catalog();

    let p1 = mkpath("new_mp3_audio.mp3");
    let p2 = mkpath("folder1/new_flac_audio.flac");
    let p3 = mkpath("folder1/folder1-1/new_wave_audio.wav");
    for p in [&p1, &p2, &p3] {
        data.handle_file_event(&FileEvent::FileCreated { path: p.clone() }, &db).unwrap();
    }

    assert_eq!(data.entry_count(), 11);
    let e1 = data.get_entry(data.get_entry_id(&p1).unwrap()).unwrap();
    assert_eq!(e1.path, p1);
    assert_eq!(e1.folder_id, ROOT_FOLDER_ID);
    let e2 = data.get_entry(data.get_entry_id(&p2).unwrap()).unwrap();
    assert_eq!(e2.path, p2);
    assert_eq!(e2.folder_id, data.get_folder_by_path(&mkpath("folder1")).unwrap());
    let e3 = data.get_entry(data.get_entry_id(&p3).unwrap()).unwrap();
    assert_eq!(e3.path, p3);
    assert_eq!(e3.folder_id, data.get_folder_by_path(&mkpath("folder1/folder1-1")).unwrap());
}

#[test]
fn test_file_watcher_delete_single_file() {
    let (mut data, db) = setup_catalog();

    let file_path = mkpath("wave_audio_1.wav");
    data.handle_file_event(&FileEvent::FileRemoved { path: file_path.clone() }, &db).unwrap();

    assert_eq!(data.entry_count(), 7);
    assert!(data.get_entry_id(&file_path).is_none());
}

#[test]
fn test_file_watcher_delete_single_file_in_subfolder() {
    let (mut data, db) = setup_catalog();

    let file_path = mkpath("folder1/folder1-1/flac_audio_2.flac");
    data.handle_file_event(&FileEvent::FileRemoved { path: file_path.clone() }, &db).unwrap();

    assert_eq!(data.entry_count(), 7);
    assert!(data.get_entry_id(&file_path).is_none());
}

#[test]
fn test_file_watcher_delete_multiple_files() {
    let (mut data, db) = setup_catalog();

    let p1 = mkpath("wave_audio_1.wav");
    let p2 = mkpath("folder1/wave_audio_2.wav");
    let p3 = mkpath("folder1/folder1-2/mp3_audio_2.mp3");
    for p in [&p1, &p2, &p3] {
        data.handle_file_event(&FileEvent::FileRemoved { path: p.clone() }, &db).unwrap();
    }

    assert_eq!(data.entry_count(), 5);
    assert!(data.get_entry_id(&p1).is_none());
    assert!(data.get_entry_id(&p2).is_none());
    assert!(data.get_entry_id(&p3).is_none());
}

#[test]
fn test_file_watcher_move_in_single_file() {
    let (mut data, db) = setup_catalog();

    let new_file_path = mkpath("new_mp3_audio.mp3");
    data.handle_file_event(
        &FileEvent::Updated { path: new_file_path.clone(), kind: PathKind::File },
        &db,
    )
    .unwrap();

    assert_eq!(data.entry_count(), 9);
    let new_entry = data.get_entry(data.get_entry_id(&new_file_path).unwrap()).unwrap();
    assert_eq!(new_entry.path, new_file_path);
    assert_eq!(new_entry.folder_id, ROOT_FOLDER_ID);
}

#[test]
fn test_file_watcher_move_in_single_file_in_subfolder() {
    let (mut data, db) = setup_catalog();

    let new_file_path = mkpath("folder1/new_flac_audio.flac");
    data.handle_file_event(
        &FileEvent::Updated { path: new_file_path.clone(), kind: PathKind::File },
        &db,
    )
    .unwrap();

    assert_eq!(data.entry_count(), 9);
    let new_entry = data.get_entry(data.get_entry_id(&new_file_path).unwrap()).unwrap();
    assert_eq!(new_entry.path, new_file_path);
    assert_eq!(
        new_entry.folder_id,
        data.get_folder_by_path(&mkpath("folder1")).unwrap()
    );
}

#[test]
fn test_file_watcher_move_out_single_file() {
    let (mut data, db) = setup_catalog();

    let file_path = mkpath("wave_audio_1.wav");
    data.handle_file_event(
        &FileEvent::Updated { path: file_path.clone(), kind: PathKind::Missing },
        &db,
    )
    .unwrap();

    assert_eq!(data.entry_count(), 7);
    assert!(data.get_entry_id(&file_path).is_none());
}

#[test]
fn test_file_watcher_rename_file() {
    let (mut data, db) = setup_catalog();

    let old_path = mkpath("mp3_audio_1.mp3");
    let new_path = mkpath("folder1/folder1-1/mp3_audio_1.mp3");
    let old_id = data.get_entry_id(&old_path).unwrap();
    data.handle_file_event(
        &FileEvent::Renamed {
            old_path: old_path.clone(),
            new_path: new_path.clone(),
            new_kind: PathKind::File,
        },
        &db,
    )
    .unwrap();

    assert_eq!(data.entry_count(), 8);
    let moved = data.get_entry(data.get_entry_id(&new_path).unwrap()).unwrap();
    assert_eq!(moved.id, old_id);
    assert_eq!(moved.path, new_path);
    assert_eq!(
        moved.folder_id,
        data.get_folder_by_path(&mkpath("folder1/folder1-1")).unwrap()
    );
    assert!(data.get_entry_id(&old_path).is_none());
}

#[test]
fn test_filter_tags_and_folder() {
    let (mut data, db) = setup_catalog();

    let e1 = data.get_entry_id(&mkpath("wave_audio_1.wav")).unwrap();
    let e2 = data.get_entry_id(&mkpath("folder1/wave_audio_2.wav")).unwrap();
    let e3 = data.get_entry_id(&mkpath("folder2/ogg_audio_2.ogg")).unwrap();

    let tag_a = data.new_tag(String::from("A"), &db).unwrap();
    let tag_b = data.new_tag(String::from("B"), &db).unwrap();
    data.add_tag_for_entry(e1, tag_a, &db).unwrap();
    data.add_tag_for_entry(e2, tag_a, &db).unwrap();
    data.add_tag_for_entry(e2, tag_b, &db).unwrap();
    data.add_tag_for_entry(e3, tag_b, &db).unwrap();

    // The tag criterion is a union across the listed tags.
    let got = data
        .filter(&Filter {
            search: String::new(),
            tag_ids: vec![tag_a, tag_b],
            include_child_tags: false,
            folder_id: None,
            include_subfolders: false,
        })
        .unwrap();
    let mut got = got;
    got.sort();
    let mut expected = vec![e1, e2, e3];
    expected.sort();
    assert_eq!(got, expected);

    // The criteria compose by conjunction.
    let root_of_e1 = ROOT_FOLDER_ID;
    let got = data
        .filter(&Filter {
            search: String::new(),
            tag_ids: vec![tag_a],
            include_child_tags: false,
            folder_id: Some(root_of_e1),
            include_subfolders: false,
        })
        .unwrap();
    assert_eq!(got, vec![e1]);
}

#[test]
fn test_filter_empty_means_no_filter() {
    let (data, _db) = setup_catalog();

    assert!(data
        .filter(&Filter {
            search: String::new(),
            tag_ids: vec![],
            include_child_tags: false,
            folder_id: None,
            include_subfolders: false,
        })
        .is_none());

    // The root folder with subfolders included needs no filtering either.
    assert!(data
        .filter(&Filter {
            search: String::new(),
            tag_ids: vec![],
            include_child_tags: true,
            folder_id: Some(ROOT_FOLDER_ID),
            include_subfolders: true,
        })
        .is_none());
}

#[test]
fn test_filter_search_is_case_insensitive() {
    let (data, _db) = setup_catalog();

    let got = data
        .filter(&Filter {
            search: String::from("WAVE_AUDIO"),
            tag_ids: vec![],
            include_child_tags: false,
            folder_id: None,
            include_subfolders: false,
        })
        .unwrap();
    assert_eq!(got.len(), 2);
    for id in got {
        let entry = data.get_entry(id).unwrap();
        assert!(entry.file_name.contains("wave_audio"));
    }
}

#[test]
fn test_filter_child_tags_and_subfolders() {
    let (mut data, db) = setup_catalog();

    let e_sub = data.get_entry_id(&mkpath("folder1/folder1-1/flac_audio_2.flac")).unwrap();
    let e_mid = data.get_entry_id(&mkpath("folder1/wave_audio_2.wav")).unwrap();

    let parent_tag = data.new_tag(String::from("parent"), &db).unwrap();
    let child_tag = data.new_tag(String::from("child"), &db).unwrap();
    data.reorder_tag(child_tag, parent_tag, -1, &db).unwrap();
    data.add_tag_for_entry(e_sub, child_tag, &db).unwrap();

    // With child tags included, the parent tag finds the child's entry.
    let got = data
        .filter(&Filter {
            search: String::new(),
            tag_ids: vec![parent_tag],
            include_child_tags: true,
            folder_id: None,
            include_subfolders: false,
        })
        .unwrap();
    assert_eq!(got, vec![e_sub]);

    // Without the flag it does not.
    let got = data
        .filter(&Filter {
            search: String::new(),
            tag_ids: vec![parent_tag],
            include_child_tags: false,
            folder_id: None,
            include_subfolders: false,
        })
        .unwrap();
    assert_eq!(got.len(), 0);

    // The folder criterion with subfolders spans the subtree.
    let folder1 = data.get_folder_by_path(&mkpath("folder1")).unwrap();
    let mut got = data
        .filter(&Filter {
            search: String::new(),
            tag_ids: vec![],
            include_child_tags: false,
            folder_id: Some(folder1),
            include_subfolders: true,
        })
        .unwrap();
    got.sort();
    let e_mid2 = data.get_entry_id(&mkpath("folder1/folder1-2/mp3_audio_2.mp3")).unwrap();
    let mut expected = vec![e_sub, e_mid, e_mid2];
    expected.sort();
    assert_eq!(got, expected);
}

#[test]
fn test_import_then_delete_restores_shape() {
    let (mut data, db) = setup_catalog();

    // An import registers the file under the root folder, as the file
    // operations do after copying into the base directory.
    let imported = mkpath("imported.wav");
    let id = data.add_entry_path(&imported, None, &db).unwrap().unwrap();
    assert_eq!(data.entry_count(), 9);
    let root = data.get_folder(ROOT_FOLDER_ID).unwrap();
    assert_eq!(root.entries.len(), 5);

    // Deleting it returns the catalog to its prior shape.
    data.remove_entry_with_store(id, &db).unwrap();
    assert_eq!(data.entry_count(), 8);
    let root = data.get_folder(ROOT_FOLDER_ID).unwrap();
    assert_eq!(root.entries.len(), 4);
    assert!(data.get_entry_id(&imported).is_none());
}

#[test]
fn test_move_folder() {
    let (mut data, db) = setup_catalog();

    let folder1_1 = data.get_folder_by_path(&mkpath("folder1/folder1-1")).unwrap();
    let folder2 = data.get_folder_by_path(&mkpath("folder2")).unwrap();

    data.move_folder(folder1_1, folder2, &db).unwrap();

    // The folder and its entry moved; ids are preserved.
    assert!(data.get_folder_by_path(&mkpath("folder1/folder1-1")).is_none());
    assert_eq!(data.get_folder_by_path(&mkpath("folder2/folder1-1")), Some(folder1_1));
    let entry_id = data.get_entry_id(&mkpath("folder2/folder1-1/flac_audio_2.flac")).unwrap();
    let entry = data.get_entry(entry_id).unwrap();
    assert_eq!(entry.folder_id, folder1_1);
    assert_eq!(entry.path, mkpath("folder2/folder1-1/flac_audio_2.flac"));
    assert!(data.get_entry_id(&mkpath("folder1/folder1-1/flac_audio_2.flac")).is_none());
    assert_eq!(data.entry_count(), 8);

    // A move under the folder's own subtree is refused and changes
    // nothing.
    let folder1 = data.get_folder_by_path(&mkpath("folder1")).unwrap();
    let folder1_2 = data.get_folder_by_path(&mkpath("folder1/folder1-2")).unwrap();
    assert!(data.move_folder(folder1, folder1_2, &db).is_err());
    assert_eq!(data.get_folder_by_path(&mkpath("folder1")), Some(folder1));
    assert_eq!(data.get_folder_by_path(&mkpath("folder1/folder1-2")), Some(folder1_2));
}

#[test]
fn test_watcher_folder_rename_keeps_ids() {
    let (mut data, db) = setup_catalog();

    let folder1_1 = data.get_folder_by_path(&mkpath("folder1/folder1-1")).unwrap();
    let outcome = data
        .handle_file_event(
            &FileEvent::Renamed {
                old_path: mkpath("folder1/folder1-1"),
                new_path: mkpath("folder2/folder1-1"),
                new_kind: PathKind::Dir,
            },
            &db,
        )
        .unwrap();
    assert!(matches!(outcome, WatchOutcome::Changed));
    assert_eq!(data.get_folder_by_path(&mkpath("folder2/folder1-1")), Some(folder1_1));
    assert!(data.get_entry_id(&mkpath("folder2/folder1-1/flac_audio_2.flac")).is_some());
}

#[test]
fn test_reorder_round_trip() {
    let (mut data, db) = setup_catalog();

    let mut tag_ids = [0i32; 5];
    for (i, tag_id) in tag_ids.iter_mut().enumerate() {
        *tag_id = data.new_tag(format!("rt{i}"), &db).unwrap();
    }
    let before = data.children_of_tag(sound_manager::tag::ROOT_TAG_ID);

    // There and back again: the original parent and position restore the
    // original tree.
    data.reorder_tag(tag_ids[3], tag_ids[0], -1, &db).unwrap();
    data.reorder_tag(tag_ids[3], sound_manager::tag::ROOT_TAG_ID, 3, &db).unwrap();

    let after = data.children_of_tag(sound_manager::tag::ROOT_TAG_ID);
    assert_eq!(before, after);
    assert_eq!(data.children_of_tag(tag_ids[0]).len(), 0);
}

#[test]
fn test_rename_last_write_wins() {
    let (mut data_a, db_a) = setup_catalog();
    let (mut data_b, db_b) = setup_catalog();

    let t_a = data_a.new_tag(String::from("start"), &db_a).unwrap();
    let t_b = data_b.new_tag(String::from("start"), &db_b).unwrap();

    // Renaming twice ends exactly where the single second rename ends.
    data_a.rename_tag(t_a, String::from("middle"), &db_a).unwrap();
    data_a.rename_tag(t_a, String::from("last"), &db_a).unwrap();
    data_b.rename_tag(t_b, String::from("last"), &db_b).unwrap();

    assert_eq!(data_a.get_tag(t_a).unwrap().name, "last");
    assert_eq!(data_b.get_tag(t_b).unwrap().name, "last");
    assert_eq!(
        data_a.get_tag(t_a).unwrap().position,
        data_b.get_tag(t_b).unwrap().position
    );
}

#[test]
fn test_entry_tags_round_trip() {
    let (mut data, db) = setup_catalog();

    let e1 = data.get_entry_id(&mkpath("wave_audio_1.wav")).unwrap();
    let tag = data.new_tag(String::from("keeper"), &db).unwrap();
    let before: Vec<i32> = data.get_tags_for_entry(e1).iter().map(|t| t.id).collect();

    data.add_tag_for_entry(e1, tag, &db).unwrap();
    assert_eq!(
        data.get_tags_for_entry(e1).iter().map(|t| t.id).collect::<Vec<i32>>(),
        vec![tag]
    );
    data.remove_tag_for_entry(e1, tag, &db).unwrap();
    let after: Vec<i32> = data.get_tags_for_entry(e1).iter().map(|t| t.id).collect();
    assert_eq!(before, after);

    // A duplicate association is refused with its own error kind.
    data.add_tag_for_entry(e1, tag, &db).unwrap();
    match data.add_tag_for_entry(e1, tag, &db) {
        Err(sound_manager::Error::TagAlreadyExistsForEntry(t, e)) => {
            assert_eq!(t, tag);
            assert_eq!(e, e1);
        }
        other => panic!("expected TagAlreadyExistsForEntry, got {:?}", other.is_ok()),
    }
    // An unknown tag is refused too.
    match data.add_tag_for_entry(e1, 424242, &db) {
        Err(sound_manager::Error::TagNotFound(t)) => assert_eq!(t, 424242),
        other => panic!("expected TagNotFound, got {:?}", other.is_ok()),
    }
}
