use botonera_engine::library::catalog_store::{CatalogInput, KnownFile};
use botonera_engine::library::embedded_tags::{embeddable, prepare, PendingTagWrite, TagWriteJournal};
use botonera_engine::library::file_rename::{public_error, recover_pending_at, Recovery};
use botonera_engine::library::filesystem::{storage_name, storage_roots};
use botonera_engine::library::incremental::{path_step, PathStep, UpdateReport};
use botonera_engine::library::index_discovery::{
    exclusion_paths, existing_stamp, needs_metadata, path_fields, validate,
};
use botonera_engine::library::indexer::{discovery_work, pending_total, report, searchable};
use botonera_engine::library::rename_journal::path_at;
use botonera_engine::library::root_purge::{deletable, PurgeReport};
use botonera_engine::library::root_retention::{
    overlapping, purge_after, set_retention_days, RetiredRoot, DAY_SECONDS,
};
use botonera_engine::library::root_store::{get, retired_conflict, LibraryRoot};
use botonera_engine::library::scanner::enters;

fn root(id: i64, path: &str, enabled: bool) -> LibraryRoot {
    LibraryRoot {
        id,
        path: path.to_string(),
        path_key: path.to_lowercase(),
        collection: "music".into(),
        enabled,
        state: "ready".into(),
        scan_generation: 1,
        last_scan_at: None,
    }
}

fn retired(id: i64, key: &str) -> RetiredRoot {
    RetiredRoot {
        id,
        path: key.to_string(),
        path_key: key.to_string(),
        collection: "music".into(),
        retired_at: 1,
        purge_after: 2,
    }
}

#[test]
fn retention_is_limited_to_thirty_through_365_days() {
    assert_eq!(
        set_retention_days(29).err().unwrap(),
        "library_retention_days_out_of_range"
    );
    assert_eq!(set_retention_days(365).ok().unwrap().retention_days, 365);
    assert!(set_retention_days(366).is_err());
}

#[test]
fn retirement_deadline_adds_whole_days_and_saturates() {
    assert_eq!(purge_after(1_000, 30), 1_000 + 30 * DAY_SECONDS);
    assert_eq!(purge_after(i64::MAX - 5, 30), i64::MAX);
}

#[test]
fn overlapping_retired_roots_are_found_either_way() {
    let list = vec![retired(1, "/a/b"), retired(2, "/c")];
    assert_eq!(overlapping(&list, "/a").unwrap().id, 1);
    assert_eq!(overlapping(&list, "/a/b/c").unwrap().id, 1);
    assert_eq!(overlapping(&list, "/c").unwrap().id, 2);
    assert!(overlapping(&list, "/ab").is_none());
    assert_eq!(retired_conflict(Some(&list[1]), "/c").unwrap(), Some(2));
    assert_eq!(
        retired_conflict(Some(&list[0]), "/a").unwrap_err(),
        "library_root_overlaps_retired"
    );
    assert_eq!(retired_conflict(None, "/a").unwrap(), None);
}

#[test]
fn purge_keeps_protected_track_records() {
    let paths = vec!["a".to_string(), "b".to_string(), "c".to_string()];
    let protected = vec!["b".to_string()];
    let kept = deletable(&paths, &protected);
    assert_eq!(kept, vec!["a".to_string(), "c".to_string()]);
    let mut report = PurgeReport::default();
    report.record(paths.len(), kept.len(), 2);
    assert_eq!(
        (report.roots, report.catalog_tracks, report.deleted_track_meta, report.protected_track_meta),
        (1, 3, 2, 1)
    );
}

#[test]
fn tag_writes_need_embedded_fields_and_a_writable_format() {
    assert!(embeddable("album_artist"));
    assert!(!embeddable("category"));
    let fields = vec!["category".to_string()];
    assert!(prepare("/m/a.mp3", &fields, 7).unwrap().is_none());
    let fields = vec!["category".to_string(), "title".to_string()];
    assert_eq!(
        prepare("/m/a.WMA", &fields, 7).err().unwrap(),
        "library_metadata_write_unsupported"
    );
    assert_eq!(
        prepare("/m/sin_extension", &fields, 7).err().unwrap(),
        "library_metadata_write_unsupported"
    );
    let plan = prepare("/m/tema.uno.flac", &fields, 42).unwrap().unwrap();
    assert_eq!(plan.staged, "/m/.tema.uno.lf-tags-staged-42.flac");
    assert_eq!(plan.backup, "/m/.tema.uno.lf-tags-backup-42.flac");
    let pending = PendingTagWrite {
        journal: TagWriteJournal {
            source: "s".into(),
            staged: "t".into(),
            backup: "b".into(),
            committed: false,
        },
        data_dir: "/d".into(),
    };
    let marked = pending.mark_committed();
    assert!(marked.committed);
    assert_eq!(marked.backup, "b");
}

#[test]
fn rename_recovery_follows_the_files() {
    assert_eq!(recover_pending_at(false, true, true, false).unwrap(), Recovery::Nothing);
    assert_eq!(recover_pending_at(true, true, false, false).unwrap(), Recovery::Complete);
    assert_eq!(recover_pending_at(true, true, true, true).unwrap(), Recovery::Complete);
    assert_eq!(recover_pending_at(true, false, true, false).unwrap(), Recovery::Revert);
    assert_eq!(
        recover_pending_at(true, true, true, false).unwrap_err(),
        "library_rename_recovery_failed"
    );
    assert_eq!(
        recover_pending_at(true, false, false, false).unwrap_err(),
        "library_rename_recovery_failed"
    );
    assert_eq!(public_error("library_rename_locked"), "library_rename_locked");
    assert_eq!(public_error("disk full"), "library_rename_failed");
    assert_eq!(path_at("/datos"), "/datos/.rename-transaction.json");
    assert_eq!(path_at("/datos/"), "/datos/.rename-transaction.json");
}

#[test]
fn catalog_fields_come_from_the_path() {
    let (rel, name, ext) = path_fields("/music", "/music/Rock/Tema.MP3");
    assert_eq!((rel.as_str(), name.as_str(), ext.as_str()), ("Rock/Tema.MP3", "Tema.MP3", "mp3"));
    let (rel, name, ext) = path_fields("/other", "/music/sin");
    assert_eq!((rel.as_str(), name.as_str(), ext.as_str()), ("/music/sin", "sin", ""));
}

#[test]
fn discovery_decides_stamps_and_metadata() {
    let known = KnownFile { mtime: 5, size: 10, metadata_state: Some("complete".into()) };
    assert_eq!(existing_stamp(None, Some((1, 1))), (0, 0, true, false));
    assert_eq!(existing_stamp(Some(&known), Some((5, 10))), (5, 10, false, false));
    assert_eq!(existing_stamp(Some(&known), Some((6, 10))), (6, 10, true, false));
    assert_eq!(existing_stamp(Some(&known), None), (5, 10, false, true));
    assert!(!needs_metadata(false, Some(&known)));
    assert!(needs_metadata(true, Some(&known)));
    assert!(needs_metadata(false, None));
    let pending = KnownFile { mtime: 5, size: 10, metadata_state: Some("pending".into()) };
    assert!(needs_metadata(false, Some(&pending)));
    let input = CatalogInput {
        path_key: "k".into(),
        relative_path: "r".into(),
        file_name: "f".into(),
        extension: "mp3".into(),
        mtime: 1,
        size: 1,
        content_changed: false,
        needs_metadata: true,
    };
    assert!(input.metadata_state_is_new());
    assert!(input.refreshes_search());
}

#[test]
fn roots_are_validated_and_nested_roots_excluded() {
    assert_eq!(validate(&root(1, "/m", false), true).unwrap_err(), "library_root_not_enabled");
    assert_eq!(validate(&root(1, "/m", true), false).unwrap_err(), "library_root_unavailable");
    assert!(validate(&root(1, "/m", true), true).is_ok());
    let roots = vec![root(1, "/m", true), root(2, "/m/fx", true), root(3, "/m/off", false), root(4, "/other", true)];
    assert_eq!(exclusion_paths(&roots, &roots[0]), vec!["/m/fx".to_string()]);
    assert_eq!(get(&roots, 4).unwrap().path, "/other");
    assert!(get(&roots, 9).is_none());
    assert!(!enters("/m/fx/", &vec!["/m/fx".to_string()]));
    assert!(enters("/m/fxx", &vec!["/m/fx".to_string()]));
}

#[test]
fn event_paths_choose_their_step() {
    assert_eq!(path_step(false, false, true, Some(1)), PathStep::Skip);
    assert_eq!(path_step(true, true, false, Some(3)), PathStep::Reconcile(3));
    assert_eq!(path_step(true, true, false, None), PathStep::Skip);
    assert_eq!(path_step(true, false, false, None), PathStep::MarkMissing);
    assert_eq!(path_step(true, false, true, Some(2)), PathStep::Update(2));
    assert_eq!(path_step(true, false, true, None), PathStep::Skip);
    let mut report = UpdateReport::default();
    for id in [5, 2, 5, 9, 2, 1] {
        report.add_reconcile(id);
    }
    assert_eq!(report.reconcile_roots, vec![1, 2, 5, 9]);
}

#[test]
fn sync_reports_count_enriched_files() {
    let work = discovery_work(
        3,
        10,
        vec![("k1".into(), "p1".into()), ("k2".into(), "p2".into())],
        1,
        2,
        1,
    );
    assert_eq!((work.unchanged, work.inaccessible), (8, 3));
    let r = report(&work, 1);
    assert_eq!((r.enriched, r.failed, r.discovered), (1, 1, 10));
    let all = vec![work];
    assert_eq!(searchable(&all), 10);
    assert_eq!(pending_total(&all), 2);
}

#[test]
fn storage_roots_keep_directories_with_names() {
    assert_eq!(storage_name("/"), "/");
    assert_eq!(storage_name("/media/usb"), "usb");
    let roots = storage_roots(&vec![
        ("/".to_string(), true),
        ("/mnt/gone".to_string(), false),
        ("/media/disco".to_string(), true),
    ]);
    let names: Vec<(&str, &str)> = roots.iter().map(|r| (r.path.as_str(), r.name.as_str())).collect();
    assert_eq!(names, [("/", "/"), ("/media/disco", "disco")]);
}
