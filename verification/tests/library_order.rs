use botonera_engine::library::catalog_store::metadata_state_after;
use botonera_engine::library::embedded_tag_edit::{
    edit_for, parse_u32, verify_value, ItemField, TagEdit, TagField,
};
use botonera_engine::library::filesystem::{sort_entries, FileSystemEntry};
use botonera_engine::library::indexer::enrichment_processed;
use botonera_engine::library::metadata_batch::{recommended_from, worker_count};
use botonera_engine::library::monitor::{worker_step, Burst, MonitorInput, WorkerStep};
use botonera_engine::library::path_store::{catalog_name, key_move, renamed_relative};
use botonera_engine::library::root_merge::merge_prefix;
use botonera_engine::library::search::{prefix_patterns, search_plan, top_results, CandidateQuery, Scored};
use botonera_engine::library::catalog_store::KnownFile;
use botonera_engine::library::index_discovery::DiscoveryState;
use botonera_engine::library::incremental::{SeenKeys, UpdateReport};

fn entry(name: &str, dir: bool) -> FileSystemEntry {
    FileSystemEntry { path: format!("/x/{name}"), name: name.to_string(), is_directory: dir }
}

#[test]
fn listings_put_folders_first_then_names_ignoring_case() {
    let sorted = sort_entries(vec![
        entry("b.mp3", false),
        entry("Zeta", true),
        entry("A.mp3", false),
        entry("alfa", true),
        entry("a.mp3", false),
    ]);
    let names: Vec<&str> = sorted.iter().map(|e| e.name.as_str()).collect();
    assert_eq!(names, ["alfa", "Zeta", "A.mp3", "a.mp3", "b.mp3"]);
    assert!(sort_entries(vec![]).is_empty());
}

#[test]
fn search_plans_follow_the_text_length() {
    let p = search_plan("", None, 0).ok().unwrap();
    assert_eq!((p.query, p.limit, p.fetch), (CandidateQuery::Browse, 1, 1));
    let p = search_plan("ab", Some("music"), 20).ok().unwrap();
    assert_eq!(
        p.query,
        CandidateQuery::Prefix { first: "a%".into(), tag_prefix: "ab%".into() }
    );
    assert_eq!(p.fetch, 5000);
    let p = search_plan("abc", Some("effects"), 900).ok().unwrap();
    assert_eq!((p.query, p.limit), (CandidateQuery::FullText, 500));
    assert_eq!(search_plan("abc", Some("x"), 9).err().unwrap(), "invalid_library_collection");
    assert_eq!(prefix_patterns(""), (String::new(), "%".to_string()));
}

fn scored(score: i64, name: &str, path: &str, item: u32) -> Scored<u32> {
    Scored { score, file_name: name.into(), path: path.into(), item }
}

#[test]
fn results_rank_by_score_then_name_then_path() {
    let r = top_results(
        vec![
            scored(1, "b", "/1", 0),
            scored(5, "z", "/2", 1),
            scored(1, "a", "/3", 2),
            scored(1, "a", "/0", 3),
            scored(1, "a", "/0", 4),
        ],
        4,
    );
    assert_eq!(r, vec![1, 3, 4, 2]);
    assert!(top_results(Vec::<Scored<u32>>::new(), 3).is_empty());
}

#[test]
fn tag_edits_follow_the_field() {
    assert_eq!(edit_for("title", "Hola").unwrap(), TagEdit::SetText(TagField::Title, "Hola".into()));
    assert_eq!(edit_for("genre", "").unwrap(), TagEdit::Remove(TagField::Genre));
    assert_eq!(edit_for("year", "+1999").unwrap(), TagEdit::SetNumber(TagField::Year, 1999));
    assert_eq!(edit_for("track_number", "").unwrap(), TagEdit::Remove(TagField::TrackNumber));
    assert_eq!(edit_for("year", "19x9").unwrap_err(), "library_metadata_write_failed");
    assert_eq!(
        edit_for("composer", "Bach").unwrap(),
        TagEdit::ReplaceItem(ItemField::Composer, "Bach".into())
    );
    assert_eq!(edit_for("category", "x").unwrap(), TagEdit::Ignore);
    assert_eq!(parse_u32("4294967295"), Some(u32::MAX));
    assert_eq!(parse_u32("4294967296"), None);
    assert_eq!(parse_u32("+"), None);
    assert_eq!(parse_u32("-1"), None);
    assert!(verify_value(Some("Hola"), "Hola").is_ok());
    assert!(verify_value(None, "").is_ok());
    assert_eq!(verify_value(Some("x"), "").unwrap_err(), "library_metadata_write_verify_failed");
    assert!(verify_value(None, "Hola").is_err());
}

#[test]
fn renamed_tracks_keep_their_folder_in_the_catalog() {
    assert_eq!(catalog_name("/m/nuevo.mp3").unwrap(), "nuevo.mp3");
    assert_eq!(catalog_name("/").unwrap_err(), "library_rename_invalid_name");
    assert_eq!(renamed_relative("Rock/viejo.mp3", "nuevo.mp3"), "Rock/nuevo.mp3");
    assert_eq!(renamed_relative("viejo.mp3", "nuevo.mp3"), "nuevo.mp3");
    assert_eq!(key_move(true, false).unwrap(), true);
    assert_eq!(key_move(false, true).unwrap(), false);
    assert_eq!(key_move(false, false).unwrap_err(), "library_track_not_found");
    assert_eq!(key_move(true, true).unwrap_err(), "library_rename_destination_exists");
    assert_eq!(merge_prefix("/m/fx/loops", "/m").unwrap(), "fx/loops/");
    assert_eq!(merge_prefix("/otro", "/m").unwrap_err(), "library_root_merge_path");
}

#[test]
fn indexing_counts_and_states() {
    assert_eq!(metadata_state_after(None), "failed");
    assert_eq!(metadata_state_after(Some(true)), "complete");
    assert_eq!(metadata_state_after(Some(false)), "partial");
    assert_eq!(enrichment_processed(10, 0, 1200), 510);
    assert_eq!(enrichment_processed(10, 2, 1200), 1210);
    assert_eq!(worker_count(0, 3), 1);
    assert_eq!(worker_count(8, 3), 3);
    assert_eq!(recommended_from(None), 2);
    assert_eq!(recommended_from(Some(16)), 4);
    assert_eq!(recommended_from(Some(0)), 1);
}

#[test]
fn watcher_messages_gather_into_bursts() {
    assert!(matches!(worker_step(MonitorInput::Stop), WorkerStep::Exit));
    assert!(matches!(worker_step(MonitorInput::Failed), WorkerStep::Reconcile));
    assert!(matches!(worker_step(MonitorInput::Accessed), WorkerStep::Idle));
    let mut burst = Burst::new(vec!["/a".into()]);
    assert!(burst.step(MonitorInput::Changed(vec!["/b".into()])));
    assert!(burst.step(MonitorInput::Accessed));
    assert!(burst.step(MonitorInput::ReconcileAll));
    assert!(!burst.step(MonitorInput::Quiet));
    assert_eq!(burst.paths, vec!["/a".to_string(), "/b".to_string()]);
    assert!(burst.reconcile && !burst.stop);
    let mut ended = Burst::new(vec![]);
    assert!(!ended.step(MonitorInput::Closed));
    assert!(ended.stop);
}

#[test]
fn discovery_batches_files_and_collects_pending_metadata() {
    let mut state = DiscoveryState::new();
    let known = KnownFile { mtime: 3, size: 4, metadata_state: Some("complete".into()) };
    assert!(!state.record("/m", "k1".into(), "/m/a/uno.MP3".into(), None, None));
    assert!(!state.record("/m", "k2".into(), "/m/dos.wav".into(), Some(&known), Some((3, 4))));
    assert!(!state.record("/m", "k3".into(), "/m/tres.wav".into(), Some(&known), None));
    assert_eq!(state.pending, vec![("k1".to_string(), "/m/a/uno.MP3".to_string())]);
    assert_eq!(state.metadata_errors, 1);
    let first = &state.batch[0];
    assert_eq!(
        (first.relative_path.as_str(), first.file_name.as_str(), first.extension.as_str()),
        ("a/uno.MP3", "uno.MP3", "mp3")
    );
    assert!(first.content_changed && first.needs_metadata);
    assert!(!state.batch[1].content_changed && !state.batch[1].needs_metadata);
    assert_eq!(state.written(), 3);
    assert!(state.batch.is_empty());
    for n in 0..499 {
        assert!(!state.record("/m", format!("x{n}"), format!("/m/{n}.mp3"), None, None));
    }
    assert!(state.record("/m", "last".into(), "/m/last.mp3".into(), None, None));
}

#[test]
fn burst_keys_are_handled_once() {
    let mut seen = SeenKeys::new();
    assert!(seen.insert("/a"));
    assert!(!seen.insert("/a"));
    assert!(seen.insert("/b"));
    let mut report = UpdateReport::default();
    report.record_update(true);
    report.record_update(false);
    report.record_removed(3);
    assert_eq!((report.updated, report.failed, report.removed), (2, 1, 3));
}
