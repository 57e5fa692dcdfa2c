use std::path::Path;
use botonera_engine::library::browse::{
    browse, browse_query, count, page, relative_pattern, BrowseCursor, BrowseDirection,
};
use botonera_engine::library::browse_window::browse_window;
use botonera_engine::library::catalog_tree::{escape_like, folder_children, folder_pattern, normalize};
use botonera_engine::library::file_name::{check_free, destination, destination_panics, temporary_name};
use botonera_engine::library::metadata::clean_text;
use botonera_engine::library::metadata_query::split_tags;
use botonera_engine::library::metadata_store::validate_paths;
use botonera_engine::library::path::{
    file_name_chars, parent_chars, path_starts_with, strip_prefix_chars,
};
use botonera_engine::library::root_path::clean_windows_prefix;

fn chars(s: &str) -> Vec<char> {
    s.chars().collect()
}

fn text(v: &[char]) -> String {
    v.iter().collect()
}

#[test]
fn normalizes_native_separators() {
    assert_eq!(normalize(r"Rock\Clásicos\"), "Rock/Clásicos");
}

#[test]
fn keeps_directory_and_extension() {
    let result = destination("C:/audio/risa.mp3", "Risa con aplausos.mp3").unwrap();
    assert_eq!(result, "C:/audio/Risa con aplausos.mp3");
}

#[test]
fn rejects_reserved_invalid_and_extension_changes() {
    let source = "C:/audio/risa.mp3";
    for name in ["CON.mp3", "mala?.mp3", "../otra.mp3", "risa.wav"] {
        assert!(destination(source, name).is_err(), "{name}");
    }
}

#[test]
fn blank_tags_do_not_pollute_the_search_index() {
    assert_eq!(clean_text(Some("  Titulo  ")).as_deref(), Some("Titulo"));
    assert_eq!(clean_text(Some("   ")), None);
    assert_eq!(clean_text(None), None);
}

#[test]
fn rename_errors_name_the_failed_check() {
    let source = "/music/risa.mp3";
    assert_eq!(destination(source, "   ").unwrap_err(), "library_rename_invalid_name");
    assert_eq!(destination(source, "..").unwrap_err(), "library_rename_invalid_name");
    assert_eq!(destination(source, "otra.mp3.").unwrap_err(), "library_rename_invalid_name");
    assert_eq!(destination(source, "lpt3.mp3").unwrap_err(), "library_rename_invalid_name");
    assert_eq!(destination(source, "tab\t.mp3").unwrap_err(), "library_rename_invalid_name");
    let long = format!("{}.mp3", "é".repeat(126));
    assert_eq!(destination(source, &long).unwrap_err(), "library_rename_invalid_name");
    assert_eq!(destination(source, " risa.mp3 ").unwrap_err(), "library_rename_unchanged");
    assert_eq!(destination(source, "risa").unwrap_err(), "library_rename_extension_changed");
    assert_eq!(destination("/", "nueva.mp3").unwrap_err(), "library_rename_invalid_source");
    assert_eq!(destination(source, "  nueva.mp3 ").unwrap(), "/music/nueva.mp3");
    assert_eq!(destination("risa.mp3", "COM10.mp3").unwrap(), "COM10.mp3");
}

#[test]
fn device_name_check_that_would_panic_is_reported() {
    assert!(destination_panics("coé.mp3"));
    assert!(!destination_panics("com1.mp3"));
    assert!(!destination_panics("coé?.mp3"));
}

#[test]
fn path_parts_follow_std_path() {
    let p = chars("/music/rock/song.MP3");
    assert_eq!(text(&file_name_chars(&p).unwrap()), "song.MP3");
    assert_eq!(text(&parent_chars(&p)), "/music/rock");
    assert!(file_name_chars(&chars("/music/..")).is_none());
    assert_eq!(text(&file_name_chars(&chars("a/foo.txt/.")).unwrap()), "foo.txt");
    assert!(path_starts_with(&p, &chars("/music")));
    assert!(!path_starts_with(&p, &chars("/mus")));
    assert_eq!(
        text(&strip_prefix_chars(&p, &chars("/music/")).unwrap()),
        "rock/song.MP3"
    );
    assert!(strip_prefix_chars(&p, &chars("music")).is_none());
}

#[test]
fn folder_children_are_sorted_unique_direct_folders() {
    let paths = vec![
        "Rock/Zeta/a.mp3".to_string(),
        "Rock/Alfa/b.mp3".to_string(),
        "Rock/Zeta/c.mp3".to_string(),
        "Rock/suelto.mp3".to_string(),
        "Rock//vacio.mp3".to_string(),
        "Jazz/x.mp3".to_string(),
        "rock/Otra/c.mp3".to_string(),
    ];
    let folders = folder_children("\\Rock\\", &paths);
    let names: Vec<&str> = folders.iter().map(|f| f.name.as_str()).collect();
    assert_eq!(names, ["Alfa", "Zeta"]);
    assert_eq!(folders[0].relative_path, "Rock/Alfa");
    let top = folder_children("", &paths);
    let names: Vec<&str> = top.iter().map(|f| f.name.as_str()).collect();
    assert_eq!(names, ["Jazz", "Rock", "rock"]);
    assert_eq!(top[1].relative_path, "Rock");
}

#[test]
fn like_patterns_escape_wildcards() {
    assert_eq!(escape_like(r"a_b%c\d"), r"a\_b\%c\\d");
    assert_eq!(folder_pattern("/Rock_1/"), r"Rock\_1/%");
    assert_eq!(folder_pattern(""), "%");
    assert_eq!(relative_pattern(r"\50%\"), r"50\%/%");
    assert_eq!(relative_pattern("//"), "");
}

#[test]
fn direction_and_collection_are_checked() {
    assert_eq!(BrowseDirection::parse("forward").unwrap(), BrowseDirection::Forward);
    assert_eq!(BrowseDirection::parse("backward").unwrap(), BrowseDirection::Backward);
    assert_eq!(
        BrowseDirection::parse("sideways").unwrap_err(),
        "invalid_library_browse_direction"
    );
    assert_eq!(
        count(Some("podcasts"), None, None).err().unwrap(),
        "invalid_library_collection"
    );
    assert_eq!(
        browse(Some("podcasts"), None, None, 10, None, "up").err().unwrap(),
        "invalid_library_browse_direction"
    );
    let scope = count(None, Some(7), Some("Rock")).ok().unwrap();
    assert_eq!(scope.collection, "");
    assert_eq!(scope.root_id, 7);
    assert_eq!(scope.pattern, "Rock/%");
    let all = count(Some("music"), None, None).ok().unwrap();
    assert_eq!(all.root_id, -1);
    assert_eq!(all.pattern, "");
}

#[test]
fn page_query_clamps_limit_and_keeps_cursor() {
    let cursor = BrowseCursor { file_name: "Pista".into(), path_key: "k".into() };
    let q = browse_query(Some("effects"), None, None, 0, Some(&cursor), BrowseDirection::Forward)
        .ok()
        .unwrap();
    assert_eq!(q.limit, 1);
    assert_eq!(q.cursor.unwrap().file_name, "Pista");
    let q = browse(None, None, None, 9000, None, "backward").ok().unwrap();
    assert_eq!(q.limit, 500);
    assert_eq!(q.direction, BrowseDirection::Backward);
    assert!(q.cursor.is_none());
}

fn rows(n: usize) -> Vec<(BrowseCursor, usize)> {
    (0..n)
        .map(|i| {
            (
                BrowseCursor { file_name: format!("Pista {i:03}"), path_key: format!("k{i}") },
                i,
            )
        })
        .collect()
}

#[test]
fn pages_keep_limit_and_report_more() {
    let p = page(rows(4), 3, BrowseDirection::Forward);
    assert_eq!(p.items, vec![0, 1, 2]);
    assert!(p.has_more);
    assert_eq!(p.previous_cursor.unwrap().path_key, "k0");
    assert_eq!(p.next_cursor.unwrap().path_key, "k2");
    let back = page(rows(4), 3, BrowseDirection::Backward);
    assert_eq!(back.items, vec![2, 1, 0]);
    assert_eq!(back.previous_cursor.unwrap().path_key, "k2");
    let last = page(rows(2), 3, BrowseDirection::Forward);
    assert!(!last.has_more);
    assert_eq!(last.items, vec![0, 1]);
    let empty = page(rows(0), 3, BrowseDirection::Forward);
    assert!(empty.items.is_empty() && empty.previous_cursor.is_none() && empty.next_cursor.is_none());
}

#[test]
fn window_stays_inside_the_scope() {
    let scope = count(Some("music"), Some(1), None).ok().unwrap();
    let w = browse_window(scope, 400, 175, 80);
    assert_eq!((w.offset, w.limit), (175, 80));
    let scope = count(Some("music"), Some(1), None).ok().unwrap();
    let w = browse_window(scope, 400, 390, 80);
    assert_eq!(w.offset, 320);
    let scope = count(None, None, None).ok().unwrap();
    let w = browse_window(scope, 10, 5, 0);
    assert_eq!((w.offset, w.limit), (5, 1));
    let scope = count(None, None, None).ok().unwrap();
    let w = browse_window(scope, 3, 2, 50);
    assert_eq!(w.offset, 0);
}

#[test]
fn stored_tags_split_on_unit_separator() {
    assert_eq!(split_tags("rock\u{1f}\u{1f}pop\u{1f}"), vec!["rock", "pop"]);
    assert!(split_tags("").is_empty());
}

#[test]
fn metadata_selection_is_bounded() {
    assert_eq!(validate_paths(&vec![]).unwrap_err(), "invalid_library_metadata_selection");
    assert!(validate_paths(&vec!["a".into(); 500]).is_ok());
    assert!(validate_paths(&vec!["a".into(); 501]).is_err());
}

#[test]
fn verbatim_prefix_is_removed() {
    assert_eq!(clean_windows_prefix(r"\\?\UNC\srv\share"), r"\\srv\share");
    assert_eq!(clean_windows_prefix(r"\\?\C:\musica"), r"C:\musica");
    assert_eq!(clean_windows_prefix("/home/musica"), "/home/musica");
}

#[test]
fn paths_read_as_std_path_reads_them() {
    let samples = [
        "a/foo.txt/.", "a//b", "a/b/", "/a", "/", "", ".", "./a", "./a/", "/.", "//a//b/./",
        "a/./b", "..", "a/..", "./", ".x/y", "C:/audio/risa.mp3", "/./a/.", "a/.b", "x",
    ];
    for s in samples {
        let p = Path::new(s);
        let mine = file_name_chars(&chars(s)).map(|v| text(&v));
        let theirs = p.file_name().map(|n| n.to_string_lossy().to_string());
        assert_eq!(mine, theirs, "file name of {s:?}");
        if theirs.is_some() {
            let parent = p.parent().unwrap().to_string_lossy().to_string();
            assert_eq!(text(&parent_chars(&chars(s))), parent, "parent of {s:?}");
        }
        for base in samples {
            let starts = Path::new(s).starts_with(Path::new(base));
            assert_eq!(path_starts_with(&chars(s), &chars(base)), starts, "{s:?} starts with {base:?}");
            let stripped = p
                .strip_prefix(Path::new(base))
                .ok()
                .map(|r| r.to_string_lossy().to_string());
            let mine = strip_prefix_chars(&chars(s), &chars(base)).map(|v| text(&v));
            assert_eq!(mine, stripped, "{s:?} without {base:?}");
        }
    }
}

#[test]
fn a_taken_target_refuses_the_rename() {
    assert_eq!(check_free("/m/b.mp3".into(), false, false).unwrap(), "/m/b.mp3");
    assert_eq!(check_free("/m/B.mp3".into(), true, true).unwrap(), "/m/B.mp3");
    assert_eq!(
        check_free("/m/b.mp3".into(), true, false).unwrap_err(),
        "library_rename_destination_exists"
    );
    assert_eq!(temporary_name(42, 7), ".lf-rename-42-7.tmp");
}
