use csub::cache::FileCache;
use csub::select::selection_labels;
use csub::probe::StreamInfo;
use csub::probe::StreamTags;

#[test]
fn cache_starts_empty() {
    let cache = FileCache::default();
    assert!(cache.input_file.is_none());
    assert!(cache.output_folder.is_none());
    assert!(cache.get_input_file_folder().is_none());
}

#[test]
fn get_input_file_caches_the_first_choice() {
    let mut cache = FileCache::default();
    let first = cache.get_input_file(Some("/films/movie.mkv".to_string()));
    assert_eq!(first.as_deref(), Some("/films/movie.mkv"));
    // a cached file wins over any later choice
    let second = cache.get_input_file(Some("/films/other.mkv".to_string()));
    assert_eq!(second.as_deref(), Some("/films/movie.mkv"));
}

#[test]
fn get_input_file_without_choice() {
    let mut cache = FileCache::default();
    assert!(cache.get_input_file(None).is_none());
}

#[test]
fn request_input_file_replaces_the_cache() {
    let mut cache = FileCache::default();
    cache.get_input_file(Some("/films/movie.mkv".to_string()));
    let replaced = cache.request_input_file(Some("/films/other.mkv".to_string()));
    assert_eq!(replaced.as_deref(), Some("/films/other.mkv"));
    assert_eq!(cache.input_file.as_deref(), Some("/films/other.mkv"));
}

#[test]
fn input_file_folder_is_the_parent() {
    let mut cache = FileCache::default();
    cache.get_input_file(Some("/films/classics/movie.mkv".to_string()));
    assert_eq!(cache.get_input_file_folder().as_deref(), Some("/films/classics"));
}

#[test]
fn input_file_folder_handles_backslashes() {
    let mut cache = FileCache::default();
    cache.get_input_file(Some("C:\\films\\movie.mkv".to_string()));
    assert_eq!(cache.get_input_file_folder().as_deref(), Some("C:\\films"));
}

#[test]
fn bare_file_name_has_the_empty_folder() {
    let mut cache = FileCache::default();
    cache.get_input_file(Some("movie.mkv".to_string()));
    assert_eq!(cache.get_input_file_folder().as_deref(), Some(""));
}

#[test]
fn file_under_root_keeps_the_root() {
    let mut cache = FileCache::default();
    cache.get_input_file(Some("/movie.mkv".to_string()));
    assert_eq!(cache.get_input_file_folder().as_deref(), Some("/"));
}

#[test]
fn bare_root_has_no_folder() {
    let mut cache = FileCache::default();
    cache.get_input_file(Some("/".to_string()));
    assert!(cache.get_input_file_folder().is_none());
    let mut empty = FileCache::default();
    empty.get_input_file(Some("".to_string()));
    assert!(empty.get_input_file_folder().is_none());
}

#[test]
fn trailing_separators_do_not_make_a_component() {
    let mut cache = FileCache::default();
    cache.get_input_file(Some("/films/classics/".to_string()));
    assert_eq!(cache.get_input_file_folder().as_deref(), Some("/films"));
    let mut plain = FileCache::default();
    plain.get_input_file(Some("movie/".to_string()));
    assert_eq!(plain.get_input_file_folder().as_deref(), Some(""));
}

#[test]
fn get_output_folder_caches_the_first_choice() {
    let mut cache = FileCache::default();
    let first = cache.get_output_folder(Some("/out".to_string()));
    assert_eq!(first.as_deref(), Some("/out"));
    let second = cache.get_output_folder(Some("/elsewhere".to_string()));
    assert_eq!(second.as_deref(), Some("/out"));
    let replaced = cache.request_output_folder(Some("/elsewhere".to_string()));
    assert_eq!(replaced.as_deref(), Some("/elsewhere"));
}

#[test]
fn labels_for_selected_tracks() {
    let tracks = vec![
        StreamInfo {
            index: 2,
            codec_type: "subtitle".to_string(),
            tags: StreamTags { language: "chi".to_string(), title: None },
        },
        StreamInfo {
            index: 3,
            codec_type: "subtitle".to_string(),
            tags: StreamTags {
                language: "eng".to_string(),
                title: Some("Commentary".to_string()),
            },
        },
        StreamInfo {
            index: 4,
            codec_type: "subtitle".to_string(),
            tags: StreamTags { language: "".to_string(), title: None },
        },
    ];
    let labels = selection_labels(&tracks);
    assert_eq!(labels, vec!["#2 Chinese", "#3 English - Commentary", "#4 "]);
}
