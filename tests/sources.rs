use hearme::sources::{
    active_session_pids, parse_source_id, source_from_app, source_from_node, sources_for_pids,
    tidy_sources, tidy_sources_by_keys, AudioSource,
};
use std::collections::HashMap;

fn src(id: &str, name: &str) -> AudioSource {
    AudioSource { id: id.to_string(), name: name.to_string() }
}

fn names(list: &[AudioSource]) -> Vec<&str> {
    list.iter().map(|s| s.name.as_str()).collect()
}

#[test]
fn list_is_sorted_case_insensitively() {
    let found = vec![src("1", "spotify"), src("2", "Firefox"), src("3", "Discord"), src("4", "alacritty")];
    let shown = tidy_sources(&found);
    assert_eq!(names(&shown), vec!["alacritty", "Discord", "Firefox", "spotify"]);
}

#[test]
fn list_drops_empty_names_and_duplicates() {
    let found = vec![
        src("10", "Firefox"),
        src("11", ""),
        src("12", "mpv"),
        src("13", "Firefox"),
        src("14", "mpv"),
    ];
    let shown = tidy_sources(&found);
    assert_eq!(shown, vec![src("10", "Firefox"), src("12", "mpv")]);
}

#[test]
fn names_differing_only_in_case_keep_their_order() {
    let found = vec![src("1", "b"), src("2", "App"), src("3", "app"), src("4", "APP")];
    let shown = tidy_sources(&found);
    assert_eq!(shown, vec![src("2", "App"), src("3", "app"), src("4", "APP"), src("1", "b")]);
}

#[test]
fn empty_enumeration_gives_an_empty_list() {
    assert!(tidy_sources(&Vec::new()).is_empty());
}

#[test]
fn only_application_output_streams_become_sources() {
    let s = source_from_node(57, Some("Stream/Output/Audio"), Some("Firefox"), Some("firefox.node")).unwrap();
    assert_eq!(s, src("57", "Firefox"));
    let s = source_from_node(8, Some("Stream/Output/Audio"), None, Some("mpv.node")).unwrap();
    assert_eq!(s, src("8", "mpv.node"));
    let s = source_from_node(4294967295, Some("Stream/Output/Audio"), None, None).unwrap();
    assert_eq!(s, src("4294967295", "Unknown"));
    assert_eq!(source_from_node(9, Some("Audio/Sink"), Some("x"), None), None);
    assert_eq!(source_from_node(9, None, Some("x"), None), None);
}

#[test]
fn applications_without_bundle_id_are_skipped() {
    assert_eq!(source_from_app("", Some("Ghost")), None);
    assert_eq!(source_from_app("com.spotify.client", Some("Spotify")), Some(src("com.spotify.client", "Spotify")));
    assert_eq!(source_from_app("org.mozilla.firefox", None), Some(src("org.mozilla.firefox", "org.mozilla.firefox")));
}

#[test]
fn system_mixer_and_inactive_sessions_are_excluded() {
    let sessions = vec![(0, true), (120, true), (121, false), (122, true), (0, false)];
    assert_eq!(active_session_pids(&sessions), vec![120, 122]);
    assert!(active_session_pids(&Vec::new()).is_empty());
}

#[test]
fn processes_are_named_from_the_process_table() {
    let mut table = HashMap::new();
    table.insert(120u32, "spotify.exe".to_string());
    table.insert(122u32, String::new());
    let found = sources_for_pids(&vec![120, 122, 123, 120], &table);
    assert_eq!(found, vec![src("120", "spotify.exe"), src("120", "spotify.exe")]);
    assert_eq!(tidy_sources(&found), vec![src("120", "spotify.exe")]);
}

#[test]
fn source_ids_parse_as_unsigned_decimal() {
    assert_eq!(parse_source_id("42"), Some(42));
    assert_eq!(parse_source_id("+7"), Some(7));
    assert_eq!(parse_source_id("007"), Some(7));
    assert_eq!(parse_source_id("4294967295"), Some(4294967295));
    assert_eq!(parse_source_id("4294967296"), None);
    assert_eq!(parse_source_id("99999999999999999999"), None);
    assert_eq!(parse_source_id(""), None);
    assert_eq!(parse_source_id("+"), None);
    assert_eq!(parse_source_id("-1"), None);
    assert_eq!(parse_source_id("12a"), None);
    assert_eq!(parse_source_id("com.spotify.client"), None);
    assert_eq!(parse_source_id("١٢"), None);
    for id in ["0", "57", "120", "4294967295", "+4294967295", "0000000000042"] {
        assert_eq!(parse_source_id(id), id.parse::<u32>().ok());
    }
}

#[test]
fn enumerated_ids_parse_back_to_their_number() {
    for n in [0u32, 9, 10, 57, 1000, 4294967295] {
        let s = source_from_node(n, Some("Stream/Output/Audio"), Some("a"), None).unwrap();
        assert_eq!(s.id, n.to_string());
        assert_eq!(parse_source_id(&s.id), Some(n));
    }
}

#[test]
fn list_follows_the_given_keys() {
    let found = vec![src("1", "a"), src("2", "b"), src("3", "c"), src("4", "b")];
    let keys: Vec<Vec<char>> = vec![vec!['z'], vec!['m'], vec!['a'], vec!['a']];
    let shown = tidy_sources_by_keys(&found, &keys);
    assert_eq!(shown, vec![src("3", "c"), src("2", "b"), src("1", "a")]);
    let keys: Vec<Vec<char>> = vec![vec!['k'], vec!['k'], vec!['k'], vec![]];
    let shown = tidy_sources_by_keys(&found, &keys);
    assert_eq!(shown, vec![src("1", "a"), src("2", "b"), src("3", "c")]);
}
