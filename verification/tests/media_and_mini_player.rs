use ytmdesktop::media::{build_track, create_track_id, has_prefix, select_artwork_url};
use ytmdesktop::mini_player::{
    allowed_artwork_url, artwork_url_from_parsed, mini_player_track, select_mini_player_artwork,
    MiniPlayerPlayback,
};
use ytmdesktop::player::{Artwork, PlaybackStatus, PlayerSnapshot, TrackMetadata};

fn artwork(src: &str) -> Artwork {
    Artwork { src: src.to_string(), sizes: None, image_type: None }
}

fn metadata(artwork: Vec<Artwork>) -> TrackMetadata {
    TrackMetadata {
        title: Some("Track title".to_string()),
        artist: Some("Track artist".to_string()),
        album: Some("Internal album".to_string()),
        artwork,
    }
}

fn snapshot(playback: PlaybackStatus, metadata: Option<TrackMetadata>) -> PlayerSnapshot {
    PlayerSnapshot {
        metadata,
        metadata_id: Some("10".to_string()),
        playback,
        paused: !matches!(playback, PlaybackStatus::Playing),
        media_type: Some("VIDEO".to_string()),
        media_id: Some("20".to_string()),
        timeline_id: Some("30".to_string()),
        timing_metadata_id: Some("40".to_string()),
        timing_observation_id: Some("50".to_string()),
    }
}

#[test]
fn track_ids_are_fnv1a_of_title_and_artist() {
    assert_eq!(create_track_id("Track", "Artist"), "70bf30c7cf967707");
    assert_eq!(create_track_id("Unknown title", ""), "2ac93a971b0d2de1");
    assert_eq!(create_track_id("Song", "Band"), "aa202db55ce8e41b");
    assert_ne!(create_track_id("Track", "Artist"), create_track_id("TrackA", "rtist"));
    assert_eq!(create_track_id("Track", "Artist").len(), 16);
}

#[test]
fn media_artwork_is_the_last_web_address() {
    let m = metadata(vec![
        artwork("https://example.com/first.jpg"),
        artwork("http://example.com/second.jpg"),
        artwork("data:image/png;base64,AAAA"),
    ]);
    assert_eq!(select_artwork_url(&m), "http://example.com/second.jpg");
    assert_eq!(select_artwork_url(&metadata(vec![artwork("file:///tmp/a.jpg")])), "");
    assert_eq!(select_artwork_url(&metadata(Vec::new())), "");
    assert!(has_prefix("https://x", "https://"));
    assert!(!has_prefix("http", "https://"));
}

#[test]
fn media_track_fills_missing_fields() {
    let track = build_track(&metadata(vec![artwork("https://example.com/cover.jpg")]));
    assert_eq!(track.title, "Track title");
    assert_eq!(track.artists, vec!["Track artist".to_string()]);
    assert_eq!(track.album, "Internal album");
    assert_eq!(track.artwork_url, "https://example.com/cover.jpg");
    assert_eq!(track.id, create_track_id("Track title", "Track artist"));
    assert_eq!(track.url, "");

    let bare = build_track(&TrackMetadata { title: None, artist: None, album: None, artwork: Vec::new() });
    assert_eq!(bare.title, "Unknown title");
    assert!(bare.artists.is_empty());
    assert_eq!(bare.album, "");
    assert_eq!(bare.artwork_url, "");
    assert_eq!(bare.id, "2ac93a971b0d2de1");
}

#[test]
fn filters_non_http_artwork_urls() {
    let artwork = vec![
        artwork("https://example.com/older-cover.jpg"),
        artwork("javascript:alert(1)"),
        artwork("file:///tmp/cover.jpg"),
        artwork("http://example.com/cover.jpg"),
    ];
    let track = mini_player_track(&snapshot(PlaybackStatus::Paused, Some(metadata(artwork))));
    assert_eq!(track.artwork_url.as_deref(), Some("http://example.com/cover.jpg"));
}

#[test]
fn prefers_the_last_valid_artwork_entry() {
    let artwork = vec![
        artwork("data:image/png;base64,AAAA"),
        artwork("https://example.com/cover.jpg"),
    ];
    let track = mini_player_track(&snapshot(PlaybackStatus::Playing, Some(metadata(artwork))));
    assert_eq!(track.title.as_deref(), Some("Track title"));
    assert_eq!(track.artist.as_deref(), Some("Track artist"));
    assert_eq!(track.artwork_url.as_deref(), Some("https://example.com/cover.jpg"));
}

#[test]
fn a_snapshot_without_metadata_shows_no_track() {
    let track = mini_player_track(&snapshot(PlaybackStatus::Inactive, None));
    assert_eq!(track.title, None);
    assert_eq!(track.artist, None);
    assert_eq!(track.artwork_url, None);
}

#[test]
fn maps_all_playback_states() {
    assert_eq!(MiniPlayerPlayback::from(&PlaybackStatus::Playing), MiniPlayerPlayback::Playing);
    assert_eq!(MiniPlayerPlayback::from(&PlaybackStatus::Paused), MiniPlayerPlayback::Paused);
    assert_eq!(MiniPlayerPlayback::from(&PlaybackStatus::Inactive), MiniPlayerPlayback::Inactive);
}

#[test]
fn artwork_urls_are_trimmed_parsed_and_serialized() {
    assert_eq!(
        allowed_artwork_url("  https://Example.com  ").as_deref(),
        Some("https://example.com/")
    );
    assert_eq!(allowed_artwork_url("http://example.com/a b.jpg").as_deref(), Some("http://example.com/a%20b.jpg"));
    assert_eq!(allowed_artwork_url("ftp://example.com/a.jpg"), None);
    assert_eq!(allowed_artwork_url("not a url"), None);
    assert_eq!(allowed_artwork_url("data:image/png;base64,AAAA"), None);
    assert_eq!(select_mini_player_artwork(&Vec::new()), None);
}

#[test]
fn parsed_urls_need_a_web_scheme_and_a_host() {
    let parsed = |scheme: &str, host: bool| Some((scheme.to_string(), host, "u".to_string()));
    assert_eq!(artwork_url_from_parsed(parsed("https", true)).as_deref(), Some("u"));
    assert_eq!(artwork_url_from_parsed(parsed("http", true)).as_deref(), Some("u"));
    assert_eq!(artwork_url_from_parsed(parsed("https", false)), None);
    assert_eq!(artwork_url_from_parsed(parsed("file", true)), None);
    assert_eq!(artwork_url_from_parsed(None), None);
}
