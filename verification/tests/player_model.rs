use ytmdesktop::player::{
    preserve_metadata, track_changed, Artwork, PlaybackStatus, PlayerSnapshot, PlayerStore,
    TimingChecks, TrackMetadata, MAX_OPAQUE_ID_LENGTH,
};
use ytmdesktop::player_command::{native_command_script, COMMAND_SCRIPT_HEAD, COMMAND_SCRIPT_TAIL};
use ytmdesktop::player_log::{state_transition_messages, track_change_message, update_messages};

const VALID_TIMING: TimingChecks = TimingChecks {
    position_valid: true,
    duration_valid: true,
    playback_rate_valid: true,
};

fn snapshot(playback: PlaybackStatus, paused: bool, media_id: Option<&str>) -> PlayerSnapshot {
    PlayerSnapshot {
        metadata: None,
        metadata_id: None,
        playback,
        paused,
        media_type: Some("VIDEO".to_string()),
        media_id: media_id.map(str::to_string),
        timeline_id: None,
        timing_metadata_id: None,
        timing_observation_id: None,
    }
}

#[test]
fn accepts_valid_media_identifier() {
    let snapshot = snapshot(PlaybackStatus::Playing, false, Some("42"));

    assert_eq!(snapshot.validate(VALID_TIMING), Ok(()));
}

#[test]
fn rejects_invalid_media_identifiers() {
    for media_id in ["", "resource-1", &"1".repeat(MAX_OPAQUE_ID_LENGTH + 1)] {
        let snapshot = snapshot(PlaybackStatus::Playing, false, Some(media_id));

        assert_eq!(
            snapshot.validate(VALID_TIMING),
            Err("invalid media identifier".to_string())
        );
    }
}

#[test]
fn rejects_invalid_metadata_identifier() {
    let mut snapshot = snapshot(PlaybackStatus::Playing, false, Some("1"));
    snapshot.metadata_id = Some("metadata-1".to_string());

    assert_eq!(
        snapshot.validate(VALID_TIMING),
        Err("invalid metadata identifier".to_string())
    );
}

#[test]
fn accepts_valid_timeline_identity_and_playback_rate() {
    let mut snapshot = snapshot(PlaybackStatus::Playing, false, Some("1"));
    snapshot.timeline_id = Some("20".to_string());
    snapshot.timing_metadata_id = Some("30".to_string());

    assert_eq!(snapshot.validate(VALID_TIMING), Ok(()));
}

#[test]
fn rejects_invalid_timing_identifiers() {
    for identifier in ["", "timeline-1", &"1".repeat(MAX_OPAQUE_ID_LENGTH + 1)] {
        let mut invalid_timeline = snapshot(PlaybackStatus::Playing, false, Some("1"));
        invalid_timeline.timeline_id = Some(identifier.to_string());

        assert_eq!(
            invalid_timeline.validate(VALID_TIMING),
            Err("invalid timeline identifier".to_string())
        );

        let mut invalid_timing_metadata = snapshot(PlaybackStatus::Playing, false, Some("1"));
        invalid_timing_metadata.timing_metadata_id = Some(identifier.to_string());

        assert_eq!(
            invalid_timing_metadata.validate(VALID_TIMING),
            Err("invalid timing metadata identifier".to_string())
        );

        let mut invalid_timing_observation = snapshot(PlaybackStatus::Playing, false, Some("1"));
        invalid_timing_observation.timing_observation_id = Some(identifier.to_string());

        assert_eq!(
            invalid_timing_observation.validate(VALID_TIMING),
            Err("invalid timing observation identifier".to_string())
        );
    }
}

#[test]
fn rejects_invalid_playback_rates() {
    let snapshot = snapshot(PlaybackStatus::Playing, false, Some("1"));
    let timing = TimingChecks {
        playback_rate_valid: false,
        ..VALID_TIMING
    };

    assert_eq!(
        snapshot.validate(timing),
        Err("invalid playback rate".to_string())
    );
}

#[test]
fn rejects_inconsistent_playback_and_paused_state() {
    let playing_but_paused = snapshot(PlaybackStatus::Playing, true, Some("1"));
    let paused_but_playing = snapshot(PlaybackStatus::Paused, false, Some("1"));

    for snapshot in [playing_but_paused, paused_but_playing] {
        assert_eq!(
            snapshot.validate(VALID_TIMING),
            Err("playback and paused state are inconsistent".to_string())
        );
    }
}

#[test]
fn rejects_finite_times_that_cannot_be_represented_safely() {
    let snapshot = snapshot(PlaybackStatus::Playing, false, Some("1"));

    assert_eq!(
        snapshot.validate(TimingChecks {
            position_valid: false,
            ..VALID_TIMING
        }),
        Err("invalid playback position".to_string())
    );
    assert_eq!(
        snapshot.validate(TimingChecks {
            duration_valid: false,
            ..VALID_TIMING
        }),
        Err("invalid media duration".to_string())
    );
}

#[test]
fn timing_problems_are_reported_before_identifier_problems() {
    let mut snapshot = snapshot(PlaybackStatus::Playing, true, Some("x"));
    snapshot.timeline_id = Some("y".to_string());
    let timing = TimingChecks {
        position_valid: true,
        duration_valid: true,
        playback_rate_valid: false,
    };
    assert_eq!(
        snapshot.validate(timing),
        Err("playback and paused state are inconsistent".to_string())
    );
    snapshot.paused = false;
    assert_eq!(
        snapshot.validate(timing),
        Err("invalid media identifier".to_string())
    );
}

#[test]
fn metadata_limits_are_enforced() {
    let mut snapshot = snapshot(PlaybackStatus::Paused, true, None);
    let artwork = |src: String| Artwork {
        src,
        sizes: None,
        image_type: None,
    };
    snapshot.metadata = Some(TrackMetadata {
        title: Some("t".repeat(513)),
        artist: None,
        album: None,
        artwork: Vec::new(),
    });
    assert_eq!(
        snapshot.validate(VALID_TIMING),
        Err("title exceeds maximum length".to_string())
    );
    snapshot.metadata = Some(TrackMetadata {
        title: Some("t".repeat(512)),
        artist: None,
        album: Some("é".repeat(257)),
        artwork: Vec::new(),
    });
    assert_eq!(
        snapshot.validate(VALID_TIMING),
        Err("album exceeds maximum length".to_string())
    );
    snapshot.metadata = Some(TrackMetadata {
        title: None,
        artist: None,
        album: None,
        artwork: (0..9).map(|i| artwork(format!("https://e.com/{i}"))).collect(),
    });
    assert_eq!(
        snapshot.validate(VALID_TIMING),
        Err("too many artwork entries".to_string())
    );
    snapshot.metadata = Some(TrackMetadata {
        title: None,
        artist: None,
        album: None,
        artwork: vec![artwork("x".repeat(4096)), artwork("x".repeat(4097))],
    });
    assert_eq!(
        snapshot.validate(VALID_TIMING),
        Err("artwork URL is too long".to_string())
    );
}

fn metadata(title: &str) -> TrackMetadata {
    TrackMetadata {
        title: Some(title.to_string()),
        artist: Some("Artist".to_string()),
        album: None,
        artwork: Vec::new(),
    }
}

fn store_snapshot(
    metadata: Option<TrackMetadata>,
    media_id: Option<&str>,
    timeline_id: Option<&str>,
) -> PlayerSnapshot {
    let metadata_id = metadata.as_ref().map(|_| "10".to_string());

    PlayerSnapshot {
        metadata,
        metadata_id,
        playback: PlaybackStatus::Playing,
        paused: false,
        media_type: Some("VIDEO".to_string()),
        media_id: media_id.map(str::to_string),
        timeline_id: timeline_id.map(str::to_string),
        timing_metadata_id: Some("10".to_string()),
        timing_observation_id: Some("11".to_string()),
    }
}

#[test]
fn preserves_metadata_for_same_playback_timeline() {
    let mut store = PlayerStore::default();
    let expected = metadata("Track A");

    store
        .update(store_snapshot(Some(expected.clone()), Some("1"), Some("100")))
        .expect("initial snapshot should be stored");

    let updated = store
        .update(store_snapshot(None, Some("2"), Some("100")))
        .expect("metadata gap should be stored");

    assert_eq!(updated.metadata, Some(expected));
    assert_eq!(updated.metadata_id.as_deref(), Some("10"));
}

#[test]
fn does_not_splice_metadata_across_timeline_transition() {
    let mut store = PlayerStore::default();

    store
        .update(store_snapshot(Some(metadata("Track A")), Some("1"), Some("100")))
        .expect("initial snapshot should be stored");

    let updated = store
        .update(store_snapshot(None, Some("1"), Some("200")))
        .expect("transition snapshot should be stored");

    assert_eq!(updated.metadata, None);
    assert_eq!(updated.metadata_id, None);
}

#[test]
fn does_not_preserve_metadata_without_timeline_identity() {
    for (previous_id, next_id) in [(None, None), (Some("1"), None), (None, Some("1"))] {
        let mut store = PlayerStore::default();

        store
            .update(store_snapshot(Some(metadata("Track A")), Some("1"), previous_id))
            .expect("initial snapshot should be stored");

        let updated = store
            .update(store_snapshot(None, Some("1"), next_id))
            .expect("metadata gap should be stored");

        assert_eq!(updated.metadata, None);
    }
}

#[test]
fn the_store_remembers_the_merged_snapshot() {
    let mut store = PlayerStore::default();
    assert!(store.current().is_none());
    let first = store_snapshot(Some(metadata("Track A")), Some("1"), Some("100"));
    store.update(first.clone()).unwrap();
    store.update(store_snapshot(None, Some("1"), Some("100"))).unwrap();
    let current = store.current().expect("stored");
    assert_eq!(current.metadata, first.metadata);
    let direct = preserve_metadata(None, store_snapshot(None, None, Some("100")));
    assert_eq!(direct.metadata, None);
}

#[test]
fn track_changes_compare_title_artist_and_album() {
    let a = store_snapshot(Some(metadata("Track A")), None, None);
    let mut b = a.clone();
    assert!(!track_changed(&a, &b));
    b.metadata.as_mut().unwrap().album = Some("Album".to_string());
    assert!(track_changed(&a, &b));
    assert!(track_changed(&a, &store_snapshot(None, None, None)));
    assert!(!track_changed(
        &store_snapshot(None, None, None),
        &store_snapshot(None, None, None)
    ));
}

#[test]
fn log_lines_describe_track_and_playback_changes() {
    let a = store_snapshot(Some(metadata("Track A")), None, None);
    assert_eq!(
        track_change_message(&a),
        "[player] track changed: Track A — Artist"
    );
    assert_eq!(
        update_messages(None, &a),
        vec![
            "[player] track changed: Track A — Artist".to_string(),
            "[player] playback initialized: Playing".to_string()
        ]
    );
    let mut paused = a.clone();
    paused.playback = PlaybackStatus::Paused;
    paused.paused = true;
    assert_eq!(
        update_messages(Some(&a), &paused),
        vec!["[player] playback changed: Paused".to_string()]
    );
    let mut other_album = a.clone();
    other_album.metadata.as_mut().unwrap().album = Some("B".to_string());
    assert_eq!(update_messages(Some(&a), &other_album).len(), 1);
    assert!(state_transition_messages(Some(&a), &other_album).is_empty());
    let bare = store_snapshot(None, None, None);
    assert_eq!(
        track_change_message(&bare),
        "[player] track metadata unavailable"
    );
}

#[test]
fn command_scripts_embed_the_serialized_command() {
    let script = native_command_script("{\"type\":\"next\"}");
    assert!(script.contains("api.executeNativeCommand({\"type\":\"next\"})"));
    assert!(script.contains("[YTMusic Desktop] playback adapter is not available"));
    assert!(script.contains("[YTMusic Desktop] native player command failed:"));
    assert_eq!(script, format!("{COMMAND_SCRIPT_HEAD}{{\"type\":\"next\"}}{COMMAND_SCRIPT_TAIL}"));
}
