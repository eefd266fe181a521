use ytmdesktop::discord::{
    build_activity, normalize_optional_text, normalize_required_text, truncate_text,
    ActivityPlan, ActivityPlanner, PlaybackAnchor, PresenceSnapshot, WriteRateLimiter,
    DISCORD_MAX_WRITES_PER_WINDOW, DISCORD_RATE_LIMIT_WINDOW_MILLIS, DISCORD_TEXT_LIMIT,
};
use ytmdesktop::discord_session::{
    client_id_configured, PresenceSession, SessionAction, ShutdownPlan,
    DISCORD_RETRY_INTERVAL_MILLIS,
};
use ytmdesktop::player::{Artwork, PlaybackStatus, PlayerSnapshot, TrackMetadata};

const NOW: i64 = 1_000;

/// A player snapshot together with its floating-point timing.
struct Sample {
    snapshot: PlayerSnapshot,
    position: f64,
    duration: f64,
    rate: f64,
}

fn rounded_seconds(value: f64) -> Option<i64> {
    if !value.is_finite() || value < 0.0 || value > i64::MAX as f64 {
        return None;
    }
    Some(value.round() as i64)
}

fn anchor_of(sample: &Sample, now: i64) -> Option<PlaybackAnchor> {
    if sample.duration <= 0.0
        || sample.position > sample.duration + 2.0
        || !sample.rate.is_finite()
        || sample.rate <= 0.0
    {
        return None;
    }
    PlaybackAnchor::from_rounded(
        now,
        rounded_seconds(sample.position.min(sample.duration) / sample.rate),
        rounded_seconds(sample.duration / sample.rate),
    )
}

fn observation_id(position: f64) -> String {
    ((position * 1_000.0).round() as u64 + 1).to_string()
}

fn sample(
    title: &str,
    metadata_id: &str,
    timeline_id: &str,
    timing_metadata_id: Option<&str>,
    playback: PlaybackStatus,
    timing: (f64, f64),
    rate: f64,
) -> Sample {
    let (position, duration) = timing;
    let paused = !matches!(playback, PlaybackStatus::Playing);
    Sample {
        snapshot: PlayerSnapshot {
            metadata: Some(TrackMetadata {
                title: Some(title.to_owned()),
                artist: Some("Artist".to_owned()),
                album: Some("Album".to_owned()),
                artwork: vec![Artwork {
                    src: "https://example.com/art.jpg".to_owned(),
                    sizes: None,
                    image_type: None,
                }],
            }),
            metadata_id: Some(metadata_id.to_owned()),
            playback,
            paused,
            media_type: Some("AUDIO".to_owned()),
            media_id: Some(timeline_id.to_owned()),
            timeline_id: Some(timeline_id.to_owned()),
            timing_metadata_id: timing_metadata_id.map(str::to_owned),
            timing_observation_id: Some(observation_id(position)),
        },
        position,
        duration,
        rate,
    }
}

fn playing(title: &str, metadata_id: &str, timeline_id: &str, position: f64, duration: f64) -> Sample {
    sample(
        title,
        metadata_id,
        timeline_id,
        Some(metadata_id),
        PlaybackStatus::Playing,
        (position, duration),
        1.0,
    )
}

fn paused(
    title: &str,
    metadata_id: &str,
    timeline_id: &str,
    timing_metadata_id: Option<&str>,
    position: f64,
    duration: f64,
) -> Sample {
    sample(
        title,
        metadata_id,
        timeline_id,
        timing_metadata_id,
        PlaybackStatus::Paused,
        (position, duration),
        1.0,
    )
}

fn evaluate_and_commit(planner: &mut ActivityPlanner, sample: &Sample, now: i64) -> ActivityPlan {
    let plan = planner.evaluate(&sample.snapshot, anchor_of(sample, now));
    match &plan {
        ActivityPlan::Publish(presence) => planner.mark_published(presence.clone()),
        ActivityPlan::Clear => planner.mark_hidden(),
        ActivityPlan::Hold | ActivityPlan::Ignore => {}
    }
    plan
}

fn published(plan: &ActivityPlan) -> &PresenceSnapshot {
    match plan {
        ActivityPlan::Publish(presence) => presence,
        other => panic!("expected publish, got {other:?}"),
    }
}

fn publish_count(plans: &[ActivityPlan]) -> usize {
    plans.iter().filter(|plan| matches!(plan, ActivityPlan::Publish(_))).count()
}

fn clear_count(plans: &[ActivityPlan]) -> usize {
    plans.iter().filter(|plan| matches!(plan, ActivityPlan::Clear)).count()
}

#[test]
fn normal_sixty_second_progress_publishes_once() {
    let mut planner = ActivityPlanner::default();
    let mut plans = Vec::new();
    for second in 0..=60 {
        plans.push(evaluate_and_commit(
            &mut planner,
            &playing("Track A", "10", "100", second as f64, 180.0),
            NOW + second,
        ));
    }
    assert_eq!(publish_count(&plans), 1);
    assert_eq!(clear_count(&plans), 0);
    assert!(plans[1..].iter().all(|plan| matches!(plan, ActivityPlan::Ignore)));
    let first = published(&plans[0]);
    assert_eq!(first.playback, PlaybackAnchor { started_at: NOW, duration: 180 });
}

#[test]
fn large_seek_causes_exactly_one_corrective_publish() {
    let mut planner = ActivityPlanner::default();
    let plans = vec![
        evaluate_and_commit(&mut planner, &playing("Track A", "10", "100", 30.0, 180.0), NOW),
        evaluate_and_commit(&mut planner, &playing("Track A", "10", "100", 31.0, 180.0), NOW + 1),
        evaluate_and_commit(&mut planner, &playing("Track A", "10", "100", 120.0, 180.0), NOW + 2),
        evaluate_and_commit(&mut planner, &playing("Track A", "10", "100", 121.0, 180.0), NOW + 3),
    ];
    assert_eq!(publish_count(&plans), 2);
    assert_eq!(clear_count(&plans), 0);
    assert!(matches!(plans[1], ActivityPlan::Ignore));
    assert!(matches!(plans[3], ActivityPlan::Ignore));
    let correction = published(&plans[2]);
    assert_eq!(correction.playback, PlaybackAnchor { started_at: NOW - 118, duration: 180 });
}

#[test]
fn transient_new_track_pause_and_unpaired_timing_hold_until_two_coherent_samples() {
    let mut planner = ActivityPlanner::default();
    let initial =
        evaluate_and_commit(&mut planner, &playing("Track A", "10", "100", 170.0, 180.0), NOW);
    assert!(matches!(initial, ActivityPlan::Publish(_)));

    let transient_pause = evaluate_and_commit(
        &mut planner,
        &paused("Track B", "20", "200", Some("10"), 0.0, 160.0),
        NOW + 10,
    );
    assert!(matches!(transient_pause, ActivityPlan::Hold));

    let active_b_with_old_timing = sample(
        "Track B",
        "20",
        "200",
        Some("10"),
        PlaybackStatus::Playing,
        (0.0, 160.0),
        1.0,
    );
    let incomplete = evaluate_and_commit(&mut planner, &active_b_with_old_timing, NOW + 10);
    assert!(matches!(incomplete, ActivityPlan::Hold));

    let mut first_b_timing = playing("Track B", "20", "200", 0.0, 160.0);
    first_b_timing.snapshot.timing_observation_id = Some("500".to_owned());
    let first_coherent = evaluate_and_commit(&mut planner, &first_b_timing, NOW + 10);
    assert!(matches!(first_coherent, ActivityPlan::Hold));

    let mut repeated_b_timing = Sample {
        snapshot: first_b_timing.snapshot.clone(),
        position: first_b_timing.position,
        duration: first_b_timing.duration,
        rate: first_b_timing.rate,
    };
    repeated_b_timing.position = 1.0;
    let repeated_coherent = evaluate_and_commit(&mut planner, &repeated_b_timing, NOW + 11);
    assert!(matches!(repeated_coherent, ActivityPlan::Hold));

    let mut second_b_timing = repeated_b_timing;
    second_b_timing.snapshot.timing_observation_id = Some("501".to_owned());
    let second_coherent = evaluate_and_commit(&mut planner, &second_b_timing, NOW + 11);
    let published_b = published(&second_coherent);
    assert_eq!(published_b.track.title, "Track B");
    assert_eq!(published_b.generation().metadata_id, "20");
    assert_eq!(published_b.generation().timeline_id, "200");
    assert_eq!(published_b.playback, PlaybackAnchor { started_at: NOW + 10, duration: 160 });

    let transition_plans =
        [transient_pause, incomplete, first_coherent, repeated_coherent, second_coherent];
    assert_eq!(clear_count(&transition_plans), 0);
    assert_eq!(publish_count(&transition_plans), 1);
}

#[test]
fn manual_same_generation_pause_clears_immediately() {
    let mut planner = ActivityPlanner::default();
    let initial =
        evaluate_and_commit(&mut planner, &playing("Track A", "10", "100", 30.0, 180.0), NOW);
    assert!(matches!(initial, ActivityPlan::Publish(_)));
    let first_pause = evaluate_and_commit(
        &mut planner,
        &paused("Track A", "10", "100", Some("10"), 30.0, 180.0),
        NOW + 1,
    );
    let repeated_pause = evaluate_and_commit(
        &mut planner,
        &paused("Track A", "10", "100", Some("10"), 30.0, 180.0),
        NOW + 2,
    );
    assert!(matches!(first_pause, ActivityPlan::Clear));
    assert!(matches!(repeated_pause, ActivityPlan::Ignore));
}

#[test]
fn resume_republishes_once_with_a_fresh_anchor() {
    let mut planner = ActivityPlanner::default();
    let initial =
        evaluate_and_commit(&mut planner, &playing("Track A", "10", "100", 30.0, 180.0), NOW);
    assert_eq!(published(&initial).playback.started_at, NOW - 30);
    let pause = evaluate_and_commit(
        &mut planner,
        &paused("Track A", "10", "100", Some("10"), 30.0, 180.0),
        NOW + 2,
    );
    assert!(matches!(pause, ActivityPlan::Clear));
    let resume =
        evaluate_and_commit(&mut planner, &playing("Track A", "10", "100", 30.0, 180.0), NOW + 5);
    assert_eq!(published(&resume).playback, PlaybackAnchor { started_at: NOW - 25, duration: 180 });
    let progress =
        evaluate_and_commit(&mut planner, &playing("Track A", "10", "100", 31.0, 180.0), NOW + 6);
    assert!(matches!(progress, ActivityPlan::Ignore));
}

#[test]
fn reconnect_republishes_the_current_activity_once() {
    let mut planner = ActivityPlanner::default();
    let initial =
        evaluate_and_commit(&mut planner, &playing("Track A", "10", "100", 0.0, 180.0), NOW);
    assert!(matches!(initial, ActivityPlan::Publish(_)));
    let progress =
        evaluate_and_commit(&mut planner, &playing("Track A", "10", "100", 1.0, 180.0), NOW + 1);
    assert!(matches!(progress, ActivityPlan::Ignore));
    planner.mark_hidden();
    let reconnect =
        evaluate_and_commit(&mut planner, &playing("Track A", "10", "100", 2.0, 180.0), NOW + 2);
    assert_eq!(published(&reconnect).playback.started_at, NOW);
    let after_reconnect =
        evaluate_and_commit(&mut planner, &playing("Track A", "10", "100", 3.0, 180.0), NOW + 3);
    assert!(matches!(after_reconnect, ActivityPlan::Ignore));
}

#[test]
fn metadata_correction_and_id_churn_publish_only_the_payload_change() {
    let mut planner = ActivityPlanner::default();
    let mut plans = vec![evaluate_and_commit(
        &mut planner,
        &playing("Track A", "10", "100", 0.0, 180.0),
        NOW,
    )];
    plans.push(evaluate_and_commit(
        &mut planner,
        &playing("Track A (corrected)", "20", "100", 1.0, 180.0),
        NOW + 1,
    ));
    plans.push(evaluate_and_commit(
        &mut planner,
        &playing("Track A (corrected)", "20", "100", 2.0, 180.0),
        NOW + 2,
    ));
    for offset in 3..=12 {
        let metadata_id = (20 + offset).to_string();
        plans.push(evaluate_and_commit(
            &mut planner,
            &playing("Track A (corrected)", &metadata_id, "100", offset as f64, 180.0),
            NOW + offset,
        ));
    }
    assert!(matches!(plans[1], ActivityPlan::Hold));
    assert!(matches!(plans[2], ActivityPlan::Publish(_)));
    assert!(plans[3..].iter().all(|plan| matches!(plan, ActivityPlan::Ignore)));
    assert_eq!(publish_count(&plans), 2);
    assert_eq!(clear_count(&plans), 0);
}

#[test]
fn stable_paused_new_generation_clears_after_two_observations() {
    let mut planner = ActivityPlanner::default();
    let initial =
        evaluate_and_commit(&mut planner, &playing("Track A", "10", "100", 170.0, 180.0), NOW);
    assert!(matches!(initial, ActivityPlan::Publish(_)));
    let first = evaluate_and_commit(
        &mut planner,
        &paused("Track B", "20", "200", Some("20"), 0.0, 160.0),
        NOW + 1,
    );
    let second = evaluate_and_commit(
        &mut planner,
        &paused("Track B", "20", "200", Some("20"), 0.0, 160.0),
        NOW + 2,
    );
    assert!(matches!(first, ActivityPlan::Hold));
    assert!(matches!(second, ActivityPlan::Clear));
}

#[test]
fn double_speed_progress_keeps_wall_clock_anchor_stable() {
    let mut planner = ActivityPlanner::default();
    let first_sample =
        sample("Track A", "10", "100", Some("10"), PlaybackStatus::Playing, (60.0, 180.0), 2.0);
    let first = evaluate_and_commit(&mut planner, &first_sample, NOW);
    assert_eq!(published(&first).playback, PlaybackAnchor { started_at: NOW - 30, duration: 90 });
    let progressed_sample =
        sample("Track A", "10", "100", Some("10"), PlaybackStatus::Playing, (120.0, 180.0), 2.0);
    let progressed = evaluate_and_commit(&mut planner, &progressed_sample, NOW + 30);
    assert!(matches!(progressed, ActivityPlan::Ignore));
}

#[test]
fn invalid_or_unpaired_active_snapshots_do_not_publish_or_clear() {
    let mut planner = ActivityPlanner::default();
    let initial =
        evaluate_and_commit(&mut planner, &playing("Track A", "10", "100", 0.0, 180.0), NOW);
    assert!(matches!(initial, ActivityPlan::Publish(_)));
    let unpaired =
        sample("Track B", "20", "200", Some("10"), PlaybackStatus::Playing, (0.0, 160.0), 1.0);
    assert!(matches!(evaluate_and_commit(&mut planner, &unpaired, NOW + 1), ActivityPlan::Hold));
    let mut missing_timeline = unpaired;
    missing_timeline.snapshot.timeline_id = None;
    missing_timeline.snapshot.timing_metadata_id = Some("20".to_owned());
    assert!(matches!(
        evaluate_and_commit(&mut planner, &missing_timeline, NOW + 2),
        ActivityPlan::Hold
    ));
}

#[test]
fn rate_limiter_respects_window_and_reserved_clear_capacity() {
    let mut limiter = WriteRateLimiter::default();
    let now: u64 = 1_000_000;
    for _ in 0..(DISCORD_MAX_WRITES_PER_WINDOW - 1) {
        assert!(limiter.allows_activity_update(now));
        limiter.record(now);
    }
    assert!(!limiter.allows_activity_update(now));
    assert!(limiter.allows_clear(now));
    limiter.record(now);
    assert!(!limiter.allows_clear(now));

    assert!(!limiter.allows_activity_update(now + 19_000));
    let after_window = now + DISCORD_RATE_LIMIT_WINDOW_MILLIS;
    assert!(limiter.allows_activity_update(after_window));
    limiter.record(after_window);
    assert!(limiter.allows_clear(after_window));
}

#[test]
fn unicode_text_is_truncated_by_scalar_and_activity_serializes_as_listening() {
    let long_title = "🎵".repeat(DISCORD_TEXT_LIMIT + 12);
    let source =
        sample(&long_title, "10", "100", Some("10"), PlaybackStatus::Playing, (30.0, 180.0), 1.0);
    let presence = PresenceSnapshot::from_player(&source.snapshot, anchor_of(&source, NOW)).unwrap();
    assert_eq!(presence.track.title.chars().count(), DISCORD_TEXT_LIMIT);
    assert_eq!(presence.track.title, "🎵".repeat(DISCORD_TEXT_LIMIT));

    let activity = build_activity(&presence);
    assert_eq!(activity.details.chars().count(), DISCORD_TEXT_LIMIT);
    assert_eq!(activity.state, "Artist");
    assert_eq!(activity.start, NOW - 30);
    assert_eq!(activity.end, NOW + 150);
    assert_eq!(activity.button_label, "Open YouTube Music");
    assert_eq!(activity.button_url, "https://music.youtube.com");
    assert_eq!(activity.large_image.as_deref(), Some("https://example.com/art.jpg"));
    assert_eq!(activity.large_text.as_deref(), Some("Album"));
    assert_eq!(activity.large_url.as_deref(), Some("https://music.youtube.com"));
}

#[test]
fn rounded_anchor_tolerates_small_clock_jitter_but_not_a_seek() {
    let baseline = PlaybackAnchor { started_at: 1_000, duration: 180 };
    assert!(!baseline.materially_differs(&PlaybackAnchor { started_at: 1_002, duration: 181 }));
    assert!(baseline.materially_differs(&PlaybackAnchor { started_at: 1_003, duration: 180 }));
    assert!(baseline.materially_differs(&PlaybackAnchor { started_at: 1_000, duration: 182 }));
}

#[test]
fn anchor_difference_does_not_depend_on_order() {
    let a = PlaybackAnchor { started_at: 1_000, duration: 180 };
    let b = PlaybackAnchor { started_at: 997, duration: 180 };
    assert_eq!(a.materially_differs(&b), b.materially_differs(&a));
    assert!(a.materially_differs(&b));
}

#[test]
fn anchor_needs_both_values_and_a_positive_duration() {
    assert_eq!(
        PlaybackAnchor::from_rounded(100, Some(30), Some(180)),
        Some(PlaybackAnchor { started_at: 70, duration: 180 })
    );
    assert_eq!(PlaybackAnchor::from_rounded(100, None, Some(180)), None);
    assert_eq!(PlaybackAnchor::from_rounded(100, Some(30), None), None);
    assert_eq!(PlaybackAnchor::from_rounded(100, Some(30), Some(0)), None);
    assert_eq!(
        PlaybackAnchor::from_rounded(i64::MIN, Some(5), Some(10)),
        Some(PlaybackAnchor { started_at: i64::MIN, duration: 10 })
    );
    assert_eq!(PlaybackAnchor { started_at: i64::MAX - 1, duration: 10 }.ends_at(), i64::MAX);
}

#[test]
fn blank_text_falls_back_and_long_text_is_cut() {
    assert_eq!(normalize_required_text(Some("   "), "Unknown title"), "Unknown title");
    assert_eq!(normalize_required_text(None, "Unknown title"), "Unknown title");
    assert_eq!(normalize_required_text(Some("  Song  "), "Unknown title"), "Song");
    assert_eq!(normalize_optional_text(Some(" \t ")), None);
    assert_eq!(normalize_optional_text(Some(" Album ")), Some("Album".to_string()));
    assert_eq!(truncate_text(&"a".repeat(200)).len(), DISCORD_TEXT_LIMIT);
    assert_eq!(truncate_text("short"), "short");
}

#[test]
fn artwork_labels_fall_back_to_the_title_without_an_album() {
    let mut source =
        sample("Song", "10", "100", Some("10"), PlaybackStatus::Playing, (0.0, 60.0), 1.0);
    source.snapshot.metadata.as_mut().unwrap().album = None;
    let presence = PresenceSnapshot::from_player(&source.snapshot, anchor_of(&source, NOW)).unwrap();
    let activity = build_activity(&presence);
    assert_eq!(activity.large_text.as_deref(), Some("Song"));

    source.snapshot.metadata.as_mut().unwrap().artwork.clear();
    let presence = PresenceSnapshot::from_player(&source.snapshot, anchor_of(&source, NOW)).unwrap();
    let activity = build_activity(&presence);
    assert_eq!(activity.large_image, None);
    assert_eq!(activity.large_text, None);
    assert_eq!(activity.large_url, None);
}

#[test]
fn placeholder_or_blank_client_ids_are_not_configured() {
    assert!(client_id_configured("1544449927776571483"));
    assert!(!client_id_configured("   "));
    assert!(!client_id_configured(""));
    assert!(!client_id_configured("YOUR_DISCORD_APPLICATION_ID"));
}

fn start(session: &mut PresenceSession, sample: &Sample, now_millis: u64) -> SessionAction {
    session.begin_sync(&sample.snapshot, anchor_of(sample, NOW), now_millis)
}

#[test]
fn session_connects_before_it_publishes_and_then_publishes_once() {
    let mut session = PresenceSession::new(0);
    let track = playing("Track A", "10", "100", 0.0, 180.0);

    let action = start(&mut session, &track, 10);
    assert!(matches!(action, SessionAction::Connect { attempted_at: 10 }));
    assert!(!session.complete(action, true, 20));
    assert!(session.is_connected());

    let action = start(&mut session, &track, 30);
    let SessionAction::Publish { presence, observed_at } = &action else {
        panic!("expected a publish");
    };
    assert_eq!(presence.track.title, "Track A");
    assert_eq!(*observed_at, 30);
    assert!(!session.complete(action, true, 40));

    let again = start(&mut session, &track, 50);
    assert!(matches!(again, SessionAction::Idle));
}

#[test]
fn session_waits_for_the_retry_interval_after_a_failed_connection() {
    let mut session = PresenceSession::new(0);
    let track = playing("Track A", "10", "100", 0.0, 180.0);
    let action = start(&mut session, &track, 100);
    assert!(matches!(action, SessionAction::Connect { .. }));
    assert!(!session.complete(action, false, 150));
    assert!(!session.is_connected());

    let too_soon = start(&mut session, &track, 100 + DISCORD_RETRY_INTERVAL_MILLIS - 1);
    assert!(matches!(too_soon, SessionAction::Idle));
    let retry = start(&mut session, &track, 100 + DISCORD_RETRY_INTERVAL_MILLIS);
    assert!(matches!(retry, SessionAction::Connect { .. }));
}

#[test]
fn a_failed_write_drops_the_connection_and_republishes_after_reconnecting() {
    let mut session = PresenceSession::new(0);
    let track = playing("Track A", "10", "100", 0.0, 180.0);
    let connect = start(&mut session, &track, 0);
    session.complete(connect, true, 0);
    let publish = start(&mut session, &track, 1);
    assert!(matches!(publish, SessionAction::Publish { .. }));
    assert!(session.complete(publish, false, 2));
    assert!(!session.is_connected());

    let later = 2 + DISCORD_RETRY_INTERVAL_MILLIS;
    let reconnect = start(&mut session, &track, later);
    assert!(matches!(reconnect, SessionAction::Connect { .. }));
    session.complete(reconnect, true, later);
    let republish = start(&mut session, &track, later + 1);
    assert!(matches!(republish, SessionAction::Publish { .. }));
}

#[test]
fn session_clears_a_shown_activity_on_pause_and_on_shutdown() {
    let mut session = PresenceSession::new(0);
    let track = playing("Track A", "10", "100", 30.0, 180.0);
    let connect = start(&mut session, &track, 0);
    session.complete(connect, true, 0);
    let publish = start(&mut session, &track, 1);
    session.complete(publish, true, 1);

    let pause = paused("Track A", "10", "100", Some("10"), 30.0, 180.0);
    let clear = start(&mut session, &pause, 2);
    assert!(matches!(clear, SessionAction::Clear { observed_at: 2 }));
    session.complete(clear, true, 2);
    assert_eq!(session.shutdown(), ShutdownPlan::Close);
    assert_eq!(session.shutdown(), ShutdownPlan::Nothing);

    let mut shown = PresenceSession::new(0);
    let connect = start(&mut shown, &track, 0);
    shown.complete(connect, true, 0);
    let publish = start(&mut shown, &track, 1);
    shown.complete(publish, true, 1);
    assert_eq!(shown.shutdown(), ShutdownPlan::ClearAndClose);
    assert!(!shown.is_connected());
}

#[test]
fn session_keeps_the_last_write_of_a_window_for_a_clear() {
    let mut session = PresenceSession::new(0);
    let connect = start(&mut session, &playing("Track A", "10", "100", 0.0, 180.0), 0);
    session.complete(connect, true, 0);
    for index in 0..(DISCORD_MAX_WRITES_PER_WINDOW - 1) {
        // Alternate between two positions far apart: each sample is a seek.
        let position = if index % 2 == 0 { 0.0 } else { 100.0 };
        let action = start(&mut session, &playing("Track A", "10", "100", position, 180.0), 1);
        assert!(matches!(action, SessionAction::Publish { .. }), "publish {index}");
        session.complete(action, true, 1);
    }
    let blocked = start(&mut session, &playing("Track A", "10", "100", 0.0, 180.0), 2);
    assert!(matches!(blocked, SessionAction::Idle));
    let clear = start(&mut session, &paused("Track A", "10", "100", Some("10"), 0.0, 180.0), 3);
    assert!(matches!(clear, SessionAction::Clear { observed_at: 3 }));
}
