//! Discord Rich Presence planning: which presence to publish for a player
//! snapshot, when to hold through YouTube Music's transient track handoffs,
//! when to clear, and how many writes the Discord connection may take.
//!
//! The playback anchor is computed from the snapshot's floating-point
//! position, duration and rate by the caller and handed in.
use vstd::prelude::*;
use std::collections::VecDeque;

use crate::localization::same_text;
use crate::media::last_web_artwork;
use crate::player::{clone_text, same_optional_text, text_view, PlaybackStatus, PlayerSnapshot};
use crate::text::{chars_of, string_from_chars, trim, trim_chars};

verus! {

/// The Discord application of YTMusic Desktop.
pub const DISCORD_CLIENT_ID: &'static str = "1544449927776571483";

/// Discord accepts at most this many activity writes per window.
pub const DISCORD_MAX_WRITES_PER_WINDOW: usize = 5;

/// The length of the rate-limit window, in milliseconds.
pub const DISCORD_RATE_LIMIT_WINDOW_MILLIS: u64 = 20000;

/// A start time that moves by this many seconds is a seek.
pub const SEEK_DRIFT_THRESHOLD_SECONDS: u64 = 3;

/// A duration that changes by this many seconds is a new duration.
pub const DURATION_DRIFT_THRESHOLD_SECONDS: u64 = 2;

/// Paired observations needed before a new track is published.
pub const TRANSITION_STABILITY_OBSERVATIONS: u8 = 2;

/// Paired observations needed before a pause on a new track clears.
pub const TRANSITION_PAUSE_STABILITY_OBSERVATIONS: u8 = 2;

/// Discord shows at most this many characters of a text field.
pub const DISCORD_TEXT_LIMIT: usize = 128;

/// Where the presence button leads.
pub const YOUTUBE_MUSIC_URL: &'static str = "https://music.youtube.com";

// ---------------------------------------------------------------------------
// Text normalization
// ---------------------------------------------------------------------------

/// At most the first `DISCORD_TEXT_LIMIT` characters of `s`.
pub open spec fn truncated(s: Seq<char>) -> Seq<char> {
    if s.len() <= DISCORD_TEXT_LIMIT {
        s
    } else {
        s.take(DISCORD_TEXT_LIMIT as int)
    }
}

/// The trimmed value if it is not blank, else `fallback`, truncated.
pub open spec fn required_text(value: Option<Seq<char>>, fallback: Seq<char>) -> Seq<char> {
    match value {
        Some(v) => if trim(v).len() > 0 {
            truncated(trim(v))
        } else {
            truncated(fallback)
        },
        None => truncated(fallback),
    }
}

/// The trimmed and truncated value if it is present and not blank.
pub open spec fn optional_text(value: Option<Seq<char>>) -> Option<Seq<char>> {
    match value {
        Some(v) => if trim(v).len() > 0 {
            Some(truncated(trim(v)))
        } else {
            None
        },
        None => None,
    }
}

/// The first `DISCORD_TEXT_LIMIT` characters of `value` (Unicode scalar
/// values, not bytes).
pub fn truncate_text(value: &str) -> (r: String)
    ensures
        r@ == truncated(value@),
{
    let chars = chars_of(value);
    let n = if chars.len() <= DISCORD_TEXT_LIMIT {
        chars.len()
    } else {
        DISCORD_TEXT_LIMIT
    };
    let mut out: Vec<char> = Vec::new();
    let mut i: usize = 0;
    while i < n
        invariant
            n <= chars@.len(),
            i <= n,
            out@ == chars@.take(i as int),
        decreases n - i,
    {
        out.push(chars[i]);
        i = i + 1;
        assert(out@ =~= chars@.take(i as int));
    }
    assert(chars@.take(chars@.len() as int) =~= chars@);
    string_from_chars(out.as_slice())
}

fn trimmed(value: &str) -> (r: String)
    ensures
        r@ == trim(value@),
{
    let chars = chars_of(value);
    let t = trim_chars(chars.as_slice());
    string_from_chars(t.as_slice())
}

/// The trimmed value, or `fallback` when it is absent or blank, truncated.
pub fn normalize_required_text(value: Option<&str>, fallback: &str) -> (r: String)
    ensures
        r@ == required_text(
            match value {
                Some(v) => Some(v@),
                None => None,
            },
            fallback@,
        ),
{
    match value {
        Some(v) => {
            let t = trimmed(v);
            if t.as_str().unicode_len() > 0 {
                truncate_text(t.as_str())
            } else {
                truncate_text(fallback)
            }
        },
        None => truncate_text(fallback),
    }
}

/// The trimmed and truncated value, if present and not blank.
pub fn normalize_optional_text(value: Option<&str>) -> (r: Option<String>)
    ensures
        text_view(r) == optional_text(
            match value {
                Some(v) => Some(v@),
                None => None,
            },
        ),
{
    match value {
        Some(v) => {
            let t = trimmed(v);
            if t.as_str().unicode_len() > 0 {
                Some(truncate_text(t.as_str()))
            } else {
                None
            }
        },
        None => None,
    }
}

// ---------------------------------------------------------------------------
// Presence values
// ---------------------------------------------------------------------------

/// When the current track started and how long it lasts, in wall-clock
/// seconds (already scaled by the playback rate).
#[derive(Debug, Clone, Copy, PartialEq, Eq, Structural)]
pub struct PlaybackAnchor {
    pub started_at: i64,
    pub duration: i64,
}

/// `a + b` clamped to the range of `i64`.
pub open spec fn saturating_sum(a: i64, b: i64) -> i64 {
    if a + b > i64::MAX {
        i64::MAX
    } else if a + b < i64::MIN {
        i64::MIN
    } else {
        (a + b) as i64
    }
}

/// The distance between two integers.
pub open spec fn distance(a: int, b: int) -> int {
    if a >= b {
        a - b
    } else {
        b - a
    }
}

/// Two anchors differ enough that Discord must be told: a seek of at least
/// three seconds or a duration change of at least two.
pub open spec fn anchor_differs(a: PlaybackAnchor, b: PlaybackAnchor) -> bool {
    distance(a.started_at as int, b.started_at as int) >= SEEK_DRIFT_THRESHOLD_SECONDS
        || distance(a.duration as int, b.duration as int) >= DURATION_DRIFT_THRESHOLD_SECONDS
}

/// `a - b` clamped to the range of `i64`.
pub open spec fn saturating_difference(a: i64, b: i64) -> i64 {
    if a - b > i64::MAX {
        i64::MAX
    } else if a - b < i64::MIN {
        i64::MIN
    } else {
        (a - b) as i64
    }
}

/// The anchor of a track observed at `now`, from its position and duration
/// in wall-clock seconds (each `None` when it could not be rounded): none
/// without both, or when the duration is not positive.
pub open spec fn rounded_anchor(now: i64, position: Option<i64>, duration: Option<i64>) -> Option<
    PlaybackAnchor,
> {
    match (position, duration) {
        (Some(p), Some(d)) => if d > 0 {
            Some(PlaybackAnchor { started_at: saturating_difference(now, p), duration: d })
        } else {
            None
        },
        _ => None,
    }
}

impl PlaybackAnchor {
    /// The anchor of a track observed at `now`, from its rounded position
    /// and duration in wall-clock seconds.
    pub fn from_rounded(now: i64, position: Option<i64>, duration: Option<i64>) -> (r: Option<
        PlaybackAnchor,
    >)
        ensures
            r == rounded_anchor(now, position, duration),
    {
        let duration = match duration {
            Some(d) => d,
            None => {
                return None;
            },
        };
        if duration <= 0 {
            return None;
        }
        let position = match position {
            Some(p) => p,
            None => {
                return None;
            },
        };
        let difference = now as i128 - position as i128;
        let started_at = if difference > i64::MAX as i128 {
            i64::MAX
        } else if difference < i64::MIN as i128 {
            i64::MIN
        } else {
            difference as i64
        };
        Some(PlaybackAnchor { started_at, duration })
    }

    /// When the track ends.
    pub fn ends_at(&self) -> (r: i64)
        ensures
            r == saturating_sum(self.started_at, self.duration),
    {
        let sum = self.started_at as i128 + self.duration as i128;
        if sum > i64::MAX as i128 {
            i64::MAX
        } else if sum < i64::MIN as i128 {
            i64::MIN
        } else {
            sum as i64
        }
    }

    /// Whether the two anchors differ enough to republish.
    pub fn materially_differs(&self, other: &Self) -> (r: bool)
        ensures
            r == anchor_differs(*self, *other),
    {
        let start = self.started_at as i128 - other.started_at as i128;
        let start = if start < 0 {
            -start
        } else {
            start
        };
        let duration = self.duration as i128 - other.duration as i128;
        let duration = if duration < 0 {
            -duration
        } else {
            duration
        };
        start >= SEEK_DRIFT_THRESHOLD_SECONDS as i128 || duration
            >= DURATION_DRIFT_THRESHOLD_SECONDS as i128
    }
}

/// The track fields that Discord shows.
#[derive(Debug, PartialEq, Eq)]
pub struct TrackIdentity {
    pub title: String,
    pub artist: String,
    pub album: Option<String>,
}

/// The presence for one playing track.
#[derive(Debug, PartialEq, Eq)]
pub struct PresenceSnapshot {
    pub track: TrackIdentity,
    pub artwork_url: Option<String>,
    pub metadata_id: String,
    pub timeline_id: String,
    pub timing_observation_id: String,
    pub playback: PlaybackAnchor,
}

/// The metadata and timeline that a presence belongs to.
#[derive(Debug, PartialEq, Eq)]
pub struct GenerationKey {
    pub metadata_id: String,
    pub timeline_id: String,
}

/// The values of a presence.
pub struct PresenceView {
    pub title: Seq<char>,
    pub artist: Seq<char>,
    pub album: Option<Seq<char>>,
    pub artwork_url: Option<Seq<char>>,
    pub metadata_id: Seq<char>,
    pub timeline_id: Seq<char>,
    pub timing_observation_id: Seq<char>,
    pub playback: PlaybackAnchor,
}

impl View for PresenceSnapshot {
    type V = PresenceView;

    open spec fn view(&self) -> PresenceView {
        PresenceView {
            title: self.track.title@,
            artist: self.track.artist@,
            album: text_view(self.track.album),
            artwork_url: text_view(self.artwork_url),
            metadata_id: self.metadata_id@,
            timeline_id: self.timeline_id@,
            timing_observation_id: self.timing_observation_id@,
            playback: self.playback,
        }
    }
}

/// Two presences differ in what Discord shows.
pub open spec fn presence_differs(a: PresenceView, b: PresenceView) -> bool {
    ||| a.title != b.title
    ||| a.artist != b.artist
    ||| a.album != b.album
    ||| a.artwork_url != b.artwork_url
    ||| anchor_differs(a.playback, b.playback)
}

/// Two presences belong to the same metadata and timeline.
pub open spec fn same_generation(a: PresenceView, b: PresenceView) -> bool {
    a.metadata_id == b.metadata_id && a.timeline_id == b.timeline_id
}

impl Clone for PresenceSnapshot {
    fn clone(&self) -> (r: Self)
        ensures
            r@ == self@,
    {
        clone_presence(self)
    }
}

fn clone_presence(p: &PresenceSnapshot) -> (r: PresenceSnapshot)
    ensures
        r@ == p@,
{
    PresenceSnapshot {
        track: TrackIdentity {
            title: p.track.title.clone(),
            artist: p.track.artist.clone(),
            album: clone_text(&p.track.album),
        },
        artwork_url: clone_text(&p.artwork_url),
        metadata_id: p.metadata_id.clone(),
        timeline_id: p.timeline_id.clone(),
        timing_observation_id: p.timing_observation_id.clone(),
        playback: p.playback,
    }
}

impl PresenceSnapshot {
    /// Whether Discord must be told about the change from `other`.
    pub fn materially_differs(&self, other: &Self) -> (r: bool)
        ensures
            r == presence_differs(self@, other@),
    {
        !same_text(self.track.title.as_str(), other.track.title.as_str()) || !same_text(
            self.track.artist.as_str(),
            other.track.artist.as_str(),
        ) || !same_optional_text(&self.track.album, &other.track.album) || !same_optional_text(
            &self.artwork_url,
            &other.artwork_url,
        ) || self.playback.materially_differs(&other.playback)
    }

    /// The metadata and timeline this presence belongs to.
    pub fn generation(&self) -> (r: GenerationKey)
        ensures
            r.metadata_id@ == self.metadata_id@,
            r.timeline_id@ == self.timeline_id@,
    {
        GenerationKey {
            metadata_id: self.metadata_id.clone(),
            timeline_id: self.timeline_id.clone(),
        }
    }

    /// The presence for a snapshot that is playing a track with paired
    /// metadata and timing, given the anchor computed from its timing.
    pub fn from_player(snapshot: &PlayerSnapshot, anchor: Option<PlaybackAnchor>) -> (r: Option<
        Self,
    >)
        ensures
            match r {
                Some(p) => spec_presence(*snapshot, anchor) == Some(p@),
                None => spec_presence(*snapshot, anchor) is None,
            },
    {
        let playing = match snapshot.playback {
            PlaybackStatus::Playing => true,
            _ => false,
        };
        if !playing || snapshot.paused {
            return None;
        }
        let metadata = match &snapshot.metadata {
            Some(m) => m,
            None => {
                return None;
            },
        };
        let metadata_id = match &snapshot.metadata_id {
            Some(id) => id.clone(),
            None => {
                return None;
            },
        };
        let timeline_id = match &snapshot.timeline_id {
            Some(id) => id.clone(),
            None => {
                return None;
            },
        };
        let timing_observation_id = match &snapshot.timing_observation_id {
            Some(id) => id.clone(),
            None => {
                return None;
            },
        };
        let paired = match &snapshot.timing_metadata_id {
            Some(t) => same_text(t.as_str(), metadata_id.as_str()),
            None => false,
        };
        if !paired {
            return None;
        }
        let title = normalize_required_text(
            match &metadata.title {
                Some(t) => Some(t.as_str()),
                None => None,
            },
            "Unknown title",
        );
        let artist = normalize_required_text(
            match &metadata.artist {
                Some(t) => Some(t.as_str()),
                None => None,
            },
            "Unknown artist",
        );
        let album = normalize_optional_text(
            match &metadata.album {
                Some(t) => Some(t.as_str()),
                None => None,
            },
        );
        let artwork = crate::media::select_artwork_url(metadata);
        let ghost web = last_web_artwork(metadata.artwork@, metadata.artwork@.len() as int);
        let artwork_url = if artwork.as_str().unicode_len() > 0 {
            Some(artwork)
        } else {
            None
        };
        proof {
            if web is Some {
                assert(web->0.len() > 0) by {
                    lemma_web_artwork_nonempty(metadata.artwork@, metadata.artwork@.len() as int);
                }
            }
        }
        let playback = match anchor {
            Some(a) => a,
            None => {
                return None;
            },
        };
        Some(
            PresenceSnapshot {
                track: TrackIdentity { title, artist, album },
                artwork_url,
                metadata_id,
                timeline_id,
                timing_observation_id,
                playback,
            },
        )
    }
}

proof fn lemma_web_artwork_nonempty(artwork: Seq<crate::player::Artwork>, n: int)
    requires
        last_web_artwork(artwork, n) is Some,
    ensures
        last_web_artwork(artwork, n)->0.len() > 0,
    decreases n,
{
    reveal_strlit("https://");
    reveal_strlit("http://");
    if n > 0 && n <= artwork.len() && !crate::media::is_web_address(artwork[n - 1].src@) {
        lemma_web_artwork_nonempty(artwork, n - 1);
    }
}

/// The presence for a snapshot, if it is playing a track whose metadata and
/// timing are paired and whose timing gave an anchor.
pub open spec fn spec_presence(s: PlayerSnapshot, anchor: Option<PlaybackAnchor>) -> Option<
    PresenceView,
> {
    if s.playback != PlaybackStatus::Playing || s.paused {
        None
    } else if s.metadata is None || s.metadata_id is None || s.timeline_id is None
        || s.timing_observation_id is None {
        None
    } else if text_view(s.timing_metadata_id) != text_view(s.metadata_id) {
        None
    } else if anchor is None {
        None
    } else {
        let m = s.metadata->0;
        Some(
            PresenceView {
                title: required_text(text_view(m.title), "Unknown title"@),
                artist: required_text(text_view(m.artist), "Unknown artist"@),
                album: optional_text(text_view(m.album)),
                artwork_url: last_web_artwork(m.artwork@, m.artwork@.len() as int),
                metadata_id: s.metadata_id->0@,
                timeline_id: s.timeline_id->0@,
                timing_observation_id: s.timing_observation_id->0@,
                playback: anchor->0,
            },
        )
    }
}

/// The metadata and timeline a snapshot reports when its timing is paired
/// with its metadata.
pub open spec fn spec_paired_generation(s: PlayerSnapshot) -> Option<(Seq<char>, Seq<char>)> {
    if s.metadata_id is None || s.timeline_id is None {
        None
    } else if text_view(s.timing_metadata_id) != text_view(s.metadata_id) {
        None
    } else {
        Some((s.metadata_id->0@, s.timeline_id->0@))
    }
}

impl GenerationKey {
    /// The generation of a snapshot whose timing is paired with its metadata.
    pub fn from_paired_snapshot(snapshot: &PlayerSnapshot) -> (r: Option<Self>)
        ensures
            match r {
                Some(k) => spec_paired_generation(*snapshot) == Some((k.metadata_id@, k.timeline_id@)),
                None => spec_paired_generation(*snapshot) is None,
            },
    {
        let metadata_id = match &snapshot.metadata_id {
            Some(id) => id.clone(),
            None => {
                return None;
            },
        };
        let paired = match &snapshot.timing_metadata_id {
            Some(t) => same_text(t.as_str(), metadata_id.as_str()),
            None => false,
        };
        if !paired {
            return None;
        }
        match &snapshot.timeline_id {
            Some(t) => Some(GenerationKey { metadata_id, timeline_id: t.clone() }),
            None => None,
        }
    }
}


// ---------------------------------------------------------------------------
// Transition guard
// ---------------------------------------------------------------------------

/// A new presence seen, and in how many distinct timing observations.
pub struct PendingPresence {
    candidate: PresenceSnapshot,
    observations: u8,
}

/// A pause on a new generation, and in how many observations.
pub struct PendingPause {
    generation: GenerationKey,
    observations: u8,
}

/// What the transition guard concludes from one snapshot.
#[derive(Debug, PartialEq, Eq)]
pub enum TransitionDecision {
    Ready(PresenceSnapshot),
    KeepVisible,
    Clear,
}

/// Holds YouTube Music's asynchronous track handoffs until metadata and
/// timing report the same generation in distinct observations. A pause on
/// the coherent generation clears at once; a pause on a new generation
/// needs two paired observations.
pub struct TransitionGuard {
    last_coherent: Option<PresenceSnapshot>,
    pending_presence: Option<PendingPresence>,
    pending_pause: Option<PendingPause>,
}

impl Default for TransitionGuard {
    fn default() -> (r: Self)
        ensures
            r@.last_coherent is None && r@.pending_presence is None && r@.pending_pause is None,
    {
        TransitionGuard { last_coherent: None, pending_presence: None, pending_pause: None }
    }
}

/// The state of the transition guard.
pub struct GuardView {
    pub last_coherent: Option<PresenceView>,
    pub pending_presence: Option<(PresenceView, u8)>,
    pub pending_pause: Option<((Seq<char>, Seq<char>), u8)>,
}

/// A pending candidate or pause has been seen exactly once: a second
/// observation settles it.
pub open spec fn guard_wf(g: GuardView) -> bool {
    &&& g.pending_presence matches Some(p) ==> p.1 == 1
    &&& g.pending_pause matches Some(p) ==> p.1 == 1
}

impl TransitionGuard {
    /// Every state the guard can be in has its pending observations counted
    /// once.
    #[verifier::type_invariant]
    spec fn pending_seen_once(self) -> bool {
        guard_wf(self@)
    }
}

/// A guard decision.
pub enum DecisionView {
    Ready(PresenceView),
    KeepVisible,
    Clear,
}

impl View for TransitionGuard {
    type V = GuardView;

    closed spec fn view(&self) -> GuardView {
        GuardView {
            last_coherent: match self.last_coherent {
                Some(p) => Some(p@),
                None => None,
            },
            pending_presence: match self.pending_presence {
                Some(p) => Some((p.candidate@, p.observations)),
                None => None,
            },
            pending_pause: match self.pending_pause {
                Some(p) => Some(((p.generation.metadata_id@, p.generation.timeline_id@), p.observations)),
                None => None,
            },
        }
    }
}

impl View for TransitionDecision {
    type V = DecisionView;

    open spec fn view(&self) -> DecisionView {
        match self {
            TransitionDecision::Ready(p) => DecisionView::Ready(p@),
            TransitionDecision::KeepVisible => DecisionView::KeepVisible,
            TransitionDecision::Clear => DecisionView::Clear,
        }
    }
}

/// One more observation, saturating.
pub open spec fn one_more(n: u8) -> u8 {
    if n < 255 {
        (n + 1) as u8
    } else {
        255
    }
}

fn increment(n: u8) -> (r: u8)
    ensures
        r == one_more(n),
{
    if n < 255 {
        n + 1
    } else {
        255
    }
}

/// The guard's response to a paused or stopped snapshot.
pub open spec fn guard_paused(g: GuardView, s: PlayerSnapshot) -> (GuardView, DecisionView) {
    let g1 = GuardView { pending_presence: None, ..g };
    match g1.last_coherent {
        None => (GuardView { pending_pause: None, ..g1 }, DecisionView::Clear),
        Some(c) => {
            let metadata_changed = text_view(s.metadata_id) != Some(c.metadata_id);
            let timeline_changed = text_view(s.timeline_id) != Some(c.timeline_id);
            let timing_unpaired = text_view(s.timing_metadata_id) != text_view(s.metadata_id);
            if !metadata_changed && !timeline_changed && !timing_unpaired {
                (GuardView { pending_pause: None, ..g1 }, DecisionView::Clear)
            } else {
                match spec_paired_generation(s) {
                    None => (GuardView { pending_pause: None, ..g1 }, DecisionView::KeepVisible),
                    Some(generation) => {
                        let observations = match g1.pending_pause {
                            Some(pending) => if pending.0 == generation {
                                one_more(pending.1)
                            } else {
                                1u8
                            },
                            None => 1u8,
                        };
                        if observations >= TRANSITION_PAUSE_STABILITY_OBSERVATIONS {
                            (GuardView { pending_pause: None, ..g1 }, DecisionView::Clear)
                        } else {
                            (
                                GuardView { pending_pause: Some((generation, observations)), ..g1 },
                                DecisionView::KeepVisible,
                            )
                        }
                    },
                }
            }
        },
    }
}

/// The guard's response to a playing snapshot whose presence is `desired`.
pub open spec fn guard_playing(g: GuardView, desired: PresenceView) -> (GuardView, DecisionView) {
    match g.last_coherent {
        None => (GuardView { last_coherent: Some(desired), ..g }, DecisionView::Ready(desired)),
        Some(coherent) => {
            let generation_changed = !same_generation(desired, coherent);
            if !generation_changed || !presence_differs(coherent, desired) {
                (
                    GuardView { pending_presence: None, last_coherent: Some(desired), ..g },
                    DecisionView::Ready(desired),
                )
            } else {
                let observations = match g.pending_presence {
                    None => 1u8,
                    Some(pending) => {
                        let same_stable_candidate = same_generation(pending.0, desired)
                            && !presence_differs(pending.0, desired);
                        let new_timing_observation = pending.0.timing_observation_id
                            != desired.timing_observation_id;
                        if same_stable_candidate && new_timing_observation {
                            one_more(pending.1)
                        } else if same_stable_candidate {
                            pending.1
                        } else {
                            1u8
                        }
                    },
                };
                if observations >= TRANSITION_STABILITY_OBSERVATIONS {
                    (
                        GuardView { pending_presence: None, last_coherent: Some(desired), ..g },
                        DecisionView::Ready(desired),
                    )
                } else {
                    (
                        GuardView { pending_presence: Some((desired, observations)), ..g },
                        DecisionView::KeepVisible,
                    )
                }
            }
        },
    }
}

/// The guard's next state and decision for a snapshot.
pub open spec fn guard_step(g: GuardView, s: PlayerSnapshot, anchor: Option<PlaybackAnchor>) -> (
    GuardView,
    DecisionView,
) {
    if s.paused || s.playback != PlaybackStatus::Playing {
        guard_paused(g, s)
    } else {
        let g1 = GuardView { pending_pause: None, ..g };
        match spec_presence(s, anchor) {
            None => (GuardView { pending_presence: None, ..g1 }, DecisionView::KeepVisible),
            Some(desired) => guard_playing(g1, desired),
        }
    }
}

impl TransitionGuard {
    /// Decides whether a snapshot's presence is ready, should be held, or
    /// ends the presence.
    pub fn evaluate(&mut self, snapshot: &PlayerSnapshot, anchor: Option<PlaybackAnchor>) -> (r:
        TransitionDecision)
        ensures
            (final(self)@, r@) == guard_step(old(self)@, *snapshot, anchor),
            guard_wf(old(self)@),
            guard_wf(final(self)@),
    {
        proof {
            use_type_invariant(&*self);
        }
        let playing = match snapshot.playback {
            PlaybackStatus::Playing => true,
            _ => false,
        };
        if snapshot.paused || !playing {
            return self.evaluate_paused(snapshot);
        }
        self.pending_pause = None;
        let desired = match PresenceSnapshot::from_player(snapshot, anchor) {
            Some(d) => d,
            None => {
                self.pending_presence = None;
                return TransitionDecision::KeepVisible;
            },
        };
        let (generation_changed, differs) = match &self.last_coherent {
            None => {
                self.last_coherent = Some(clone_presence(&desired));
                return TransitionDecision::Ready(desired);
            },
            Some(coherent) => {
                let changed = !same_text(desired.metadata_id.as_str(), coherent.metadata_id.as_str())
                    || !same_text(desired.timeline_id.as_str(), coherent.timeline_id.as_str());
                (changed, coherent.materially_differs(&desired))
            },
        };
        if !generation_changed || !differs {
            self.pending_presence = None;
            self.last_coherent = Some(clone_presence(&desired));
            return TransitionDecision::Ready(desired);
        }
        let observations = match &self.pending_presence {
            None => 1u8,
            Some(pending) => {
                let same_stable_candidate = same_text(
                    pending.candidate.metadata_id.as_str(),
                    desired.metadata_id.as_str(),
                ) && same_text(pending.candidate.timeline_id.as_str(), desired.timeline_id.as_str())
                    && !pending.candidate.materially_differs(&desired);
                let new_timing_observation = !same_text(
                    pending.candidate.timing_observation_id.as_str(),
                    desired.timing_observation_id.as_str(),
                );
                if same_stable_candidate && new_timing_observation {
                    increment(pending.observations)
                } else if same_stable_candidate {
                    pending.observations
                } else {
                    1u8
                }
            },
        };
        if observations >= TRANSITION_STABILITY_OBSERVATIONS {
            self.pending_presence = None;
            self.last_coherent = Some(clone_presence(&desired));
            TransitionDecision::Ready(desired)
        } else {
            self.pending_presence = Some(PendingPresence { candidate: desired, observations });
            TransitionDecision::KeepVisible
        }
    }

    fn evaluate_paused(&mut self, snapshot: &PlayerSnapshot) -> (r: TransitionDecision)
        ensures
            (final(self)@, r@) == guard_paused(old(self)@, *snapshot),
            guard_wf(final(self)@),
    {
        proof {
            use_type_invariant(&*self);
        }
        self.pending_presence = None;
        let (metadata_changed, timeline_changed) = match &self.last_coherent {
            None => {
                self.pending_pause = None;
                return TransitionDecision::Clear;
            },
            Some(coherent) => {
                let metadata_changed = match &snapshot.metadata_id {
                    Some(id) => !same_text(id.as_str(), coherent.metadata_id.as_str()),
                    None => true,
                };
                let timeline_changed = match &snapshot.timeline_id {
                    Some(id) => !same_text(id.as_str(), coherent.timeline_id.as_str()),
                    None => true,
                };
                (metadata_changed, timeline_changed)
            },
        };
        let timing_unpaired = !same_optional_text(
            &snapshot.timing_metadata_id,
            &snapshot.metadata_id,
        );
        if !metadata_changed && !timeline_changed && !timing_unpaired {
            self.pending_pause = None;
            return TransitionDecision::Clear;
        }
        let generation = match GenerationKey::from_paired_snapshot(snapshot) {
            Some(g) => g,
            None => {
                self.pending_pause = None;
                return TransitionDecision::KeepVisible;
            },
        };
        let observations = match &self.pending_pause {
            Some(pending) => {
                if same_text(pending.generation.metadata_id.as_str(), generation.metadata_id.as_str())
                    && same_text(
                    pending.generation.timeline_id.as_str(),
                    generation.timeline_id.as_str(),
                ) {
                    increment(pending.observations)
                } else {
                    1u8
                }
            },
            None => 1u8,
        };
        if observations >= TRANSITION_PAUSE_STABILITY_OBSERVATIONS {
            self.pending_pause = None;
            TransitionDecision::Clear
        } else {
            self.pending_pause = Some(PendingPause { generation, observations });
            TransitionDecision::KeepVisible
        }
    }
}

// ---------------------------------------------------------------------------
// Activity planner
// ---------------------------------------------------------------------------

/// What to do with the Discord activity after a snapshot.
#[derive(Debug, PartialEq, Eq)]
pub enum ActivityPlan {
    Publish(PresenceSnapshot),
    Hold,
    Clear,
    Ignore,
}

/// A plan.
pub enum PlanView {
    Publish(PresenceView),
    Hold,
    Clear,
    Ignore,
}

impl View for ActivityPlan {
    type V = PlanView;

    open spec fn view(&self) -> PlanView {
        match self {
            ActivityPlan::Publish(p) => PlanView::Publish(p@),
            ActivityPlan::Hold => PlanView::Hold,
            ActivityPlan::Clear => PlanView::Clear,
            ActivityPlan::Ignore => PlanView::Ignore,
        }
    }
}

/// Turns guard decisions into Discord writes, skipping writes that would
/// not change what Discord shows.
pub struct ActivityPlanner {
    transition: TransitionGuard,
    visible: bool,
    last_published: Option<PresenceSnapshot>,
}

/// The state of the planner.
pub struct PlannerView {
    pub guard: GuardView,
    pub visible: bool,
    pub last_published: Option<PresenceView>,
}

impl View for ActivityPlanner {
    type V = PlannerView;

    closed spec fn view(&self) -> PlannerView {
        PlannerView {
            guard: self.transition@,
            visible: self.visible,
            last_published: match self.last_published {
                Some(p) => Some(p@),
                None => None,
            },
        }
    }
}

impl Default for ActivityPlanner {
    fn default() -> (r: Self)
        ensures
            !r@.visible,
            r@.last_published is None,
            r@.guard.last_coherent is None,
            r@.guard.pending_presence is None,
            r@.guard.pending_pause is None,
    {
        ActivityPlanner { transition: TransitionGuard::default(), visible: false, last_published: None }
    }
}

/// The planner's next state and plan for a snapshot.
pub open spec fn planner_step(p: PlannerView, s: PlayerSnapshot, anchor: Option<PlaybackAnchor>) -> (
    PlannerView,
    PlanView,
) {
    let (g, decision) = guard_step(p.guard, s, anchor);
    let next = PlannerView { guard: g, ..p };
    let plan = match decision {
        DecisionView::Ready(desired) => {
            let changed = match p.last_published {
                None => true,
                Some(previous) => presence_differs(previous, desired),
            };
            if p.visible && !changed {
                PlanView::Ignore
            } else {
                PlanView::Publish(desired)
            }
        },
        DecisionView::KeepVisible => PlanView::Hold,
        DecisionView::Clear => if p.visible {
            PlanView::Clear
        } else {
            PlanView::Ignore
        },
    };
    (next, plan)
}

/// The planner after `published` was written to Discord.
pub open spec fn after_publish(p: PlannerView, published: PresenceView) -> PlannerView {
    PlannerView { visible: true, last_published: Some(published), ..p }
}

/// The planner after the activity was cleared or the connection lost.
pub open spec fn after_hide(p: PlannerView) -> PlannerView {
    PlannerView { visible: false, ..p }
}

impl ActivityPlanner {
    /// The plan for a snapshot.
    pub fn evaluate(&mut self, snapshot: &PlayerSnapshot, anchor: Option<PlaybackAnchor>) -> (r:
        ActivityPlan)
        ensures
            (final(self)@, r@) == planner_step(old(self)@, *snapshot, anchor),
            guard_wf(old(self)@.guard),
            guard_wf(final(self)@.guard),
    {
        match self.transition.evaluate(snapshot, anchor) {
            TransitionDecision::Ready(desired) => {
                let changed = match &self.last_published {
                    None => true,
                    Some(previous) => previous.materially_differs(&desired),
                };
                if self.visible && !changed {
                    ActivityPlan::Ignore
                } else {
                    ActivityPlan::Publish(desired)
                }
            },
            TransitionDecision::KeepVisible => ActivityPlan::Hold,
            TransitionDecision::Clear => {
                if self.visible {
                    ActivityPlan::Clear
                } else {
                    ActivityPlan::Ignore
                }
            },
        }
    }

    /// Whether an activity is shown on Discord.
    pub fn is_visible(&self) -> (r: bool)
        ensures
            r == self@.visible,
    {
        self.visible
    }

    /// Records that `published` is now shown.
    pub fn mark_published(&mut self, published: PresenceSnapshot)
        ensures
            final(self)@ == after_publish(old(self)@, published@),
    {
        self.visible = true;
        self.last_published = Some(published);
    }

    /// Records that nothing is shown.
    pub fn mark_hidden(&mut self)
        ensures
            final(self)@ == after_hide(old(self)@),
    {
        self.visible = false;
    }
}

// ---------------------------------------------------------------------------
// Laws of the planner
// ---------------------------------------------------------------------------

proof fn lemma_presence_differs_irreflexive(d: PresenceView)
    ensures
        !presence_differs(d, d),
{
}

/// Once a published presence has been recorded, the same snapshot again
/// asks for no write.
pub proof fn law_republishing_is_ignored(
    p: PlannerView,
    s: PlayerSnapshot,
    anchor: Option<PlaybackAnchor>,
    d: PresenceView,
)
    requires
        planner_step(p, s, anchor).1 == PlanView::Publish(d),
    ensures
        planner_step(after_publish(planner_step(p, s, anchor).0, d), s, anchor).1 == PlanView::Ignore,
{
    lemma_presence_differs_irreflexive(d);
}

/// A clear is planned only while an activity is shown.
pub proof fn law_clear_only_when_visible(
    p: PlannerView,
    s: PlayerSnapshot,
    anchor: Option<PlaybackAnchor>,
)
    requires
        planner_step(p, s, anchor).1 == PlanView::Clear,
    ensures
        p.visible,
{
}

/// What is published is the presence of the snapshot itself: it is playing
/// a track whose metadata and timing are paired.
pub proof fn law_publish_shows_the_snapshot(
    p: PlannerView,
    s: PlayerSnapshot,
    anchor: Option<PlaybackAnchor>,
    d: PresenceView,
)
    requires
        planner_step(p, s, anchor).1 == PlanView::Publish(d),
    ensures
        spec_presence(s, anchor) == Some(d),
        s.playback == PlaybackStatus::Playing && !s.paused,
{
}

/// Evaluating a snapshot never changes what the planner believes Discord
/// shows; only `mark_published` and `mark_hidden` do.
pub proof fn law_evaluation_keeps_visibility(
    p: PlannerView,
    s: PlayerSnapshot,
    anchor: Option<PlaybackAnchor>,
)
    ensures
        planner_step(p, s, anchor).0.visible == p.visible,
        planner_step(p, s, anchor).0.last_published == p.last_published,
{
}

/// A pause of the track last seen coherent, with paired timing, clears a
/// shown activity at once.
pub proof fn law_manual_pause_clears_immediately(
    p: PlannerView,
    s: PlayerSnapshot,
    anchor: Option<PlaybackAnchor>,
    c: PresenceView,
)
    requires
        p.visible,
        p.guard.last_coherent == Some(c),
        s.paused,
        text_view(s.metadata_id) == Some(c.metadata_id),
        text_view(s.timeline_id) == Some(c.timeline_id),
        text_view(s.timing_metadata_id) == text_view(s.metadata_id),
    ensures
        planner_step(p, s, anchor).1 == PlanView::Clear,
{
}

/// The first sighting of a new track that differs from the coherent one is
/// held, not published.
pub proof fn law_new_track_is_held_at_first_sight(
    p: PlannerView,
    s: PlayerSnapshot,
    anchor: Option<PlaybackAnchor>,
    c: PresenceView,
    d: PresenceView,
)
    requires
        p.guard.last_coherent == Some(c),
        p.guard.pending_presence is None,
        spec_presence(s, anchor) == Some(d),
        !same_generation(d, c),
        presence_differs(c, d),
    ensures
        planner_step(p, s, anchor).1 == PlanView::Hold,
{
}

/// A new track that differs from the coherent one is published once a
/// second observation of the same candidate arrives with a new timing
/// observation.
pub proof fn law_new_track_is_ready_on_a_second_distinct_observation(
    g: GuardView,
    s: PlayerSnapshot,
    anchor: Option<PlaybackAnchor>,
    c: PresenceView,
    first: PresenceView,
    d: PresenceView,
)
    requires
        g.last_coherent == Some(c),
        g.pending_presence == Some((first, 1u8)),
        !s.paused,
        s.playback == PlaybackStatus::Playing,
        spec_presence(s, anchor) == Some(d),
        !same_generation(d, c),
        presence_differs(c, d),
        same_generation(first, d),
        !presence_differs(first, d),
        first.timing_observation_id != d.timing_observation_id,
    ensures
        guard_step(g, s, anchor).1 == DecisionView::Ready(d),
        guard_step(g, s, anchor).0.last_coherent == Some(d),
        guard_step(g, s, anchor).0.pending_presence is None,
{
}

/// Seeing the same candidate again with the same timing observation does
/// not count as a second observation: it stays held.
pub proof fn law_repeated_timing_observation_stays_held(
    g: GuardView,
    s: PlayerSnapshot,
    anchor: Option<PlaybackAnchor>,
    c: PresenceView,
    first: PresenceView,
    d: PresenceView,
)
    requires
        g.last_coherent == Some(c),
        g.pending_presence == Some((first, 1u8)),
        !s.paused,
        s.playback == PlaybackStatus::Playing,
        spec_presence(s, anchor) == Some(d),
        !same_generation(d, c),
        presence_differs(c, d),
        same_generation(first, d),
        !presence_differs(first, d),
        first.timing_observation_id == d.timing_observation_id,
    ensures
        guard_step(g, s, anchor).1 == DecisionView::KeepVisible,
        guard_step(g, s, anchor).0.last_coherent == Some(c),
        guard_step(g, s, anchor).0.pending_presence == Some((d, 1u8)),
{
}

/// A playing snapshot of the coherent track, or one that shows the same as
/// the coherent presence, is ready at once.
pub proof fn law_coherent_track_is_ready_at_once(
    g: GuardView,
    s: PlayerSnapshot,
    anchor: Option<PlaybackAnchor>,
    c: PresenceView,
    d: PresenceView,
)
    requires
        g.last_coherent == Some(c),
        !s.paused,
        s.playback == PlaybackStatus::Playing,
        spec_presence(s, anchor) == Some(d),
        same_generation(d, c) || !presence_differs(c, d),
    ensures
        guard_step(g, s, anchor).1 == DecisionView::Ready(d),
        guard_step(g, s, anchor).0 == (GuardView {
            last_coherent: Some(d),
            pending_presence: None,
            pending_pause: None,
        }),
{
}

/// A pause reported on a new, paired generation is held at its first
/// observation and clears at the second observation of that generation.
pub proof fn law_pause_on_new_generation_needs_two_observations(
    g: GuardView,
    s1: PlayerSnapshot,
    s2: PlayerSnapshot,
    anchor: Option<PlaybackAnchor>,
    c: PresenceView,
    generation: (Seq<char>, Seq<char>),
)
    requires
        g.last_coherent == Some(c),
        g.pending_pause is None,
        s1.paused,
        s2.paused,
        spec_paired_generation(s1) == Some(generation),
        spec_paired_generation(s2) == Some(generation),
        generation != (c.metadata_id, c.timeline_id),
    ensures
        guard_step(g, s1, anchor).1 == DecisionView::KeepVisible,
        guard_step(guard_step(g, s1, anchor).0, s2, anchor).1 == DecisionView::Clear,
{
    assert(text_view(s1.metadata_id) == Some(generation.0));
    assert(text_view(s1.timeline_id) == Some(generation.1));
    assert(text_view(s2.metadata_id) == Some(generation.0));
    assert(text_view(s2.timeline_id) == Some(generation.1));
}

/// The pending candidate `pending` was seen before in the same generation,
/// showing the same as `d`, at another timing observation: `d` is its
/// second distinct observation.
pub open spec fn second_observation(pending: Option<(PresenceView, u8)>, d: PresenceView) -> bool {
    pending matches Some(q) && same_generation(q.0, d) && !presence_differs(q.0, d)
        && q.0.timing_observation_id != d.timing_observation_id
}

/// The rules of the guard for a playing snapshot, in every state it can be
/// in: with no presence it holds; with nothing coherent yet, or with the
/// coherent generation or a presence that shows the same, the presence is
/// ready at once; a different presence of a new generation is ready only at
/// its second distinct observation and held before; it never clears.
pub proof fn law_playing_rules(g: GuardView, s: PlayerSnapshot, anchor: Option<PlaybackAnchor>)
    requires
        guard_wf(g),
        !s.paused,
        s.playback == PlaybackStatus::Playing,
    ensures
        guard_step(g, s, anchor).1 != DecisionView::Clear,
        spec_presence(s, anchor) is None ==> guard_step(g, s, anchor).1 == DecisionView::KeepVisible,
        spec_presence(s, anchor) matches Some(d) ==> {
            let (g2, decision) = guard_step(g, s, anchor);
            match g.last_coherent {
                None => decision == DecisionView::Ready(d) && g2.last_coherent == Some(d),
                Some(c) => if same_generation(d, c) || !presence_differs(c, d) || second_observation(
                    g.pending_presence,
                    d,
                ) {
                    decision == DecisionView::Ready(d) && g2.last_coherent == Some(d)
                        && g2.pending_presence is None
                } else {
                    decision == DecisionView::KeepVisible && g2.last_coherent == Some(c)
                        && g2.pending_presence == Some((d, 1u8))
                },
            }
        },
{
}

/// The rules of the guard for a paused or stopped snapshot, in every state
/// it can be in: with nothing coherent it clears; a pause of the coherent
/// generation with paired timing clears at once; an unpaired one holds; a
/// paired pause of another generation clears exactly when the previous
/// snapshot was a pause of that same generation, and is held otherwise; it
/// is never ready.
pub proof fn law_pause_rules(g: GuardView, s: PlayerSnapshot, anchor: Option<PlaybackAnchor>)
    requires
        guard_wf(g),
        s.paused || s.playback != PlaybackStatus::Playing,
    ensures
        !(guard_step(g, s, anchor).1 is Ready),
        g.last_coherent is None ==> guard_step(g, s, anchor).1 == DecisionView::Clear,
        g.last_coherent matches Some(c) ==> {
            let (g2, decision) = guard_step(g, s, anchor);
            if text_view(s.metadata_id) == Some(c.metadata_id) && text_view(s.timeline_id) == Some(
                c.timeline_id,
            ) && text_view(s.timing_metadata_id) == text_view(s.metadata_id) {
                decision == DecisionView::Clear
            } else {
                match spec_paired_generation(s) {
                    None => decision == DecisionView::KeepVisible,
                    Some(generation) => if g.pending_pause matches Some(q) && q.0 == generation {
                        decision == DecisionView::Clear && g2.pending_pause is None
                    } else {
                        decision == DecisionView::KeepVisible && g2.pending_pause == Some(
                            (generation, 1u8),
                        )
                    },
                }
            }
        },
{
}

/// A ready presence that shows another title, artist, album or artwork
/// than the one last published is published, even while an activity is
/// shown: a corrected artist reaches Discord.
pub proof fn law_changed_text_is_published(
    p: PlannerView,
    s: PlayerSnapshot,
    anchor: Option<PlaybackAnchor>,
    d: PresenceView,
    q: PresenceView,
)
    requires
        guard_step(p.guard, s, anchor).1 == DecisionView::Ready(d),
        p.last_published == Some(q),
        d.title != q.title || d.artist != q.artist || d.album != q.album || d.artwork_url
            != q.artwork_url,
    ensures
        planner_step(p, s, anchor).1 == PlanView::Publish(d),
{
}

/// A ready presence whose playback anchor materially differs from the one
/// last published, after a seek for instance, is published.
pub proof fn law_moved_anchor_is_published(
    p: PlannerView,
    s: PlayerSnapshot,
    anchor: Option<PlaybackAnchor>,
    d: PresenceView,
    q: PresenceView,
)
    requires
        guard_step(p.guard, s, anchor).1 == DecisionView::Ready(d),
        p.last_published == Some(q),
        anchor_differs(q.playback, d.playback),
    ensures
        planner_step(p, s, anchor).1 == PlanView::Publish(d),
{
}

/// While an activity is shown, a ready presence with the same title,
/// artist, album and artwork as the one last published, and an anchor that
/// does not materially differ, asks for no write, whatever its identifiers.
pub proof fn law_unchanged_text_is_ignored(
    p: PlannerView,
    s: PlayerSnapshot,
    anchor: Option<PlaybackAnchor>,
    d: PresenceView,
    q: PresenceView,
)
    requires
        p.visible,
        guard_step(p.guard, s, anchor).1 == DecisionView::Ready(d),
        p.last_published == Some(q),
        d.title == q.title,
        d.artist == q.artist,
        d.album == q.album,
        d.artwork_url == q.artwork_url,
        !anchor_differs(q.playback, d.playback),
    ensures
        planner_step(p, s, anchor).1 == PlanView::Ignore,
{
}

/// Whether one anchor materially differs from another does not depend on
/// their order.
pub proof fn law_anchor_difference_is_symmetric(a: PlaybackAnchor, b: PlaybackAnchor)
    ensures
        anchor_differs(a, b) == anchor_differs(b, a),
{
}

// ---------------------------------------------------------------------------
// Write rate limit
// ---------------------------------------------------------------------------

/// `now - then`, or zero when `then` is later.
pub open spec fn elapsed(now: u64, then: u64) -> u64 {
    if now >= then {
        (now - then) as u64
    } else {
        0
    }
}

/// The writes left after dropping those, from the oldest on, that are a
/// full window or more before `now`.
pub open spec fn within_window(writes: Seq<u64>, now: u64) -> Seq<u64>
    decreases writes.len(),
{
    if writes.len() > 0 && elapsed(now, writes[0]) >= DISCORD_RATE_LIMIT_WINDOW_MILLIS {
        within_window(writes.drop_first(), now)
    } else {
        writes
    }
}

/// Pruning keeps a suffix of the writes: every dropped write is a full
/// window or more before `now`, and when the writes are in time order,
/// every kept one is inside the window.
pub proof fn law_window_keeps_exactly_the_recent_writes(writes: Seq<u64>, now: u64)
    ensures
        within_window(writes, now).len() <= writes.len(),
        within_window(writes, now) == writes.skip(
            writes.len() - within_window(writes, now).len(),
        ),
        forall|i: int|
            0 <= i < writes.len() - within_window(writes, now).len() ==> elapsed(
                now,
                #[trigger] writes[i],
            ) >= DISCORD_RATE_LIMIT_WINDOW_MILLIS,
        (forall|i: int, j: int| 0 <= i <= j < writes.len() ==> writes[i] <= writes[j]) ==> forall|
            i: int,
        |
            writes.len() - within_window(writes, now).len() <= i < writes.len() ==> elapsed(
                now,
                #[trigger] writes[i],
            ) < DISCORD_RATE_LIMIT_WINDOW_MILLIS,
    decreases writes.len(),
{
    if writes.len() > 0 && elapsed(now, writes[0]) >= DISCORD_RATE_LIMIT_WINDOW_MILLIS {
        let rest = writes.drop_first();
        law_window_keeps_exactly_the_recent_writes(rest, now);
        let n = writes.len() - within_window(writes, now).len();
        assert(within_window(writes, now) == within_window(rest, now));
        assert(rest.skip(rest.len() - within_window(rest, now).len()) =~= writes.skip(n));
        assert forall|i: int| 0 <= i < n implies elapsed(now, #[trigger] writes[i])
            >= DISCORD_RATE_LIMIT_WINDOW_MILLIS by {
            if i > 0 {
                assert(writes[i] == rest[i - 1]);
            }
        }
        if forall|i: int, j: int| 0 <= i <= j < writes.len() ==> writes[i] <= writes[j] {
            assert forall|i: int, j: int| 0 <= i <= j < rest.len() implies rest[i] <= rest[j] by {
                assert(rest[i] == writes[i + 1]);
                assert(rest[j] == writes[j + 1]);
            }
            assert forall|i: int| n <= i < writes.len() implies elapsed(now, #[trigger] writes[i])
                < DISCORD_RATE_LIMIT_WINDOW_MILLIS by {
                assert(writes[i] == rest[i - 1]);
            }
        }
    } else {
        assert(writes.skip(0) =~= writes);
        if forall|i: int, j: int| 0 <= i <= j < writes.len() ==> writes[i] <= writes[j] {
            assert forall|i: int| 0 <= i < writes.len() implies elapsed(now, #[trigger] writes[i])
                < DISCORD_RATE_LIMIT_WINDOW_MILLIS by {
                assert(writes[0] <= writes[i]);
            }
        }
    }
}

/// Whether a write at a time is inside the window that ends at `now`.
pub open spec fn inside_window(now: u64) -> spec_fn(u64) -> bool {
    |t: u64| elapsed(now, t) < DISCORD_RATE_LIMIT_WINDOW_MILLIS
}

proof fn lemma_filter_keeps_all(w: Seq<u64>, pred: spec_fn(u64) -> bool)
    requires
        forall|i: int| 0 <= i < w.len() ==> pred(#[trigger] w[i]),
    ensures
        w.filter(pred) == w,
    decreases w.len(),
{
    if w.len() == 0 {
        reveal(Seq::filter);
    } else {
        let rest = w.drop_first();
        assert forall|i: int| 0 <= i < rest.len() implies pred(#[trigger] rest[i]) by {
            assert(rest[i] == w[i + 1]);
        }
        lemma_filter_keeps_all(rest, pred);
        assert(w =~= seq![w[0]] + rest);
        rest.lemma_filter_prepend(w[0], pred);
        assert(pred(w[0]));
        assert(seq![w[0]] + rest =~= w);
    }
}

/// For writes in time order, pruning keeps exactly the writes inside the
/// window, in their order.
pub proof fn law_window_is_the_writes_inside_it(writes: Seq<u64>, now: u64)
    requires
        forall|i: int, j: int| 0 <= i <= j < writes.len() ==> writes[i] <= writes[j],
    ensures
        within_window(writes, now) == writes.filter(inside_window(now)),
    decreases writes.len(),
{
    let pred = inside_window(now);
    if writes.len() > 0 && elapsed(now, writes[0]) >= DISCORD_RATE_LIMIT_WINDOW_MILLIS {
        let rest = writes.drop_first();
        assert forall|i: int, j: int| 0 <= i <= j < rest.len() implies rest[i] <= rest[j] by {
            assert(rest[i] == writes[i + 1]);
            assert(rest[j] == writes[j + 1]);
        }
        law_window_is_the_writes_inside_it(rest, now);
        assert(writes =~= seq![writes[0]] + rest);
        rest.lemma_filter_prepend(writes[0], pred);
        assert(!pred(writes[0]));
        assert(Seq::<u64>::empty() + rest.filter(pred) =~= rest.filter(pred));
    } else {
        assert forall|i: int| 0 <= i < writes.len() implies pred(#[trigger] writes[i]) by {
            assert(writes[0] <= writes[i]);
        }
        lemma_filter_keeps_all(writes, pred);
    }
}

/// The times, in milliseconds, of the recent writes to Discord, oldest
/// first.
pub struct WriteRateLimiter {
    writes: VecDeque<u64>,
}

impl Default for WriteRateLimiter {
    fn default() -> (r: Self)
        ensures
            r.writes().len() == 0,
    {
        WriteRateLimiter { writes: VecDeque::new() }
    }
}

impl WriteRateLimiter {
    /// The recorded write times, oldest first.
    pub closed spec fn writes(self) -> Seq<u64> {
        self.writes@
    }

    /// Forgets the writes older than the window and tells whether fewer
    /// than `limit` remain.
    pub fn allows(&mut self, now: u64, limit: usize) -> (r: bool)
        ensures
            final(self).writes() == within_window(old(self).writes(), now),
            r == (within_window(old(self).writes(), now).len() < limit),
    {
        while self.writes.len() > 0 && now.saturating_sub(self.writes[0])
            >= DISCORD_RATE_LIMIT_WINDOW_MILLIS
            invariant
                within_window(old(self).writes(), now) == within_window(self.writes@, now),
            decreases self.writes@.len(),
        {
            self.writes.pop_front();
        }
        self.writes.len() < limit
    }

    /// An activity update may use all but the last write of a window.
    pub fn allows_activity_update(&mut self, now: u64) -> (r: bool)
        ensures
            final(self).writes() == within_window(old(self).writes(), now),
            r == (within_window(old(self).writes(), now).len() < DISCORD_MAX_WRITES_PER_WINDOW
                - 1),
    {
        self.allows(now, DISCORD_MAX_WRITES_PER_WINDOW - 1)
    }

    /// A clear may use the last write of a window.
    pub fn allows_clear(&mut self, now: u64) -> (r: bool)
        ensures
            final(self).writes() == within_window(old(self).writes(), now),
            r == (within_window(old(self).writes(), now).len() < DISCORD_MAX_WRITES_PER_WINDOW),
    {
        self.allows(now, DISCORD_MAX_WRITES_PER_WINDOW)
    }

    /// Records a write at `now`.
    pub fn record(&mut self, now: u64)
        ensures
            final(self).writes() == old(self).writes().push(now),
    {
        self.writes.push_back(now);
    }
}

/// The last write of a window is kept for a clear: whenever an activity
/// update is allowed, a clear at the same moment is allowed too.
pub proof fn law_update_leaves_room_for_a_clear(writes: Seq<u64>, now: u64)
    ensures
        within_window(writes, now).len() < DISCORD_MAX_WRITES_PER_WINDOW - 1 ==> within_window(
            writes,
            now,
        ).len() < DISCORD_MAX_WRITES_PER_WINDOW,
{
}

/// A write recorded after an allowed check keeps the writes of the window
/// within Discord's limit: at most five remain when the next check is made
/// at the same moment.
pub proof fn law_allowed_write_stays_within_limit(writes: Seq<u64>, now: u64, limit: usize)
    requires
        limit <= DISCORD_MAX_WRITES_PER_WINDOW,
        within_window(writes, now).len() < limit,
    ensures
        within_window(within_window(writes, now).push(now), now).len()
            <= DISCORD_MAX_WRITES_PER_WINDOW,
    decreases writes.len(),
{
    let w = within_window(writes, now);
    lemma_within_window_shrinks(w.push(now), now);
}

proof fn lemma_within_window_shrinks(writes: Seq<u64>, now: u64)
    ensures
        within_window(writes, now).len() <= writes.len(),
    decreases writes.len(),
{
    if writes.len() > 0 && elapsed(now, writes[0]) >= DISCORD_RATE_LIMIT_WINDOW_MILLIS {
        lemma_within_window_shrinks(writes.drop_first(), now);
    }
}

// ---------------------------------------------------------------------------
// The activity written to Discord
// ---------------------------------------------------------------------------

/// The fields of the Discord activity for a presence: a "Listening"
/// activity with the title, the artist, start and end times, a button to
/// YouTube Music, and the artwork (labelled with the album, or the title,
/// and linking to YouTube Music) when there is one.
#[derive(Debug, PartialEq, Eq)]
pub struct ActivityPayload {
    pub details: String,
    pub state: String,
    pub start: i64,
    pub end: i64,
    pub button_label: String,
    pub button_url: String,
    pub large_image: Option<String>,
    pub large_text: Option<String>,
    pub large_url: Option<String>,
}

/// The activity fields for a presence.
pub fn build_activity(presence: &PresenceSnapshot) -> (r: ActivityPayload)
    ensures
        r.details@ == presence.track.title@,
        r.state@ == presence.track.artist@,
        r.start == presence.playback.started_at,
        r.end == saturating_sum(presence.playback.started_at, presence.playback.duration),
        r.button_label@ == "Open YouTube Music"@,
        r.button_url@ == YOUTUBE_MUSIC_URL@,
        text_view(r.large_image) == text_view(presence.artwork_url),
        presence.artwork_url is Some ==> text_view(r.large_text) == Some(
            match presence.track.album {
                Some(a) => a@,
                None => presence.track.title@,
            },
        ),
        presence.artwork_url is None ==> r.large_text is None,
        presence.artwork_url is Some ==> text_view(r.large_url) == Some(YOUTUBE_MUSIC_URL@),
        presence.artwork_url is None ==> r.large_url is None,
{
    let large_text = match &presence.artwork_url {
        Some(_) => match &presence.track.album {
            Some(album) => Some(album.clone()),
            None => Some(presence.track.title.clone()),
        },
        None => None,
    };
    let large_url = match &presence.artwork_url {
        Some(_) => Some(String::from_str(YOUTUBE_MUSIC_URL)),
        None => None,
    };
    ActivityPayload {
        details: presence.track.title.clone(),
        state: presence.track.artist.clone(),
        start: presence.playback.started_at,
        end: presence.playback.ends_at(),
        button_label: String::from_str("Open YouTube Music"),
        button_url: String::from_str(YOUTUBE_MUSIC_URL),
        large_image: clone_text(&presence.artwork_url),
        large_text,
        large_url,
    }
}

/// The seconds since the Unix epoch by the system clock (`SystemTime::now`
/// and `duration_since(UNIX_EPOCH)`), or `None` when the clock is before the
/// epoch. Nothing is stated of the value: it is the time.
#[verifier::external_body]
fn system_time_seconds() -> (r: Option<u64>) {
    std::time::SystemTime::now().duration_since(std::time::UNIX_EPOCH).ok().map(|d| d.as_secs())
}

/// The Unix time for what the clock read: the seconds when there are some
/// and they fit an `i64`, otherwise `None`.
pub fn timestamp_from_clock(seconds: Option<u64>) -> (r: Option<i64>)
    ensures
        match seconds {
            Some(s) => if s <= i64::MAX {
                r == Some(s as i64)
            } else {
                r is None
            },
            None => r is None,
        },
{
    match seconds {
        Some(seconds) => {
            if seconds <= i64::MAX as u64 {
                Some(seconds as i64)
            } else {
                None
            }
        },
        None => None,
    }
}

/// The current Unix time in seconds, when it fits an `i64`. Whether there
/// is one depends on the system clock.
pub fn unix_timestamp_seconds() -> (r: Option<i64>)
    ensures
        r matches Some(t) ==> t >= 0,
{
    timestamp_from_clock(system_time_seconds())
}
} // verus!
