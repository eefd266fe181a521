//! The player state that the YouTube Music page publishes, its validation,
//! and how consecutive snapshots are merged and compared.
//!
//! Playback position, duration and rate are floating-point values; the
//! checks on them are made by the caller and handed in as `TimingChecks`.
use vstd::prelude::*;

use crate::text::{chars_of, concat_str};
use vstd::utf8::encode_utf8;

verus! {

/// Identifiers longer than this many bytes are refused.
pub const MAX_OPAQUE_ID_LENGTH: usize = 64;

/// The playback state that the page reports.
#[derive(Debug, Clone, Copy, PartialEq, Eq, Structural)]
pub enum PlaybackStatus {
    Playing,
    Paused,
    Inactive,
}

/// One artwork image of a track.
#[derive(Debug, PartialEq, Eq)]
pub struct Artwork {
    pub src: String,
    pub sizes: Option<String>,
    pub image_type: Option<String>,
}

/// What the page knows about the current track.
#[derive(Debug, PartialEq, Eq)]
pub struct TrackMetadata {
    pub title: Option<String>,
    pub artist: Option<String>,
    pub album: Option<String>,
    pub artwork: Vec<Artwork>,
}

/// A snapshot of the player, without its floating-point timing fields.
#[derive(Debug, PartialEq, Eq)]
pub struct PlayerSnapshot {
    pub metadata: Option<TrackMetadata>,
    pub metadata_id: Option<String>,
    pub playback: PlaybackStatus,
    pub paused: bool,
    pub media_type: Option<String>,
    pub media_id: Option<String>,
    pub timeline_id: Option<String>,
    pub timing_metadata_id: Option<String>,
    pub timing_observation_id: Option<String>,
}

/// The outcome of the checks on the floating-point timing fields: the
/// position and duration are finite, non-negative and representable as a
/// `Duration`, and the playback rate is finite, positive and at most 16.
#[derive(Debug, Clone, Copy, PartialEq, Eq, Structural)]
pub struct TimingChecks {
    pub position_valid: bool,
    pub duration_valid: bool,
    pub playback_rate_valid: bool,
}

pub fn clone_text(s: &Option<String>) -> (r: Option<String>)
    ensures
        r == *s,
{
    match s {
        Some(t) => Some(t.clone()),
        None => None,
    }
}

impl Clone for Artwork {
    fn clone(&self) -> (r: Self)
        ensures
            r == *self,
    {
        Artwork {
            src: self.src.clone(),
            sizes: clone_text(&self.sizes),
            image_type: clone_text(&self.image_type),
        }
    }
}

pub fn clone_artwork(v: &Vec<Artwork>) -> (r: Vec<Artwork>)
    ensures
        r@ == v@,
{
    let mut out: Vec<Artwork> = Vec::new();
    let mut i: usize = 0;
    while i < v.len()
        invariant
            i <= v.len(),
            out@ == v@.take(i as int),
        decreases v.len() - i,
    {
        out.push(v[i].clone());
        i = i + 1;
        assert(out@ =~= v@.take(i as int));
    }
    assert(v@.take(v.len() as int) =~= v@);
    out
}

/// Two metadata values hold the same texts and artwork.
pub open spec fn same_metadata(a: TrackMetadata, b: TrackMetadata) -> bool {
    &&& a.title == b.title
    &&& a.artist == b.artist
    &&& a.album == b.album
    &&& a.artwork@ == b.artwork@
}

/// Two optional metadata values are both absent or hold the same.
pub open spec fn same_optional_metadata(a: Option<TrackMetadata>, b: Option<TrackMetadata>) -> bool {
    match (a, b) {
        (None, None) => true,
        (Some(x), Some(y)) => same_metadata(x, y),
        _ => false,
    }
}

/// Two snapshots hold the same values.
pub open spec fn same_snapshot(a: PlayerSnapshot, b: PlayerSnapshot) -> bool {
    &&& same_optional_metadata(a.metadata, b.metadata)
    &&& a.metadata_id == b.metadata_id
    &&& a.playback == b.playback
    &&& a.paused == b.paused
    &&& a.media_type == b.media_type
    &&& a.media_id == b.media_id
    &&& a.timeline_id == b.timeline_id
    &&& a.timing_metadata_id == b.timing_metadata_id
    &&& a.timing_observation_id == b.timing_observation_id
}

impl Clone for TrackMetadata {
    fn clone(&self) -> (r: Self)
        ensures
            same_metadata(r, *self),
    {
        TrackMetadata {
            title: clone_text(&self.title),
            artist: clone_text(&self.artist),
            album: clone_text(&self.album),
            artwork: clone_artwork(&self.artwork),
        }
    }
}

pub fn clone_metadata(m: &Option<TrackMetadata>) -> (r: Option<TrackMetadata>)
    ensures
        same_optional_metadata(r, *m),
{
    match m {
        Some(t) => Some(t.clone()),
        None => None,
    }
}

impl Clone for PlayerSnapshot {
    fn clone(&self) -> (r: Self)
        ensures
            same_snapshot(r, *self),
    {
        PlayerSnapshot {
            metadata: clone_metadata(&self.metadata),
            metadata_id: clone_text(&self.metadata_id),
            playback: self.playback,
            paused: self.paused,
            media_type: clone_text(&self.media_type),
            media_id: clone_text(&self.media_id),
            timeline_id: clone_text(&self.timeline_id),
            timing_metadata_id: clone_text(&self.timing_metadata_id),
            timing_observation_id: clone_text(&self.timing_observation_id),
        }
    }
}

/// An identifier is a non-empty string of at most 64 ASCII digits.
pub open spec fn opaque_id_valid(v: Seq<char>) -> bool {
    &&& v.len() > 0
    &&& encode_utf8(v).len() as usize <= MAX_OPAQUE_ID_LENGTH
    &&& forall|i: int| 0 <= i < v.len() ==> '0' <= #[trigger] v[i] && v[i] <= '9'
}

/// The problem with an optional identifier of the given kind, if any.
pub open spec fn opaque_id_problem(kind: Seq<char>, value: Option<String>) -> Option<Seq<char>> {
    match value {
        Some(v) => if opaque_id_valid(v@) {
            None
        } else {
            Some("invalid "@ + kind + " identifier"@)
        },
        None => None,
    }
}

/// The problem with an optional text longer than `max` bytes, if any.
pub open spec fn text_length_problem(field: Seq<char>, value: Option<String>, max: usize) -> Option<
    Seq<char>,
> {
    match value {
        Some(v) => if encode_utf8(v@).len() as usize > max {
            Some(field + " exceeds maximum length"@)
        } else {
            None
        },
        None => None,
    }
}

/// The first artwork whose source is longer than 4096 bytes, from `i` on.
pub open spec fn artwork_problem(artwork: Seq<Artwork>, i: int) -> Option<Seq<char>>
    decreases artwork.len() - i,
{
    if i < 0 || i >= artwork.len() {
        None
    } else if encode_utf8(artwork[i].src@).len() as usize > 4096 {
        Some("artwork URL is too long"@)
    } else {
        artwork_problem(artwork, i + 1)
    }
}

/// The first problem with the track metadata, if any.
pub open spec fn metadata_problem(metadata: TrackMetadata) -> Option<Seq<char>> {
    if let Some(m) = text_length_problem("title"@, metadata.title, 512) {
        Some(m)
    } else if let Some(m) = text_length_problem("artist"@, metadata.artist, 512) {
        Some(m)
    } else if let Some(m) = text_length_problem("album"@, metadata.album, 512) {
        Some(m)
    } else if metadata.artwork.len() > 8 {
        Some("too many artwork entries"@)
    } else {
        artwork_problem(metadata.artwork@, 0)
    }
}

/// The first problem validation finds in a snapshot, in the order in which
/// it checks: timing, paused state, identifiers, rate, then metadata.
pub open spec fn snapshot_problem(s: PlayerSnapshot, timing: TimingChecks) -> Option<Seq<char>> {
    if !timing.position_valid {
        Some("invalid playback position"@)
    } else if !timing.duration_valid {
        Some("invalid media duration"@)
    } else if s.paused != (s.playback != PlaybackStatus::Playing) {
        Some("playback and paused state are inconsistent"@)
    } else if let Some(m) = opaque_id_problem("metadata"@, s.metadata_id) {
        Some(m)
    } else if let Some(m) = opaque_id_problem("media"@, s.media_id) {
        Some(m)
    } else if let Some(m) = opaque_id_problem("timeline"@, s.timeline_id) {
        Some(m)
    } else if let Some(m) = opaque_id_problem("timing metadata"@, s.timing_metadata_id) {
        Some(m)
    } else if let Some(m) = opaque_id_problem("timing observation"@, s.timing_observation_id) {
        Some(m)
    } else if !timing.playback_rate_valid {
        Some("invalid playback rate"@)
    } else {
        match s.metadata {
            Some(m) => metadata_problem(m),
            None => None,
        }
    }
}

/// Accepts an absent identifier or a non-empty one of at most 64 ASCII
/// digits.
pub fn validate_opaque_id(kind: &str, value: &Option<String>) -> (r: Result<(), String>)
    ensures
        r is Ok <==> opaque_id_problem(kind@, *value) is None,
        r matches Err(e) ==> opaque_id_problem(kind@, *value) == Some(e@),
{
    let v = match value {
        None => {
            return Ok(());
        },
        Some(v) => v,
    };
    let chars = chars_of(v.as_str());
    let mut all_digits = true;
    let mut i: usize = 0;
    while i < chars.len()
        invariant
            i <= chars@.len(),
            all_digits == forall|k: int| 0 <= k < i ==> '0' <= #[trigger] chars@[k] && chars@[k] <= '9',
        decreases chars@.len() - i,
    {
        let c = chars[i];
        if !('0' <= c && c <= '9') {
            all_digits = false;
        }
        i = i + 1;
    }
    if chars.len() == 0 || v.as_str().len() > MAX_OPAQUE_ID_LENGTH || !all_digits {
        let mut message = concat_str("invalid ", kind);
        message.append(" identifier");
        return Err(message);
    }
    Ok(())
}

/// Accepts an absent text or one of at most `max_length` bytes.
pub fn validate_optional_string(field: &str, value: &Option<String>, max_length: usize) -> (r:
    Result<(), String>)
    ensures
        r is Ok <==> text_length_problem(field@, *value, max_length) is None,
        r matches Err(e) ==> text_length_problem(field@, *value, max_length) == Some(e@),
{
    match value {
        Some(v) => {
            if v.as_str().len() > max_length {
                let mut message = String::from_str(field);
                message.append(" exceeds maximum length");
                return Err(message);
            }
            Ok(())
        },
        None => Ok(()),
    }
}

fn validate_metadata(metadata: &TrackMetadata) -> (r: Result<(), String>)
    ensures
        r is Ok <==> metadata_problem(*metadata) is None,
        r matches Err(e) ==> metadata_problem(*metadata) == Some(e@),
{
    match validate_optional_string("title", &metadata.title, 512) {
        Err(e) => {
            return Err(e);
        },
        Ok(()) => {},
    }
    match validate_optional_string("artist", &metadata.artist, 512) {
        Err(e) => {
            return Err(e);
        },
        Ok(()) => {},
    }
    match validate_optional_string("album", &metadata.album, 512) {
        Err(e) => {
            return Err(e);
        },
        Ok(()) => {},
    }
    if metadata.artwork.len() > 8 {
        return Err(String::from_str("too many artwork entries"));
    }
    let mut i: usize = 0;
    while i < metadata.artwork.len()
        invariant
            i <= metadata.artwork@.len(),
            metadata_problem(*metadata) == artwork_problem(metadata.artwork@, 0),
            artwork_problem(metadata.artwork@, 0) == artwork_problem(metadata.artwork@, i as int),
        decreases metadata.artwork@.len() - i,
    {
        if metadata.artwork[i].src.as_str().len() > 4096 {
            return Err(String::from_str("artwork URL is too long"));
        }
        i = i + 1;
    }
    Ok(())
}

impl PlayerSnapshot {
    /// Refuses snapshots that the page could not have produced or that
    /// exceed the size limits; reports the first problem.
    pub fn validate(&self, timing: TimingChecks) -> (r: Result<(), String>)
        ensures
            r is Ok <==> snapshot_problem(*self, timing) is None,
            r matches Err(e) ==> snapshot_problem(*self, timing) == Some(e@),
    {
        if !timing.position_valid {
            return Err(String::from_str("invalid playback position"));
        }
        if !timing.duration_valid {
            return Err(String::from_str("invalid media duration"));
        }
        let expected_paused = match self.playback {
            PlaybackStatus::Playing => false,
            _ => true,
        };
        if self.paused != expected_paused {
            return Err(String::from_str("playback and paused state are inconsistent"));
        }
        match validate_opaque_id("metadata", &self.metadata_id) {
            Err(e) => {
                return Err(e);
            },
            Ok(()) => {},
        }
        match validate_opaque_id("media", &self.media_id) {
            Err(e) => {
                return Err(e);
            },
            Ok(()) => {},
        }
        match validate_opaque_id("timeline", &self.timeline_id) {
            Err(e) => {
                return Err(e);
            },
            Ok(()) => {},
        }
        match validate_opaque_id("timing metadata", &self.timing_metadata_id) {
            Err(e) => {
                return Err(e);
            },
            Ok(()) => {},
        }
        match validate_opaque_id("timing observation", &self.timing_observation_id) {
            Err(e) => {
                return Err(e);
            },
            Ok(()) => {},
        }
        if !timing.playback_rate_valid {
            return Err(String::from_str("invalid playback rate"));
        }
        match &self.metadata {
            Some(metadata) => validate_metadata(metadata),
            None => Ok(()),
        }
    }
}

/// Both snapshots name the same playback timeline.
pub open spec fn same_timeline(previous: PlayerSnapshot, next: PlayerSnapshot) -> bool {
    previous.timeline_id is Some && next.timeline_id is Some && previous.timeline_id->0@
        == next.timeline_id->0@
}

/// `r` is `next`, with the metadata of `previous` carried over when `next`
/// has none and both name the same playback timeline.
pub open spec fn merged_from(previous: Option<PlayerSnapshot>, next: PlayerSnapshot, r: PlayerSnapshot) -> bool {
    let carry = previous is Some && next.metadata is None && same_timeline(previous->0, next);
    &&& r.playback == next.playback
    &&& r.paused == next.paused
    &&& r.media_type == next.media_type
    &&& r.media_id == next.media_id
    &&& r.timeline_id == next.timeline_id
    &&& r.timing_metadata_id == next.timing_metadata_id
    &&& r.timing_observation_id == next.timing_observation_id
    &&& if carry {
        same_optional_metadata(r.metadata, previous->0.metadata) && r.metadata_id
            == previous->0.metadata_id
    } else {
        same_optional_metadata(r.metadata, next.metadata) && r.metadata_id == next.metadata_id
    }
}

fn optional_text_equal(a: &Option<String>, b: &Option<String>) -> (r: bool)
    ensures
        r == (a is Some && b is Some && a->0@ == b->0@),
{
    match (a, b) {
        (Some(x), Some(y)) => crate::localization::same_text(x.as_str(), y.as_str()),
        _ => false,
    }
}

/// YouTube Music can briefly clear its track metadata; the last known
/// metadata is kept only while both snapshots identify the same timeline.
pub fn preserve_metadata(previous: Option<&PlayerSnapshot>, next: PlayerSnapshot) -> (r:
    PlayerSnapshot)
    ensures
        merged_from(
            match previous {
                Some(p) => Some(*p),
                None => None,
            },
            next,
            r,
        ),
{
    let mut next = next;
    if next.metadata.is_none() {
        match previous {
            Some(previous_state) => {
                if optional_text_equal(&previous_state.timeline_id, &next.timeline_id) {
                    next.metadata = clone_metadata(&previous_state.metadata);
                    next.metadata_id = clone_text(&previous_state.metadata_id);
                }
            },
            None => {},
        }
    }
    next
}

/// The latest player snapshot.
pub struct PlayerStore {
    latest: Option<PlayerSnapshot>,
}

impl Default for PlayerStore {
    fn default() -> (r: Self)
        ensures
            r.latest() is None,
    {
        PlayerStore { latest: None }
    }
}

impl PlayerStore {
    /// The latest stored snapshot.
    pub closed spec fn latest(self) -> Option<PlayerSnapshot> {
        self.latest
    }

    /// The latest stored snapshot.
    pub fn current(&self) -> (r: Option<PlayerSnapshot>)
        ensures
            r is Some <==> self.latest() is Some,
            r matches Some(s) ==> same_snapshot(s, self.latest()->0),
    {
        match &self.latest {
            Some(s) => Some(s.clone()),
            None => None,
        }
    }

    /// Stores `next`, keeping the previous metadata across a metadata gap on
    /// the same timeline, and returns what was stored.
    pub fn update(&mut self, next: PlayerSnapshot) -> (r: Result<PlayerSnapshot, String>)
        ensures
            r matches Ok(s) && (merged_from(old(self).latest(), next, s) && (final(self).latest() matches Some(l) && same_snapshot(l, s))),
    {
        let merged = match &self.latest {
            Some(previous) => preserve_metadata(Some(previous), next),
            None => preserve_metadata(None, next),
        };
        self.latest = Some(merged.clone());
        Ok(merged)
    }
}

/// The characters of an optional text.
pub open spec fn text_view(t: Option<String>) -> Option<Seq<char>> {
    match t {
        Some(s) => Some(s@),
        None => None,
    }
}

/// The track differs: metadata appeared or vanished, or its title, artist
/// or album changed.
pub open spec fn spec_track_changed(previous: PlayerSnapshot, current: PlayerSnapshot) -> bool {
    match (previous.metadata, current.metadata) {
        (None, None) => false,
        (Some(p), Some(c)) => text_view(p.title) != text_view(c.title) || text_view(p.artist)
            != text_view(c.artist) || text_view(p.album) != text_view(c.album),
        _ => true,
    }
}

/// Whether two optional texts are equal.
pub fn same_optional_text(a: &Option<String>, b: &Option<String>) -> (r: bool)
    ensures
        r == (text_view(*a) == text_view(*b)),
{
    match (a, b) {
        (None, None) => true,
        (Some(x), Some(y)) => crate::localization::same_text(x.as_str(), y.as_str()),
        _ => false,
    }
}

/// Whether the current snapshot shows a different track than the previous.
pub fn track_changed(previous: &PlayerSnapshot, current: &PlayerSnapshot) -> (r: bool)
    ensures
        r == spec_track_changed(*previous, *current),
{
    match (&previous.metadata, &current.metadata) {
        (None, None) => false,
        (Some(p), Some(c)) => !same_optional_text(&p.title, &c.title) || !same_optional_text(
            &p.artist,
            &c.artist,
        ) || !same_optional_text(&p.album, &c.album),
        _ => true,
    }
}

} // verus!
