//! The diagnostic lines written when the player state changes.
use vstd::prelude::*;

use crate::player::{text_view, PlaybackStatus, PlayerSnapshot, spec_track_changed, track_changed};
use crate::player::same_optional_text;
use crate::text::concat_str;

verus! {

/// The name under which a playback state is logged.
pub open spec fn playback_name(p: PlaybackStatus) -> Seq<char> {
    match p {
        PlaybackStatus::Playing => "Playing"@,
        PlaybackStatus::Paused => "Paused"@,
        PlaybackStatus::Inactive => "Inactive"@,
    }
}

/// The name under which a playback state is logged.
pub fn playback_label(p: PlaybackStatus) -> (r: &'static str)
    ensures
        r@ == playback_name(p),
{
    match p {
        PlaybackStatus::Playing => "Playing",
        PlaybackStatus::Paused => "Paused",
        PlaybackStatus::Inactive => "Inactive",
    }
}

/// The line that reports the track of a snapshot.
pub open spec fn track_line(s: PlayerSnapshot) -> Seq<char> {
    match s.metadata {
        None => "[player] track metadata unavailable"@,
        Some(m) => "[player] track changed: "@ + match text_view(m.title) {
            Some(t) => t,
            None => "Unknown title"@,
        } + " — "@ + match text_view(m.artist) {
            Some(a) => a,
            None => "Unknown artist"@,
        },
    }
}

/// The line that reports the track of a snapshot.
pub fn track_change_message(snapshot: &PlayerSnapshot) -> (r: String)
    ensures
        r@ == track_line(*snapshot),
{
    match &snapshot.metadata {
        None => String::from_str("[player] track metadata unavailable"),
        Some(metadata) => {
            let mut line = String::from_str("[player] track changed: ");
            match &metadata.title {
                Some(t) => line.append(t.as_str()),
                None => line.append("Unknown title"),
            }
            line.append(" — ");
            match &metadata.artist {
                Some(a) => line.append(a.as_str()),
                None => line.append("Unknown artist"),
            }
            line
        },
    }
}

/// The line that reports a playback state, after `prefix`.
fn playback_line(prefix: &str, p: PlaybackStatus) -> (r: String)
    ensures
        r@ == prefix@ + playback_name(p),
{
    concat_str(prefix, playback_label(p))
}

/// The lines logged when the store accepts `current` after `previous`:
/// the track when it changed (title, artist or album) and the playback
/// state when it changed, or both for the first snapshot.
pub fn update_messages(previous: Option<&PlayerSnapshot>, current: &PlayerSnapshot) -> (r: Vec<
    String,
>)
    ensures
        match previous {
            None => r@.len() == 2 && r@[0]@ == track_line(*current) && r@[1]@
                == "[player] playback initialized: "@ + playback_name(current.playback),
            Some(p) => {
                let t = spec_track_changed(*p, *current);
                let c = p.playback != current.playback;
                &&& r@.len() == (if t { 1int } else { 0 }) + (if c { 1int } else { 0 })
                &&& t ==> r@[0]@ == track_line(*current)
                &&& c ==> r@[r@.len() - 1]@ == "[player] playback changed: "@ + playback_name(
                    current.playback,
                )
            },
        },
{
    let mut lines: Vec<String> = Vec::new();
    match previous {
        None => {
            lines.push(track_change_message(current));
            lines.push(playback_line("[player] playback initialized: ", current.playback));
        },
        Some(previous) => {
            if track_changed(previous, current) {
                lines.push(track_change_message(current));
            }
            if previous.playback != current.playback {
                lines.push(playback_line("[player] playback changed: ", current.playback));
            }
        },
    }
    lines
}

/// The track differs for the background observer: metadata appeared or
/// vanished, or its title or artist changed.
pub open spec fn spec_observed_track_changed(previous: PlayerSnapshot, current: PlayerSnapshot) -> bool {
    match (previous.metadata, current.metadata) {
        (None, None) => false,
        (Some(p), Some(c)) => text_view(p.title) != text_view(c.title) || text_view(p.artist)
            != text_view(c.artist),
        _ => true,
    }
}

/// Whether the observer sees a different track.
pub fn observed_track_changed(previous: &PlayerSnapshot, current: &PlayerSnapshot) -> (r: bool)
    ensures
        r == spec_observed_track_changed(*previous, *current),
{
    match (&previous.metadata, &current.metadata) {
        (None, None) => false,
        (Some(p), Some(c)) => !same_optional_text(&p.title, &c.title) || !same_optional_text(
            &p.artist,
            &c.artist,
        ),
        _ => true,
    }
}

/// The lines the background observer logs for a transition, as
/// `update_messages` but ignoring album changes.
pub fn state_transition_messages(previous: Option<&PlayerSnapshot>, current: &PlayerSnapshot) -> (r:
    Vec<String>)
    ensures
        match previous {
            None => r@.len() == 2 && r@[0]@ == track_line(*current) && r@[1]@
                == "[player] playback initialized: "@ + playback_name(current.playback),
            Some(p) => {
                let t = spec_observed_track_changed(*p, *current);
                let c = p.playback != current.playback;
                &&& r@.len() == (if t { 1int } else { 0 }) + (if c { 1int } else { 0 })
                &&& t ==> r@[0]@ == track_line(*current)
                &&& c ==> r@[r@.len() - 1]@ == "[player] playback changed: "@ + playback_name(
                    current.playback,
                )
            },
        },
{
    let mut lines: Vec<String> = Vec::new();
    match previous {
        None => {
            lines.push(track_change_message(current));
            lines.push(playback_line("[player] playback initialized: ", current.playback));
        },
        Some(previous) => {
            if observed_track_changed(previous, current) {
                lines.push(track_change_message(current));
            }
            if previous.playback != current.playback {
                lines.push(playback_line("[player] playback changed: ", current.playback));
            }
        },
    }
    lines
}

} // verus!
