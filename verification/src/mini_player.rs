//! The narrow player state shown by the local Mini Player window and the
//! guard on its commands.
use vstd::prelude::*;

use crate::localization::same_text;
use crate::player::{Artwork, PlaybackStatus, PlayerSnapshot};
use crate::text::{trim, trim_str};

pub use crate::localization::MINI_PLAYER_WINDOW_LABEL;

verus! {

/// The event that carries a new Mini Player state.
pub const MINI_PLAYER_STATE_EVENT: &'static str = "mini-player-state";

/// The playback state shown by the Mini Player.
#[derive(Debug, Clone, Copy, PartialEq, Eq, Structural)]
pub enum MiniPlayerPlayback {
    Playing,
    Paused,
    Inactive,
}

/// The Mini Player shows the playback state as the page reports it.
pub open spec fn mini_playback(playback: PlaybackStatus) -> MiniPlayerPlayback {
    match playback {
        PlaybackStatus::Playing => MiniPlayerPlayback::Playing,
        PlaybackStatus::Paused => MiniPlayerPlayback::Paused,
        PlaybackStatus::Inactive => MiniPlayerPlayback::Inactive,
    }
}

impl<'a> From<&'a PlaybackStatus> for MiniPlayerPlayback {
    fn from(playback: &'a PlaybackStatus) -> (r: Self) {
        match playback {
            PlaybackStatus::Playing => MiniPlayerPlayback::Playing,
            PlaybackStatus::Paused => MiniPlayerPlayback::Paused,
            PlaybackStatus::Inactive => MiniPlayerPlayback::Inactive,
        }
    }
}

impl<'a> vstd::std_specs::convert::FromSpecImpl<&'a PlaybackStatus> for MiniPlayerPlayback {
    open spec fn obeys_from_spec() -> bool {
        true
    }

    open spec fn from_spec(v: &'a PlaybackStatus) -> Self {
        mini_playback(*v)
    }
}

/// Only the Mini Player window may read the player state or control it.
pub fn ensure_mini_player_window_label(label: &str) -> (r: Result<(), String>)
    ensures
        r is Ok <==> label@ == MINI_PLAYER_WINDOW_LABEL@,
        r matches Err(e) ==> e@ == "mini player commands are only available to the local Mini Player window"@,
{
    if same_text(label, MINI_PLAYER_WINDOW_LABEL) {
        Ok(())
    } else {
        Err(
            String::from_str(
                "mini player commands are only available to the local Mini Player window",
            ),
        )
    }
}

/// What `url::Url::parse` (the parser behind `tauri::Url`) makes of a text:
/// the scheme, whether there is a host, and the serialized URL.
pub uninterp spec fn parsed_url(text: Seq<char>) -> Option<(Seq<char>, bool, Seq<char>)>;

/// Parses `text` with `url::Url::parse` and hands out the URL's scheme,
/// whether `host_str` is present, and its serialization; `None` where
/// parsing fails. The contract ties the result to the text only through
/// the name `parsed_url`.
#[verifier::external_body]
fn parse_url(text: &str) -> (r: Option<(String, bool, String)>)
    ensures
        match r {
            Some(t) => parsed_url(text@) == Some((t.0@, t.1, t.2@)),
            None => parsed_url(text@) is None,
        },
{
    match url::Url::parse(text) {
        Ok(url) => Some((url.scheme().to_string(), url.host_str().is_some(), String::from(url))),
        Err(_) => None,
    }
}

/// What the URL parser's result allows: the serialization of an http(s)
/// URL with a host.
pub open spec fn url_outcome(parsed: Option<(Seq<char>, bool, Seq<char>)>) -> Option<Seq<char>> {
    match parsed {
        Some(p) => if (p.0 == "http"@ || p.0 == "https"@) && p.1 {
            Some(p.2)
        } else {
            None
        },
        None => None,
    }
}

/// The artwork address the Mini Player may load: a web URL with a host.
pub open spec fn allowed_url(value: Seq<char>) -> Option<Seq<char>> {
    url_outcome(parsed_url(trim(value)))
}

/// The values of a URL parser result.
pub open spec fn url_view(parsed: Option<(String, bool, String)>) -> Option<(Seq<char>, bool, Seq<char>)> {
    match parsed {
        Some(t) => Some((t.0@, t.1, t.2@)),
        None => None,
    }
}

/// The URL allowed by what the URL parser made of an artwork address.
pub fn artwork_url_from_parsed(parsed: Option<(String, bool, String)>) -> (r: Option<String>)
    ensures
        match r {
            Some(u) => url_outcome(url_view(parsed)) == Some(u@),
            None => url_outcome(url_view(parsed)) is None,
        },
{
    match parsed {
        Some((scheme, has_host, serialized)) => {
            if (same_text(scheme.as_str(), "http") || same_text(scheme.as_str(), "https"))
                && has_host {
                Some(serialized)
            } else {
                None
            }
        },
        None => None,
    }
}

/// The parsed and serialized `value` if it is an http(s) URL with a host.
pub fn allowed_artwork_url(value: &str) -> (r: Option<String>)
    ensures
        match r {
            Some(u) => allowed_url(value@) == Some(u@),
            None => allowed_url(value@) is None,
        },
{
    let trimmed = trim_str(value);
    artwork_url_from_parsed(parse_url(trimmed.as_str()))
}

/// The allowed URL of the last artwork among the first `n` that has one.
pub open spec fn last_allowed_artwork(artwork: Seq<Artwork>, n: int) -> Option<Seq<char>>
    decreases n,
{
    if n <= 0 || n > artwork.len() {
        None
    } else {
        match allowed_url(artwork[n - 1].src@) {
            Some(u) => Some(u),
            None => last_allowed_artwork(artwork, n - 1),
        }
    }
}

/// The track fields the Mini Player shows.
#[derive(Debug, PartialEq, Eq)]
pub struct MiniPlayerTrack {
    pub title: Option<String>,
    pub artist: Option<String>,
    pub artwork_url: Option<String>,
}

/// The last artwork entry with an allowed URL wins.
pub fn select_mini_player_artwork(artwork: &Vec<Artwork>) -> (r: Option<String>)
    ensures
        match r {
            Some(u) => last_allowed_artwork(artwork@, artwork@.len() as int) == Some(u@),
            None => last_allowed_artwork(artwork@, artwork@.len() as int) is None,
        },
{
    let mut n: usize = artwork.len();
    while n > 0
        invariant
            n <= artwork@.len(),
            last_allowed_artwork(artwork@, artwork@.len() as int) == last_allowed_artwork(
                artwork@,
                n as int,
            ),
        decreases n,
    {
        match allowed_artwork_url(artwork[n - 1].src.as_str()) {
            Some(url) => {
                return Some(url);
            },
            None => {},
        }
        n = n - 1;
    }
    None
}

/// The title, artist and artwork the Mini Player shows for a snapshot.
pub fn mini_player_track(snapshot: &PlayerSnapshot) -> (r: MiniPlayerTrack)
    ensures
        match snapshot.metadata {
            Some(m) => r.title == m.title && r.artist == m.artist && match r.artwork_url {
                Some(u) => last_allowed_artwork(m.artwork@, m.artwork@.len() as int) == Some(u@),
                None => last_allowed_artwork(m.artwork@, m.artwork@.len() as int) is None,
            },
            None => r.title is None && r.artist is None && r.artwork_url is None,
        },
{
    match &snapshot.metadata {
        Some(metadata) => MiniPlayerTrack {
            title: crate::player::clone_text(&metadata.title),
            artist: crate::player::clone_text(&metadata.artist),
            artwork_url: select_mini_player_artwork(&metadata.artwork),
        },
        None => MiniPlayerTrack { title: None, artist: None, artwork_url: None },
    }
}

} // verus!
