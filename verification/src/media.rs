//! The track description published to the operating system's media
//! controls: its artwork, a stable identifier, and its text fields.
use vstd::prelude::*;
use vstd::utf8::encode_utf8;

use crate::player::{Artwork, TrackMetadata};
use crate::text::{chars_of, push_char};

verus! {

/// The 64-bit FNV-1a offset basis.
pub const FNV_OFFSET_BASIS: u64 = 0xcbf29ce484222325;

/// The 64-bit FNV-1a prime.
pub const FNV_PRIME: u64 = 0x100000001b3;

/// `text` starts with `prefix`.
pub open spec fn starts_with(text: Seq<char>, prefix: Seq<char>) -> bool {
    prefix.len() <= text.len() && text.take(prefix.len() as int) == prefix
}

/// An artwork source the media controls accept: an http(s) address.
pub open spec fn is_web_address(src: Seq<char>) -> bool {
    starts_with(src, "https://"@) || starts_with(src, "http://"@)
}

/// The source of the last web artwork among the first `n` entries.
pub open spec fn last_web_artwork(artwork: Seq<Artwork>, n: int) -> Option<Seq<char>>
    decreases n,
{
    if n <= 0 || n > artwork.len() {
        None
    } else if is_web_address(artwork[n - 1].src@) {
        Some(artwork[n - 1].src@)
    } else {
        last_web_artwork(artwork, n - 1)
    }
}

/// Whether `text` starts with `prefix`.
pub fn has_prefix(text: &str, prefix: &str) -> (r: bool)
    ensures
        r == starts_with(text@, prefix@),
{
    let t = chars_of(text);
    let p = chars_of(prefix);
    if p.len() > t.len() {
        return false;
    }
    let mut i: usize = 0;
    while i < p.len()
        invariant
            t@ == text@,
            p@ == prefix@,
            p@.len() <= t@.len(),
            i <= p@.len(),
            forall|k: int| 0 <= k < i ==> t@[k] == p@[k],
        decreases p@.len() - i,
    {
        if t[i] != p[i] {
            assert(t@.take(p@.len() as int)[i as int] != p@[i as int]);
            return false;
        }
        i = i + 1;
    }
    assert(t@.take(p@.len() as int) =~= p@);
    true
}

/// The last artwork with a web address, or the empty text.
pub fn select_artwork_url(metadata: &TrackMetadata) -> (r: String)
    ensures
        match last_web_artwork(metadata.artwork@, metadata.artwork@.len() as int) {
            Some(u) => r@ == u,
            None => r@ == Seq::<char>::empty(),
        },
{
    let mut n: usize = metadata.artwork.len();
    while n > 0
        invariant
            n <= metadata.artwork@.len(),
            last_web_artwork(metadata.artwork@, metadata.artwork@.len() as int)
                == last_web_artwork(metadata.artwork@, n as int),
        decreases n,
    {
        let src = metadata.artwork[n - 1].src.as_str();
        if has_prefix(src, "https://") || has_prefix(src, "http://") {
            return metadata.artwork[n - 1].src.clone();
        }
        n = n - 1;
    }
    String::new()
}

/// 64-bit FNV-1a over `bytes`, starting from `hash`.
pub open spec fn fnv1a(hash: u64, bytes: Seq<u8>) -> u64
    decreases bytes.len(),
{
    if bytes.len() == 0 {
        hash
    } else {
        fnv1a((hash ^ (bytes[0] as u64)).wrapping_mul(FNV_PRIME), bytes.drop_first())
    }
}

/// The lower-case hexadecimal digit for `d < 16`.
pub open spec fn hex_digit(d: u64) -> char {
    if d < 10 {
        ((d + 48) as u32) as char
    } else {
        ((d + 87) as u32) as char
    }
}

/// The last `n` hexadecimal digits of `h`, most significant first.
pub open spec fn hex_digits(h: u64, n: nat) -> Seq<char>
    decreases n,
{
    if n == 0 {
        Seq::<char>::empty()
    } else {
        hex_digits(h / 16, (n - 1) as nat).push(hex_digit(h % 16))
    }
}

/// The identifier of a track: FNV-1a over the title's UTF-8 bytes, a zero
/// byte, and the artist's bytes, as 16 lower-case hexadecimal digits.
pub open spec fn track_id(title: Seq<char>, artist: Seq<char>) -> Seq<char> {
    hex_digits(
        fnv1a(FNV_OFFSET_BASIS, encode_utf8(title) + seq![0u8] + encode_utf8(artist)),
        16,
    )
}

proof fn lemma_fnv1a_append(hash: u64, a: Seq<u8>, b: Seq<u8>)
    ensures
        fnv1a(hash, a + b) == fnv1a(fnv1a(hash, a), b),
    decreases a.len(),
{
    if a.len() > 0 {
        assert((a + b).drop_first() =~= a.drop_first() + b);
        lemma_fnv1a_append((hash ^ (a[0] as u64)).wrapping_mul(FNV_PRIME), a.drop_first(), b);
    } else {
        assert(a + b =~= b);
    }
}

fn fnv1a_over(hash: u64, bytes: &[u8]) -> (r: u64)
    ensures
        r == fnv1a(hash, bytes@),
{
    let mut h = hash;
    let mut i: usize = 0;
    assert(bytes@.skip(0) =~= bytes@);
    while i < bytes.len()
        invariant
            i <= bytes@.len(),
            fnv1a(hash, bytes@) == fnv1a(h, bytes@.skip(i as int)),
        decreases bytes@.len() - i,
    {
        proof {
            assert(bytes@.skip(i as int).drop_first() =~= bytes@.skip(i + 1));
        }
        h = (h ^ (bytes[i] as u64)).wrapping_mul(FNV_PRIME);
        i = i + 1;
    }
    assert(bytes@.skip(bytes@.len() as int) =~= Seq::<u8>::empty());
    h
}

fn hex_digit_char(d: u64) -> (r: char)
    requires
        d < 16,
    ensures
        r == hex_digit(d),
{
    if d < 10 {
        let b = (d + 48) as u8;
        proof {
            assert((b as char) as u32 == (d + 48) as u32);
        }
        b as char
    } else {
        let b = (d + 87) as u8;
        proof {
            assert((b as char) as u32 == (d + 87) as u32);
        }
        b as char
    }
}

fn hex_into(h: u64, n: usize) -> (r: String)
    ensures
        r@ == hex_digits(h, n as nat),
    decreases n,
{
    if n == 0 {
        String::new()
    } else {
        let mut s = hex_into(h / 16, n - 1);
        push_char(&mut s, hex_digit_char(h % 16));
        s
    }
}

/// A stable identifier derived from the fields that identify a track.
pub fn create_track_id(title: &str, artist: &str) -> (r: String)
    ensures
        r@ == track_id(title@, artist@),
{
    let h = fnv1a_over(FNV_OFFSET_BASIS, title.as_bytes());
    let h = (h ^ 0u64).wrapping_mul(FNV_PRIME);
    let h = fnv1a_over(h, artist.as_bytes());
    proof {
        let t = encode_utf8(title@);
        let z = seq![0u8];
        let a = encode_utf8(artist@);
        lemma_fnv1a_append(FNV_OFFSET_BASIS, t + z, a);
        lemma_fnv1a_append(FNV_OFFSET_BASIS, t, z);
        assert(z.drop_first() =~= Seq::<u8>::empty());
        let h1 = fnv1a(FNV_OFFSET_BASIS, t);
        assert(fnv1a((h1 ^ (z[0] as u64)).wrapping_mul(FNV_PRIME), Seq::<u8>::empty()) == (h1 ^ (z[0] as u64)).wrapping_mul(FNV_PRIME));
        assert(fnv1a(h1, z) == (h1 ^ 0u64).wrapping_mul(FNV_PRIME));
    }
    hex_into(h, 16)
}

/// The track as the operating system's media controls receive it.
#[derive(Debug, PartialEq, Eq)]
pub struct TrackInfo {
    pub id: String,
    pub title: String,
    pub artists: Vec<String>,
    pub album: String,
    pub artwork_url: String,
    pub url: String,
}

/// The text of an optional value, or `fallback` when it is absent.
pub open spec fn text_or(value: Option<String>, fallback: Seq<char>) -> Seq<char> {
    match value {
        Some(v) => v@,
        None => fallback,
    }
}

fn text_or_default(value: &Option<String>, fallback: &str) -> (r: String)
    ensures
        r@ == text_or(*value, fallback@),
{
    match value {
        Some(v) => v.clone(),
        None => String::from_str(fallback),
    }
}

/// Describes a track for the media controls: missing fields become empty
/// (the title becomes "Unknown title"), an empty artist gives no artists.
pub fn build_track(metadata: &TrackMetadata) -> (r: TrackInfo)
    ensures
        r.title@ == text_or(metadata.title, "Unknown title"@),
        r.album@ == text_or(metadata.album, Seq::<char>::empty()),
        r.id@ == track_id(r.title@, text_or(metadata.artist, Seq::<char>::empty())),
        text_or(metadata.artist, Seq::<char>::empty()).len() == 0 ==> r.artists@.len() == 0,
        text_or(metadata.artist, Seq::<char>::empty()).len() > 0 ==> r.artists@.len() == 1
            && r.artists@[0]@ == text_or(metadata.artist, Seq::<char>::empty()),
        match last_web_artwork(metadata.artwork@, metadata.artwork@.len() as int) {
            Some(u) => r.artwork_url@ == u,
            None => r.artwork_url@ == Seq::<char>::empty(),
        },
        r.url@ == Seq::<char>::empty(),
{
    proof {
        reveal_strlit("");
    }
    let title = text_or_default(&metadata.title, "Unknown title");
    let artist = text_or_default(&metadata.artist, "");
    let album = text_or_default(&metadata.album, "");
    let artwork_url = select_artwork_url(metadata);
    let id = create_track_id(title.as_str(), artist.as_str());
    let mut artists: Vec<String> = Vec::new();
    if artist.as_str().unicode_len() > 0 {
        artists.push(artist);
    }
    TrackInfo { id, title, artists, album, artwork_url, url: String::new() }
}

} // verus!
