//! Reading an HLS playlist: a master playlist with a single downloadable variant leads
//! to that variant's media playlist; a media playlist gives the segments to download: segment and
//! key URLs resolved against the playlist URL, the key that applies to each segment,
//! the initialisation maps with stable file names, and the total size when byte ranges
//! give it.
use vstd::prelude::*;
use m3u8_rs::{parse_playlist_res, Playlist};
use self::ParsedPlaylist::{Invalid, Master, Media};
use crate::text::{
    chars_eq_str, chars_of, decimal, digit_char, is_digit, push_char, push_chars,
    push_decimal_padded, push_str, slice_chars, string_from, zero_pad,
};

verus! {

// ---------------------------------------------------------------------------
// The playlist as the `m3u8-rs` parser gives it
// ---------------------------------------------------------------------------

/// An `#EXT-X-KEY` tag: its method as written (`NONE`, `AES-128`, `SAMPLE-AES` or
/// another), and its `URI`, `IV` and `KEYFORMAT` attributes.
pub struct PlaylistKey {
    pub method: String,
    pub uri: Option<String>,
    pub iv: Option<String>,
    pub keyformat: Option<String>,
}

/// A media segment: its URI, its `#EXTINF` duration (the bits of the 32-bit float),
/// the key and map tags that precede it, and the length of its `#EXT-X-BYTERANGE`.
pub struct PlaylistSegment {
    pub uri: String,
    pub duration_bits: u32,
    pub key: Option<PlaylistKey>,
    pub map_uri: Option<String>,
    pub byte_range_length: Option<u64>,
}

/// A variant stream of a master playlist: its URI, and whether it is an I-frame-only
/// stream (`#EXT-X-I-FRAME-STREAM-INF`), which cannot be downloaded as a video.
pub struct PlaylistVariant {
    pub uri: String,
    pub is_i_frame: bool,
}

/// What the playlist text holds: a media playlist (first media sequence number and
/// segments), a master playlist (its variant streams), or nothing that parses.
pub enum ParsedPlaylist {
    Media { media_sequence: u64, segments: Vec<PlaylistSegment> },
    Master(Vec<PlaylistVariant>),
    Invalid,
}

/// A key tag, as values.
pub struct KeyTag {
    pub method: Seq<char>,
    pub uri: Option<Seq<char>>,
    pub iv: Option<Seq<char>>,
    pub keyformat: Option<Seq<char>>,
}

/// A media segment's URI and tags, as values.
pub struct SegmentTags {
    pub uri: Seq<char>,
    pub duration_bits: u32,
    pub key: Option<KeyTag>,
    pub map_uri: Option<Seq<char>>,
    pub byte_range_length: Option<u64>,
}

/// A variant stream, as values.
pub struct VariantTag {
    pub uri: Seq<char>,
    pub is_i_frame: bool,
}

/// What the playlist text holds, as values.
pub enum PlaylistView {
    Media { media_sequence: u64, segments: Seq<SegmentTags> },
    Master(Seq<VariantTag>),
    Invalid,
}

impl View for PlaylistVariant {
    type V = VariantTag;

    open spec fn view(&self) -> VariantTag {
        VariantTag { uri: self.uri@, is_i_frame: self.is_i_frame }
    }
}

/// The variant streams of `v`, as values.
pub open spec fn variant_tags(v: Seq<PlaylistVariant>) -> Seq<VariantTag> {
    Seq::new(v.len(), |i: int| v[i]@)
}

impl View for PlaylistKey {
    type V = KeyTag;

    open spec fn view(&self) -> KeyTag {
        KeyTag {
            method: self.method@,
            uri: opt_seq(self.uri),
            iv: opt_seq(self.iv),
            keyformat: opt_seq(self.keyformat),
        }
    }
}

impl View for PlaylistSegment {
    type V = SegmentTags;

    open spec fn view(&self) -> SegmentTags {
        SegmentTags {
            uri: self.uri@,
            duration_bits: self.duration_bits,
            key: match self.key {
                Some(k) => Some(k@),
                None => None,
            },
            map_uri: opt_seq(self.map_uri),
            byte_range_length: self.byte_range_length,
        }
    }
}

/// The tags of each segment of `v`, in order.
pub open spec fn segment_tags(v: Seq<PlaylistSegment>) -> Seq<SegmentTags> {
    Seq::new(v.len(), |i: int| v[i]@)
}

impl View for ParsedPlaylist {
    type V = PlaylistView;

    open spec fn view(&self) -> PlaylistView {
        match self {
            ParsedPlaylist::Media { media_sequence, segments } => PlaylistView::Media {
                media_sequence: *media_sequence,
                segments: segment_tags(segments@),
            },
            ParsedPlaylist::Master(variants) => PlaylistView::Master(variant_tags(variants@)),
            ParsedPlaylist::Invalid => PlaylistView::Invalid,
        }
    }
}

/// The playlist that `m3u8_rs::parse_playlist_res` reads from `bytes`.
pub uninterp spec fn playlist_of(bytes: Seq<u8>) -> PlaylistView;

/// Parses playlist text.
///
/// Trusted: calls `m3u8_rs::parse_playlist_res` and copies the fields that listing
/// reads: each segment's URI, the bits of its duration, its key tag (the method by its
/// `Display` text, which `m3u8-rs` makes distinct for each method it parses, and the
/// `URI`, `IV` and `KEYFORMAT` attributes), the URI of its map and the length of its
/// byte range; and each variant stream's URI and I-frame flag. What the parser reads is
/// named, not stated.
#[verifier::external_body]
fn parse_playlist(bytes: &[u8]) -> (r: ParsedPlaylist)
    ensures
        r@ == playlist_of(bytes@),
{
    match parse_playlist_res(bytes) {
        Ok(Playlist::MediaPlaylist(p)) => Media {
            media_sequence: p.media_sequence,
            segments: p.segments.into_iter().map(|s| PlaylistSegment {
                uri: s.uri, duration_bits: s.duration.to_bits(),
                key: s.key.map(|k| PlaylistKey { method: k.method.to_string(), uri: k.uri, iv: k.iv, keyformat: k.keyformat }),
                map_uri: s.map.map(|m| m.uri), byte_range_length: s.byte_range.map(|b| b.length),
            }).collect(),
        },
        Ok(Playlist::MasterPlaylist(p)) => Master(
            p.variants.into_iter().map(|v| PlaylistVariant { uri: v.uri, is_i_frame: v.is_i_frame }).collect(),
        ),
        Err(_) => Invalid,
    }
}

// ---------------------------------------------------------------------------
// URLs, as the `url` crate resolves them
// ---------------------------------------------------------------------------

/// Whether `url::Url::parse` accepts `s`.
pub uninterp spec fn url_parses(s: Seq<char>) -> bool;

/// The serialisation of `reference` resolved against the URL `base` (`Url::parse` then
/// `Url::join`); `None` when either fails.
pub uninterp spec fn url_joined(base: Seq<char>, reference: Seq<char>) -> Option<Seq<char>>;

/// The last segment of the path of the URL `url` (`Url::parse`, `path_segments`,
/// last item); `None` when it does not parse or cannot be a base.
pub uninterp spec fn url_last_segment(url: Seq<char>) -> Option<Seq<char>>;

/// The view of an optional string.
pub open spec fn opt_seq(o: Option<String>) -> Option<Seq<char>> {
    match o {
        Some(s) => Some(s@),
        None => None,
    }
}

/// Whether `s` parses as a URL.
///
/// Trusted: calls `url::Url::parse`. Which texts parse is named, not stated.
#[verifier::external_body]
fn url_is_valid(s: &str) -> (r: bool)
    ensures
        r == url_parses(s@),
{
    url::Url::parse(s).is_ok()
}

/// Resolves `reference` against `base`.
///
/// Trusted: calls `url::Url::join` on the URL that `url::Url::parse` reads from `base`,
/// and serialises the result. The resolved URL is named, not stated.
#[verifier::external_body]
fn join_url(base: &str, reference: &str) -> (r: Option<String>)
    ensures
        opt_seq(r) == url_joined(base@, reference@),
{
    let b = url::Url::parse(base).ok()?;
    b.join(reference).ok().map(|u| u.to_string())
}

/// The last path segment of a URL.
///
/// Trusted: calls `url::Url::path_segments` on the URL that `url::Url::parse` reads
/// from `url`, and takes the last segment. Which segment that is is named, not stated.
#[verifier::external_body]
fn last_path_segment(url: &str) -> (r: Option<String>)
    ensures
        opt_seq(r) == url_last_segment(url@),
{
    let u = url::Url::parse(url).ok()?;
    u.path_segments()?.next_back().map(|s| s.to_string())
}

// ---------------------------------------------------------------------------
// Segments to download
// ---------------------------------------------------------------------------

/// The key that decrypts a segment: its resolved URL and its `IV` attribute.
#[derive(Debug, Clone, PartialEq)]
pub struct EncryptionKey {
    pub url: String,
    pub iv: Option<String>,
}

/// The initialisation map of a segment: its resolved URL and the local file it is
/// saved as.
#[derive(Debug, Clone, PartialEq)]
pub struct InitMapInfo {
    pub url: String,
    pub file_name: String,
}

/// A segment to download: its resolved URL, the local file it is saved as, its
/// duration (bits of the 32-bit float), its media sequence number, and its key and map.
#[derive(Debug, Clone, PartialEq)]
pub struct SegmentInfo {
    pub url: String,
    pub file_name: String,
    pub duration_bits: u32,
    pub media_sequence: u64,
    pub key: Option<EncryptionKey>,
    pub init_map: Option<InitMapInfo>,
}

/// The segments of a media playlist, the playlist URL, and the sum of the byte-range
/// lengths when any segment has one.
#[derive(Debug, PartialEq)]
pub struct M3U8Info {
    pub segments: Vec<SegmentInfo>,
    pub base_url: String,
    pub total_size: Option<u64>,
}

/// Why a playlist cannot be listed.
#[derive(Debug, PartialEq)]
pub enum M3U8Error {
    /// A master playlist was given; a media playlist URL is needed.
    MasterPlaylist,
    /// The text is not a playlist.
    Unparseable,
    /// The playlist URL, or a URL resolved against it, is not valid.
    InvalidUrl,
    /// An AES-128 key with a `KEYFORMAT` other than `identity`.
    UnsupportedKeyFormat(String),
    /// An AES-128 key without `URI`.
    MissingKeyUri,
    /// A `SAMPLE-AES` key.
    SampleAesUnsupported,
    /// A key method that is not `NONE`, `AES-128` or `SAMPLE-AES`.
    UnsupportedMethod(String),
}

/// A key, as values.
pub struct KeyView {
    pub url: Seq<char>,
    pub iv: Option<Seq<char>>,
}

/// A map, as values.
pub struct MapView {
    pub url: Seq<char>,
    pub file_name: Seq<char>,
}

/// A segment, as values.
pub struct SegmentView {
    pub url: Seq<char>,
    pub file_name: Seq<char>,
    pub duration_bits: u32,
    pub media_sequence: u64,
    pub key: Option<KeyView>,
    pub map: Option<MapView>,
}

/// Why a playlist cannot be listed, as values.
pub enum M3U8Fault {
    MasterPlaylist,
    Unparseable,
    InvalidUrl,
    UnsupportedKeyFormat(Seq<char>),
    MissingKeyUri,
    SampleAesUnsupported,
    UnsupportedMethod(Seq<char>),
}

/// The listing of a playlist, as values.
pub struct InfoView {
    pub segments: Seq<SegmentView>,
    pub base_url: Seq<char>,
    pub total_size: Option<u64>,
}

impl View for EncryptionKey {
    type V = KeyView;

    open spec fn view(&self) -> KeyView {
        KeyView { url: self.url@, iv: opt_seq(self.iv) }
    }
}

impl View for InitMapInfo {
    type V = MapView;

    open spec fn view(&self) -> MapView {
        MapView { url: self.url@, file_name: self.file_name@ }
    }
}

impl View for SegmentInfo {
    type V = SegmentView;

    open spec fn view(&self) -> SegmentView {
        SegmentView {
            url: self.url@,
            file_name: self.file_name@,
            duration_bits: self.duration_bits,
            media_sequence: self.media_sequence,
            key: match self.key {
                Some(k) => Some(k@),
                None => None,
            },
            map: match self.init_map {
                Some(m) => Some(m@),
                None => None,
            },
        }
    }
}

impl View for M3U8Error {
    type V = M3U8Fault;

    open spec fn view(&self) -> M3U8Fault {
        match self {
            M3U8Error::MasterPlaylist => M3U8Fault::MasterPlaylist,
            M3U8Error::Unparseable => M3U8Fault::Unparseable,
            M3U8Error::InvalidUrl => M3U8Fault::InvalidUrl,
            M3U8Error::UnsupportedKeyFormat(f) => M3U8Fault::UnsupportedKeyFormat(f@),
            M3U8Error::MissingKeyUri => M3U8Fault::MissingKeyUri,
            M3U8Error::SampleAesUnsupported => M3U8Fault::SampleAesUnsupported,
            M3U8Error::UnsupportedMethod(m) => M3U8Fault::UnsupportedMethod(m@),
        }
    }
}

impl View for M3U8Info {
    type V = InfoView;

    open spec fn view(&self) -> InfoView {
        InfoView {
            segments: Seq::new(self.segments@.len(), |i: int| self.segments@[i]@),
            base_url: self.base_url@,
            total_size: self.total_size,
        }
    }
}

/// `c` in lower case when it is an ASCII capital.
pub open spec fn ascii_lower(c: char) -> char {
    if 'A' <= c && c <= 'Z' {
        ((c as int) + 32) as char
    } else {
        c
    }
}

/// `s` with its ASCII capitals in lower case.
pub open spec fn ascii_lowercase(s: Seq<char>) -> Seq<char> {
    Seq::new(s.len(), |i: int| ascii_lower(s[i]))
}

/// The index of the last `.` in `s`, if any.
pub open spec fn last_dot(s: Seq<char>) -> Option<nat>
    decreases s.len(),
{
    if s.len() == 0 {
        None
    } else if s.last() == '.' {
        Some((s.len() - 1) as nat)
    } else {
        last_dot(s.drop_last())
    }
}

/// The file extension of a URL: what follows the last `.` of its last path segment,
/// in lower case, unless that is empty or missing, then `fallback`.
pub open spec fn extension_of(url: Seq<char>, fallback: Seq<char>) -> Seq<char> {
    match url_last_segment(url) {
        Some(name) => match last_dot(name) {
            Some(d) => if d + 1 < name.len() {
                ascii_lowercase(name.subrange(d + 1 as int, name.len() as int))
            } else {
                ascii_lowercase(fallback)
            },
            None => ascii_lowercase(fallback),
        },
        None => ascii_lowercase(fallback),
    }
}

/// The file of segment `index`: `NNNNN.ext` (`ts` when its URL gives no extension).
pub open spec fn segment_file_name(index: nat, url: Seq<char>) -> Seq<char> {
    zero_pad(decimal(index), 5) + seq!['.'] + extension_of(url, "ts"@)
}

/// The file of the `k`-th distinct map: `init_NNN.ext` (`mp4` when its URL gives no
/// extension).
pub open spec fn map_file_name(k: nat, url: Seq<char>) -> Seq<char> {
    "init_"@ + zero_pad(decimal(k), 3) + seq!['.'] + extension_of(url, "mp4"@)
}

/// The key that a key tag sets for the segments that follow it.
pub open spec fn key_spec(base: Seq<char>, k: KeyTag) -> Result<Option<KeyView>, M3U8Fault> {
    if k.method == "NONE"@ {
        Ok(None)
    } else if k.method == "AES-128"@ {
        if k.keyformat matches Some(f) && f != "identity"@ {
            Err(M3U8Fault::UnsupportedKeyFormat(k.keyformat->0))
        } else {
            match k.uri {
                None => Err(M3U8Fault::MissingKeyUri),
                Some(u) => match url_joined(base, u) {
                    None => Err(M3U8Fault::InvalidUrl),
                    Some(ku) => Ok(Some(KeyView { url: ku, iv: k.iv })),
                },
            }
        }
    } else if k.method == "SAMPLE-AES"@ {
        Err(M3U8Fault::SampleAesUnsupported)
    } else {
        Err(M3U8Fault::UnsupportedMethod(k.method))
    }
}

/// The file name already given to the map at `url`, if any.
pub open spec fn map_name_lookup(names: Seq<(Seq<char>, Seq<char>)>, url: Seq<char>) -> Option<
    Seq<char>,
>
    decreases names.len(),
{
    if names.len() == 0 {
        None
    } else if names.last().0 == url {
        Some(names.last().1)
    } else {
        map_name_lookup(names.drop_last(), url)
    }
}

/// The sum of two `u64` values, wrapping around at `2^64`.
pub open spec fn wrapping_sum(a: u64, b: u64) -> u64 {
    if a + b > u64::MAX {
        (a + b - 0x1_0000_0000_0000_0000) as u64
    } else {
        (a + b) as u64
    }
}

/// What has been listed after a number of segments: the segments, the key and map in
/// force, the map file names given so far (by URL), and the byte-range total.
pub struct ListState {
    pub segments: Seq<SegmentView>,
    pub key: Option<KeyView>,
    pub map: Option<MapView>,
    pub names: Seq<(Seq<char>, Seq<char>)>,
    pub total: u64,
    pub has_size: bool,
}

/// Lists one more segment (the `index`-th): its key tag replaces the key in force, its
/// map tag the map in force (a map URL seen before keeps its file name, a new one gets
/// the next `init_NNN` name), its URL is resolved, and its byte range is added.
pub open spec fn list_step(
    base: Seq<char>,
    st: ListState,
    seg: SegmentTags,
    index: nat,
    media_sequence: u64,
) -> Result<ListState, M3U8Fault> {
    let key_r: Result<Option<KeyView>, M3U8Fault> = match seg.key {
        Some(k) => key_spec(base, k),
        None => Ok(st.key),
    };
    match key_r {
        Err(e) => Err(e),
        Ok(key) => {
            let map_r: Result<(Option<MapView>, Seq<(Seq<char>, Seq<char>)>), M3U8Fault> =
                match seg.map_uri {
                None => Ok((st.map, st.names)),
                Some(u) => match url_joined(base, u) {
                    None => Err(M3U8Fault::InvalidUrl),
                    Some(mu) => match map_name_lookup(st.names, mu) {
                        Some(n) => Ok((Some(MapView { url: mu, file_name: n }), st.names)),
                        None => {
                            let n = map_file_name(st.names.len(), mu);
                            Ok((Some(MapView { url: mu, file_name: n }), st.names.push((mu, n))))
                        },
                    },
                },
            };
            match map_r {
                Err(e) => Err(e),
                Ok((map, names)) => match url_joined(base, seg.uri) {
                    None => Err(M3U8Fault::InvalidUrl),
                    Some(su) => Ok(
                        ListState {
                            segments: st.segments.push(
                                SegmentView {
                                    url: su,
                                    file_name: segment_file_name(index, su),
                                    duration_bits: seg.duration_bits,
                                    media_sequence: wrapping_sum(media_sequence, index as u64),
                                    key,
                                    map,
                                },
                            ),
                            key,
                            map,
                            names,
                            total: match seg.byte_range_length {
                                Some(l) => wrapping_sum(st.total, l),
                                None => st.total,
                            },
                            has_size: st.has_size || seg.byte_range_length is Some,
                        },
                    ),
                },
            }
        },
    }
}

/// The listing state before any segment.
pub open spec fn initial_list_state() -> ListState {
    ListState {
        segments: Seq::empty(),
        key: None,
        map: None,
        names: Seq::empty(),
        total: 0,
        has_size: false,
    }
}

/// Lists the segments `segs` in order; the first failure stops the listing.
pub open spec fn list_segments(base: Seq<char>, segs: Seq<SegmentTags>, media_sequence: u64) -> Result<
    ListState,
    M3U8Fault,
>
    decreases segs.len(),
{
    if segs.len() == 0 {
        Ok(initial_list_state())
    } else {
        match list_segments(base, segs.drop_last(), media_sequence) {
            Err(e) => Err(e),
            Ok(st) => list_step(base, st, segs.last(), (segs.len() - 1) as nat, media_sequence),
        }
    }
}

/// The listing of a media playlist read from the URL `url`, with first media sequence
/// number `media_sequence`: its segments are listed when the URL parses.
pub open spec fn media_info_spec(url: Seq<char>, segments: Seq<SegmentTags>, media_sequence: u64) -> Result<
    InfoView,
    M3U8Fault,
> {
    if !url_parses(url) {
        Err(M3U8Fault::InvalidUrl)
    } else {
        match list_segments(url, segments, media_sequence) {
            Err(e) => Err(e),
            Ok(st) => Ok(
                InfoView {
                    segments: st.segments,
                    base_url: url,
                    total_size: if st.has_size {
                        Some(st.total)
                    } else {
                        None
                    },
                },
            ),
        }
    }
}

/// The variant streams that can be downloaded as a video: those that are not
/// I-frame-only, in order.
pub open spec fn media_variants(variants: Seq<VariantTag>) -> Seq<VariantTag>
    decreases variants.len(),
{
    if variants.len() == 0 {
        Seq::empty()
    } else {
        let p = media_variants(variants.drop_last());
        if variants.last().is_i_frame {
            p
        } else {
            p.push(variants.last())
        }
    }
}

/// The URI of the one variant stream of a master playlist that can be downloaded, when
/// there is exactly one.
pub open spec fn single_variant_uri(variants: Seq<VariantTag>) -> Option<Seq<char>> {
    if media_variants(variants).len() == 1 {
        Some(media_variants(variants)[0].uri)
    } else {
        None
    }
}

/// What reading a playlist gives: the segments of a media playlist, or the URL of the
/// media playlist to follow.
pub enum ListingView {
    Segments(InfoView),
    FollowVariant(Seq<char>),
}

/// The listing of the playlist `p` read from the URL `url`: media playlists are listed
/// (see `media_info_spec`); a master playlist with exactly one downloadable variant
/// stream is followed to that stream's media playlist, its URI resolved against `url`;
/// other master playlists and unparseable text are refused.
pub open spec fn m3u8_info_spec(url: Seq<char>, p: PlaylistView) -> Result<ListingView, M3U8Fault> {
    match p {
        PlaylistView::Media { media_sequence, segments } => match media_info_spec(url, segments, media_sequence) {
            Ok(info) => Ok(ListingView::Segments(info)),
            Err(e) => Err(e),
        },
        PlaylistView::Master(variants) => match single_variant_uri(variants) {
            Some(u) => match url_joined(url, u) {
                Some(target) => Ok(ListingView::FollowVariant(target)),
                None => Err(M3U8Fault::InvalidUrl),
            },
            None => Err(M3U8Fault::MasterPlaylist),
        },
        PlaylistView::Invalid => Err(M3U8Fault::Unparseable),
    }
}

/// What reading a playlist gives: the segments of a media playlist, or the URL of the
/// media playlist that a master playlist with one downloadable variant leads to.
#[derive(Debug, PartialEq)]
pub enum PlaylistListing {
    Segments(M3U8Info),
    FollowVariant(String),
}

impl View for PlaylistListing {
    type V = ListingView;

    open spec fn view(&self) -> ListingView {
        match self {
            PlaylistListing::Segments(info) => ListingView::Segments(info@),
            PlaylistListing::FollowVariant(u) => ListingView::FollowVariant(u@),
        }
    }
}

/// The view of the result of reading a playlist.
pub open spec fn listing_result(r: Result<PlaylistListing, M3U8Error>) -> Result<ListingView, M3U8Fault> {
    match r {
        Ok(l) => Ok(l@),
        Err(e) => Err(e@),
    }
}

/// The view of a listing result.
pub open spec fn info_result(r: Result<M3U8Info, M3U8Error>) -> Result<InfoView, M3U8Fault> {
    match r {
        Ok(i) => Ok(i@),
        Err(e) => Err(e@),
    }
}

fn lowercase_ascii(cs: &[char]) -> (r: Vec<char>)
    ensures
        r@ == ascii_lowercase(cs@),
{
    let mut out: Vec<char> = Vec::new();
    let mut i: usize = 0;
    while i < cs.len()
        invariant
            i <= cs@.len(),
            out@ == Seq::new(i as nat, |j: int| ascii_lower(cs@[j])),
        decreases cs@.len() - i,
    {
        let c = cs[i];
        let l = if 'A' <= c && c <= 'Z' {
            ((c as u8) + 32) as char
        } else {
            c
        };
        out.push(l);
        i = i + 1;
        assert(out@ =~= Seq::new(i as nat, |j: int| ascii_lower(cs@[j])));
    }
    out
}

fn find_last_dot(cs: &[char]) -> (r: Option<usize>)
    ensures
        r matches Some(d) ==> d < cs@.len() && last_dot(cs@) == Some(d as nat),
        r is None ==> last_dot(cs@) is None,
{
    let mut j = cs.len();
    assert(cs@.subrange(0, cs@.len() as int) =~= cs@);
    while j > 0
        invariant
            j <= cs@.len(),
            last_dot(cs@) == last_dot(cs@.subrange(0, j as int)),
        decreases j,
    {
        assert(cs@.subrange(0, j as int).last() == cs@[j - 1]);
        if cs[j - 1] == '.' {
            return Some(j - 1);
        }
        assert(cs@.subrange(0, j as int).drop_last() =~= cs@.subrange(0, j - 1));
        j = j - 1;
    }
    None
}

/// The file extension of a URL (see `extension_of`).
pub fn extension_from_url(url: &str, fallback: &str) -> (r: String)
    ensures
        r@ == extension_of(url@, fallback@),
{
    let fb = lowercase_ascii(chars_of(fallback).as_slice());
    let seg = last_path_segment(url);
    match seg {
        None => {
            assert(url_last_segment(url@) is None);
            string_from(fb.as_slice())
        },
        Some(name) => {
            assert(url_last_segment(url@) == Some(name@));
            let cs = chars_of(name.as_str());
            let dot = find_last_dot(cs.as_slice());
            match dot {
                Some(d) => {
                    assert(last_dot(name@) == Some(d as nat));
                    if d < cs.len() - 1 {
                        let tail = slice_chars(cs.as_slice(), d + 1, cs.len());
                        let ext = lowercase_ascii(tail.as_slice());
                        let r = string_from(ext.as_slice());
                        assert(r@ == ascii_lowercase(name@.subrange(d + 1 as int, name@.len() as int)));
                        r
                    } else {
                        string_from(fb.as_slice())
                    }
                },
                None => {
                    assert(last_dot(name@) is None);
                    string_from(fb.as_slice())
                },
            }
        },
    }
}

/// The file of segment `index` (see `segment_file_name`).
pub fn build_segment_file_name(index: usize, url: &str) -> (r: String)
    ensures
        r@ == segment_file_name(index as nat, url@),
{
    let mut out = String::new();
    push_decimal_padded(&mut out, index as u64, 5);
    push_char(&mut out, '.');
    let ext = extension_from_url(url, "ts");
    push_str(&mut out, ext.as_str());
    assert(out@ =~= segment_file_name(index as nat, url@));
    out
}

/// The file of the `k`-th distinct map (see `map_file_name`).
pub fn build_map_file_name(k: usize, url: &str) -> (r: String)
    ensures
        r@ == map_file_name(k as nat, url@),
{
    let mut out = String::new();
    push_str(&mut out, "init_");
    push_decimal_padded(&mut out, k as u64, 3);
    push_char(&mut out, '.');
    let ext = extension_from_url(url, "mp4");
    push_str(&mut out, ext.as_str());
    assert(out@ =~= map_file_name(k as nat, url@));
    out
}

fn copy_string(s: &String) -> (r: String)
    ensures
        r@ == s@,
{
    string_from(chars_of(s.as_str()).as_slice())
}

fn copy_opt(s: &Option<String>) -> (r: Option<String>)
    ensures
        opt_seq(r) == opt_seq(*s),
{
    match s {
        Some(v) => Some(copy_string(v)),
        None => None,
    }
}

fn copy_key(k: &Option<EncryptionKey>) -> (r: Option<EncryptionKey>)
    ensures
        match (r, *k) {
            (Some(a), Some(b)) => a@ == b@,
            (None, None) => true,
            _ => false,
        },
{
    match k {
        Some(v) => Some(EncryptionKey { url: copy_string(&v.url), iv: copy_opt(&v.iv) }),
        None => None,
    }
}

fn copy_map(m: &Option<InitMapInfo>) -> (r: Option<InitMapInfo>)
    ensures
        match (r, *m) {
            (Some(a), Some(b)) => a@ == b@,
            (None, None) => true,
            _ => false,
        },
{
    match m {
        Some(v) => Some(InitMapInfo { url: copy_string(&v.url), file_name: copy_string(&v.file_name) }),
        None => None,
    }
}

/// The key view of an optional key.
pub open spec fn key_view(k: Option<EncryptionKey>) -> Option<KeyView> {
    match k {
        Some(v) => Some(v@),
        None => None,
    }
}

/// The map view of an optional map.
pub open spec fn map_view(m: Option<InitMapInfo>) -> Option<MapView> {
    match m {
        Some(v) => Some(v@),
        None => None,
    }
}

/// The key that a key tag sets (see `key_spec`).
pub fn normalize_key(base: &str, k: &PlaylistKey) -> (r: Result<Option<EncryptionKey>, M3U8Error>)
    ensures
        match (r, key_spec(base@, k@)) {
            (Ok(a), Ok(b)) => key_view(a) == b,
            (Err(e), Err(f)) => e@ == f,
            _ => false,
        },
{
    let method = chars_of(k.method.as_str());
    if chars_eq_str(method.as_slice(), "NONE") {
        Ok(None)
    } else if chars_eq_str(method.as_slice(), "AES-128") {
        match &k.keyformat {
            Some(f) => {
                if !chars_eq_str(chars_of(f.as_str()).as_slice(), "identity") {
                    return Err(M3U8Error::UnsupportedKeyFormat(copy_string(f)));
                }
            },
            None => {},
        }
        match &k.uri {
            None => Err(M3U8Error::MissingKeyUri),
            Some(u) => match join_url(base, u.as_str()) {
                None => Err(M3U8Error::InvalidUrl),
                Some(ku) => Ok(Some(EncryptionKey { url: ku, iv: copy_opt(&k.iv) })),
            },
        }
    } else if chars_eq_str(method.as_slice(), "SAMPLE-AES") {
        Err(M3U8Error::SampleAesUnsupported)
    } else {
        Err(M3U8Error::UnsupportedMethod(copy_string(&k.method)))
    }
}

/// The map file names given so far, as values.
pub open spec fn names_view(names: Seq<(String, String)>) -> Seq<(Seq<char>, Seq<char>)> {
    Seq::new(names.len(), |i: int| (names[i].0@, names[i].1@))
}

fn lookup_map_name(names: &Vec<(String, String)>, url: &String) -> (r: Option<String>)
    ensures
        opt_seq(r) == map_name_lookup(names_view(names@), url@),
{
    let mut j = names.len();
    assert(names_view(names@).subrange(0, names@.len() as int) =~= names_view(names@));
    while j > 0
        invariant
            j <= names@.len(),
            map_name_lookup(names_view(names@), url@) == map_name_lookup(
                names_view(names@).subrange(0, j as int),
                url@,
            ),
        decreases j,
    {
        let ghost pre = names_view(names@).subrange(0, j as int);
        assert(pre.last() == (names@[j - 1].0@, names@[j - 1].1@));
        if names[j - 1].0 == *url {
            return Some(copy_string(&names[j - 1].1));
        }
        assert(pre.drop_last() =~= names_view(names@).subrange(0, j - 1));
        j = j - 1;
    }
    None
}

/// The segment views of a vector of segments.
pub open spec fn segment_views(v: Seq<SegmentInfo>) -> Seq<SegmentView> {
    Seq::new(v.len(), |i: int| v[i]@)
}

proof fn lemma_list_error_persists(base: Seq<char>, segs: Seq<SegmentTags>, ms: u64, k: int, e: M3U8Fault)
    requires
        0 <= k <= segs.len(),
        list_segments(base, segs.subrange(0, k), ms) == Err::<ListState, M3U8Fault>(e),
    ensures
        list_segments(base, segs, ms) == Err::<ListState, M3U8Fault>(e),
    decreases segs.len() - k,
{
    if k < segs.len() {
        assert(segs.subrange(0, k + 1).drop_last() =~= segs.subrange(0, k));
        lemma_list_error_persists(base, segs, ms, k + 1, e);
    } else {
        assert(segs.subrange(0, k) =~= segs);
    }
}

/// Lists the segments of a media playlist read from `m3u8_url` (see
/// `media_info_spec`).
pub fn list_media_playlist(m3u8_url: &str, media_sequence: u64, segs: Vec<PlaylistSegment>) -> (r: Result<
    M3U8Info,
    M3U8Error,
>)
    ensures
        info_result(r) == media_info_spec(m3u8_url@, segment_tags(segs@), media_sequence),
{
    if !url_is_valid(m3u8_url) {
        return Err(M3U8Error::InvalidUrl);
    }
    let ghost all = segment_tags(segs@);
    let mut out: Vec<SegmentInfo> = Vec::new();
    let mut key: Option<EncryptionKey> = None;
    let mut map: Option<InitMapInfo> = None;
    let mut names: Vec<(String, String)> = Vec::new();
    let mut total: u64 = 0;
    let mut has_size = false;
    let mut i: usize = 0;
    assert(all.subrange(0, 0) =~= Seq::<SegmentTags>::empty());
    assert(segment_views(out@) =~= Seq::<SegmentView>::empty());
    assert(names_view(names@) =~= Seq::<(Seq<char>, Seq<char>)>::empty());
    while i < segs.len()
        invariant
            all == segment_tags(segs@),
            url_parses(m3u8_url@),
            i <= segs@.len(),
            out@.len() == i,
            list_segments(m3u8_url@, all.subrange(0, i as int), media_sequence) == Ok::<ListState, M3U8Fault>(
                ListState {
                    segments: segment_views(out@),
                    key: key_view(key),
                    map: map_view(map),
                    names: names_view(names@),
                    total,
                    has_size,
                },
            ),
        decreases segs@.len() - i,
    {
        let ghost st = ListState {
            segments: segment_views(out@),
            key: key_view(key),
            map: map_view(map),
            names: names_view(names@),
            total,
            has_size,
        };
        let ghost prefix = all.subrange(0, i + 1);
        assert(prefix.drop_last() =~= all.subrange(0, i as int));
        assert(prefix.last() == segs@[i as int]@);
        let seg = &segs[i];
        match &seg.key {
            Some(k) => match normalize_key(m3u8_url, k) {
                Err(e) => {
                    proof {
                        lemma_list_error_persists(m3u8_url@, all, media_sequence, i + 1, e@);
                    }
                    return Err(e);
                },
                Ok(nk) => {
                    key = nk;
                },
            },
            None => {},
        }
        match &seg.map_uri {
            None => {},
            Some(u) => match join_url(m3u8_url, u.as_str()) {
                None => {
                    proof {
                        lemma_list_error_persists(m3u8_url@, all, media_sequence, i + 1, M3U8Fault::InvalidUrl);
                    }
                    return Err(M3U8Error::InvalidUrl);
                },
                Some(mu) => {
                    match lookup_map_name(&names, &mu) {
                        Some(n) => {
                            map = Some(InitMapInfo { url: mu, file_name: n });
                        },
                        None => {
                            let n = build_map_file_name(names.len(), mu.as_str());
                            let ghost old_names = names_view(names@);
                            names.push((copy_string(&mu), copy_string(&n)));
                            assert(names_view(names@) =~= old_names.push((mu@, n@)));
                            map = Some(InitMapInfo { url: mu, file_name: n });
                        },
                    }
                },
            },
        }
        match join_url(m3u8_url, seg.uri.as_str()) {
            None => {
                proof {
                    lemma_list_error_persists(m3u8_url@, all, media_sequence, i + 1, M3U8Fault::InvalidUrl);
                }
                return Err(M3U8Error::InvalidUrl);
            },
            Some(su) => {
                let file_name = build_segment_file_name(i, su.as_str());
                let ghost old_out = segment_views(out@);
                let ghost old_total = total;
                let info = SegmentInfo {
                    url: su,
                    file_name,
                    duration_bits: seg.duration_bits,
                    media_sequence: media_sequence.wrapping_add(i as u64),
                    key: copy_key(&key),
                    init_map: copy_map(&map),
                };
                let ghost v = info@;
                out.push(info);
                assert(segment_views(out@) =~= old_out.push(v));
                match seg.byte_range_length {
                    Some(l) => {
                        total = total.wrapping_add(l);
                        has_size = true;
                    },
                    None => {},
                }
                assert(list_segments(m3u8_url@, prefix, media_sequence) == list_step(
                    m3u8_url@,
                    st,
                    segs@[i as int]@,
                    i as nat,
                    media_sequence,
                ));
                assert(list_step(m3u8_url@, st, segs@[i as int]@, i as nat, media_sequence) == Ok::<ListState, M3U8Fault>(
                    ListState {
                        segments: segment_views(out@),
                        key: key_view(key),
                        map: map_view(map),
                        names: names_view(names@),
                        total,
                        has_size,
                    },
                ));
            },
        }
        i = i + 1;
    }
    assert(all.subrange(0, segs@.len() as int) =~= all);
    let info = M3U8Info {
        segments: out,
        base_url: string_from(chars_of(m3u8_url).as_slice()),
        total_size: if has_size {
            Some(total)
        } else {
            None
        },
    };
    assert(info@.segments =~= segment_views(info.segments@));
    Ok(info)
}

/// The media variant of a master playlist to follow: the URI of its one downloadable
/// variant stream, when it has exactly one (see `single_variant_uri`).
pub fn single_media_variant(variants: &Vec<PlaylistVariant>) -> (r: Option<String>)
    ensures
        opt_seq(r) == single_variant_uri(variant_tags(variants@)),
{
    let ghost tags = variant_tags(variants@);
    let mut found: Option<usize> = None;
    let mut count: usize = 0;
    let mut i: usize = 0;
    assert(tags.subrange(0, 0) =~= Seq::<VariantTag>::empty());
    while i < variants.len()
        invariant
            i <= variants@.len(),
            tags == variant_tags(variants@),
            count <= i,
            count == media_variants(tags.subrange(0, i as int)).len(),
            count >= 1 ==> (found matches Some(f) && f < variants@.len() && media_variants(
                tags.subrange(0, i as int),
            )[0] == tags[f as int]),
        decreases variants@.len() - i,
    {
        let ghost pre = tags.subrange(0, i + 1);
        assert(pre.drop_last() =~= tags.subrange(0, i as int));
        assert(pre.last() == tags[i as int]);
        if !variants[i].is_i_frame {
            if count == 0 {
                found = Some(i);
            }
            count = count + 1;
        }
        i = i + 1;
    }
    assert(tags.subrange(0, variants@.len() as int) =~= tags);
    if count == 1 {
        match found {
            Some(f) => Some(copy_string(&variants[f].uri)),
            None => None,
        }
    } else {
        None
    }
}

/// Reads a parsed playlist fetched from `m3u8_url` (see `m3u8_info_spec`).
pub fn build_m3u8_info(m3u8_url: &str, playlist: ParsedPlaylist) -> (r: Result<PlaylistListing, M3U8Error>)
    ensures
        listing_result(r) == m3u8_info_spec(m3u8_url@, playlist@),
{
    match playlist {
        ParsedPlaylist::Media { media_sequence, segments } => match list_media_playlist(m3u8_url, media_sequence, segments) {
            Ok(info) => Ok(PlaylistListing::Segments(info)),
            Err(e) => Err(e),
        },
        ParsedPlaylist::Master(variants) => match single_media_variant(&variants) {
            Some(u) => match join_url(m3u8_url, u.as_str()) {
                Some(target) => Ok(PlaylistListing::FollowVariant(target)),
                None => Err(M3U8Error::InvalidUrl),
            },
            None => Err(M3U8Error::MasterPlaylist),
        },
        ParsedPlaylist::Invalid => Err(M3U8Error::Unparseable),
    }
}

/// Reads the playlist text `body` fetched from `m3u8_url`: the text is read by `m3u8-rs`
/// (`playlist_of`) and the result as `m3u8_info_spec` says.
pub fn parse_m3u8_text(m3u8_url: &str, body: &[u8]) -> (r: Result<PlaylistListing, M3U8Error>)
    ensures
        listing_result(r) == m3u8_info_spec(m3u8_url@, playlist_of(body@)),
{
    let playlist = parse_playlist(body);
    build_m3u8_info(m3u8_url, playlist)
}

/// The segments of the media playlist text `body` fetched from `followed_url`, the
/// variant that a master playlist led to: a master playlist is not followed a second
/// time.
pub open spec fn followed_info_spec(followed_url: Seq<char>, body: Seq<u8>) -> Result<InfoView, M3U8Fault> {
    match m3u8_info_spec(followed_url, playlist_of(body)) {
        Ok(ListingView::Segments(info)) => Ok(info),
        Ok(ListingView::FollowVariant(_)) => Err(M3U8Fault::MasterPlaylist),
        Err(e) => Err(e),
    }
}

/// Reads the media playlist that a master playlist with one downloadable variant led to
/// (see `followed_info_spec`).
pub fn parse_followed_text(followed_url: &str, body: &[u8]) -> (r: Result<M3U8Info, M3U8Error>)
    ensures
        info_result(r) == followed_info_spec(followed_url@, body@),
{
    match parse_m3u8_text(followed_url, body) {
        Ok(PlaylistListing::Segments(info)) => Ok(info),
        Ok(PlaylistListing::FollowVariant(_)) => Err(M3U8Error::MasterPlaylist),
        Err(e) => Err(e),
    }
}


// ---------------------------------------------------------------------------
// Local file names never clash
// ---------------------------------------------------------------------------

proof fn lemma_decimal_shape(n: nat)
    ensures
        decimal(n).len() >= 1,
        n >= 10 ==> decimal(n).len() >= 2,
        forall|i: int| 0 <= i < decimal(n).len() ==> is_digit(#[trigger] decimal(n)[i]),
        decimal(n)[0] == '0' ==> n == 0,
    decreases n,
{
    if n >= 10 {
        lemma_decimal_shape(n / 10);
        let d = decimal(n / 10);
        assert(decimal(n) == d.push(digit_char(n % 10)));
        assert forall|i: int| 0 <= i < decimal(n).len() implies is_digit(#[trigger] decimal(n)[i]) by {
            if i < d.len() {
                assert(decimal(n)[i] == d[i]);
            }
        }
        assert(decimal(n)[0] == d[0]);
    }
}

proof fn lemma_decimal_injective(a: nat, b: nat)
    requires
        decimal(a) == decimal(b),
    ensures
        a == b,
    decreases a,
{
    lemma_decimal_shape(a);
    lemma_decimal_shape(b);
    if a >= 10 && b >= 10 {
        assert(decimal(a).drop_last() =~= decimal(a / 10));
        assert(decimal(b).drop_last() =~= decimal(b / 10));
        lemma_decimal_injective(a / 10, b / 10);
        assert(digit_char(a % 10) == decimal(a).last());
        assert(digit_char(b % 10) == decimal(b).last());
    } else if a < 10 && b < 10 {
        assert(digit_char(a) == decimal(a)[0]);
        assert(digit_char(b) == decimal(b)[0]);
    }
}

/// Whether every character of `s` is an ASCII digit and `s` is not empty.
spec fn digit_run(s: Seq<char>) -> bool {
    s.len() > 0 && forall|i: int| 0 <= i < s.len() ==> is_digit(#[trigger] s[i])
}

proof fn lemma_padded_decimal(n: nat, w: nat)
    ensures
        digit_run(zero_pad(decimal(n), w)),
{
    lemma_decimal_shape(n);
    let d = decimal(n);
    let p = zero_pad(d, w);
    if d.len() < w {
        let z = Seq::new((w - d.len()) as nat, |i: int| '0');
        assert(p == z + d);
        assert forall|i: int| 0 <= i < p.len() implies is_digit(#[trigger] p[i]) by {
            if i >= z.len() {
                assert(p[i] == d[i - z.len()]);
            }
        }
    }
}

proof fn lemma_padded_decimal_injective(a: nat, b: nat, w: nat)
    requires
        zero_pad(decimal(a), w) == zero_pad(decimal(b), w),
    ensures
        a == b,
{
    lemma_decimal_shape(a);
    lemma_decimal_shape(b);
    let da = decimal(a);
    let db = decimal(b);
    let p = zero_pad(da, w);
    if da.len() == db.len() {
        if da.len() < w {
            assert(da =~= p.subrange(w - da.len(), w as int));
            assert(db =~= p.subrange(w - db.len(), w as int));
        }
        lemma_decimal_injective(a, b);
    } else if da.len() < db.len() {
        // `b` begins where `a`'s padding is.
        if db.len() >= w {
            assert(p.len() == db.len());
            assert(p[0] == db[0]);
        } else {
            assert(p[w - db.len()] == db[0]);
        }
        assert(db[0] == '0');
    } else {
        if da.len() >= w {
            assert(p.len() == da.len());
            assert(p[0] == da[0]);
        } else {
            assert(p[w - da.len()] == da[0]);
        }
        assert(da[0] == '0');
    }
}

proof fn lemma_split_at_dot(p1: Seq<char>, e1: Seq<char>, p2: Seq<char>, e2: Seq<char>)
    requires
        digit_run(p1),
        digit_run(p2),
        p1 + seq!['.'] + e1 == p2 + seq!['.'] + e2,
    ensures
        p1 == p2,
{
    let s = p1 + seq!['.'] + e1;
    if p1.len() < p2.len() {
        assert(s[p1.len() as int] == '.');
        assert((p2 + seq!['.'] + e2)[p1.len() as int] == p2[p1.len() as int]);
        assert(is_digit(p2[p1.len() as int]));
    } else if p2.len() < p1.len() {
        assert(s[p2.len() as int] == p1[p2.len() as int]);
        assert((p2 + seq!['.'] + e2)[p2.len() as int] == '.');
        assert(is_digit(p1[p2.len() as int]));
    } else {
        assert(p1 =~= s.subrange(0, p1.len() as int));
        assert(p2 =~= (p2 + seq!['.'] + e2).subrange(0, p2.len() as int));
    }
}

proof fn lemma_segment_names_differ(i: nat, u: Seq<char>, j: nat, v: Seq<char>)
    requires
        i != j,
    ensures
        segment_file_name(i, u) != segment_file_name(j, v),
{
    lemma_padded_decimal(i, 5);
    lemma_padded_decimal(j, 5);
    if segment_file_name(i, u) == segment_file_name(j, v) {
        lemma_split_at_dot(
            zero_pad(decimal(i), 5),
            extension_of(u, "ts"@),
            zero_pad(decimal(j), 5),
            extension_of(v, "ts"@),
        );
        lemma_padded_decimal_injective(i, j, 5);
    }
}

proof fn lemma_map_names_differ(i: nat, u: Seq<char>, j: nat, v: Seq<char>)
    requires
        i != j,
    ensures
        map_file_name(i, u) != map_file_name(j, v),
{
    lemma_padded_decimal(i, 3);
    lemma_padded_decimal(j, 3);
    let a = zero_pad(decimal(i), 3) + seq!['.'] + extension_of(u, "mp4"@);
    let b = zero_pad(decimal(j), 3) + seq!['.'] + extension_of(v, "mp4"@);
    assert(map_file_name(i, u) =~= "init_"@ + a);
    assert(map_file_name(j, v) =~= "init_"@ + b);
    if map_file_name(i, u) == map_file_name(j, v) {
        reveal_strlit("init_");
        assert(a =~= map_file_name(i, u).skip(5));
        assert(b =~= map_file_name(j, v).skip(5));
        lemma_split_at_dot(
            zero_pad(decimal(i), 3),
            extension_of(u, "mp4"@),
            zero_pad(decimal(j), 3),
            extension_of(v, "mp4"@),
        );
        lemma_padded_decimal_injective(i, j, 3);
    }
}

proof fn lemma_segment_and_map_names_differ(i: nat, u: Seq<char>, k: nat, v: Seq<char>)
    ensures
        segment_file_name(i, u) != map_file_name(k, v),
{
    lemma_padded_decimal(i, 5);
    reveal_strlit("init_");
    assert(segment_file_name(i, u)[0] == zero_pad(decimal(i), 5)[0]);
    assert(map_file_name(k, v)[0] == 'i');
}

/// `m` is one of the map names given so far.
spec fn is_named(names: Seq<(Seq<char>, Seq<char>)>, m: MapView) -> bool {
    exists|k: int| 0 <= k < names.len() && #[trigger] names[k] == (m.url, m.file_name)
}

/// What holds after listing `n` segments: each segment's file is named after its
/// position and URL; the map names given so far are `init_000`, `init_001`, ... in
/// order, for pairwise different URLs; and every map in use carries the name given to
/// its URL.
spec fn listing_inv(st: ListState, n: nat) -> bool {
    &&& st.segments.len() == n
    &&& forall|i: int|
        0 <= i < n ==> (#[trigger] st.segments[i]).file_name == segment_file_name(i as nat, st.segments[i].url)
    &&& forall|k: int| 0 <= k < st.names.len() ==> (#[trigger] st.names[k]).1 == map_file_name(k as nat, st.names[k].0)
    &&& forall|k: int, l: int| 0 <= k < l < st.names.len() ==> (#[trigger] st.names[k]).0 != (#[trigger] st.names[l]).0
    &&& forall|i: int|
        0 <= i < n && (#[trigger] st.segments[i]).map is Some ==> is_named(st.names, st.segments[i].map->0)
    &&& st.map is Some ==> is_named(st.names, st.map->0)
}

proof fn lemma_lookup_found(names: Seq<(Seq<char>, Seq<char>)>, url: Seq<char>)
    ensures
        map_name_lookup(names, url) matches Some(n) ==> is_named(names, MapView { url, file_name: n }),
        map_name_lookup(names, url) is None ==> forall|k: int| 0 <= k < names.len() ==> (#[trigger] names[k]).0 != url,
    decreases names.len(),
{
    if names.len() > 0 {
        lemma_lookup_found(names.drop_last(), url);
        if names.last().0 == url {
            assert(names[names.len() - 1] == (url, names.last().1));
        } else {
            if let Some(n) = map_name_lookup(names, url) {
                let k = choose|k: int| 0 <= k < names.drop_last().len() && #[trigger] names.drop_last()[k] == (url, n);
                assert(names[k] == names.drop_last()[k]);
            }
            assert forall|k: int| 0 <= k < names.len() && map_name_lookup(names, url) is None implies (#[trigger] names[k]).0 != url by {
                if k < names.len() - 1 {
                    assert(names[k] == names.drop_last()[k]);
                }
            }
        }
    }
}

proof fn lemma_named_grows(names: Seq<(Seq<char>, Seq<char>)>, extra: (Seq<char>, Seq<char>), m: MapView)
    requires
        is_named(names, m),
    ensures
        is_named(names.push(extra), m),
{
    let k = choose|k: int| 0 <= k < names.len() && #[trigger] names[k] == (m.url, m.file_name);
    assert(names.push(extra)[k] == names[k]);
}

proof fn lemma_list_step_keeps_inv(
    base: Seq<char>,
    st: ListState,
    seg: SegmentTags,
    n: nat,
    ms: u64,
)
    requires
        listing_inv(st, n),
        list_step(base, st, seg, n, ms) is Ok,
    ensures
        listing_inv(list_step(base, st, seg, n, ms)->Ok_0, n + 1),
{
    let next = list_step(base, st, seg, n, ms)->Ok_0;
    let names = st.names;
    match seg.map_uri {
        None => {
            assert(next.names == names);
        },
        Some(u) => {
            let mu = url_joined(base, u)->0;
            lemma_lookup_found(names, mu);
            match map_name_lookup(names, mu) {
                Some(f) => {
                    assert(next.names == names);
                    assert(next.map == Some(MapView { url: mu, file_name: f }));
                },
                None => {
                    let f = map_file_name(names.len(), mu);
                    assert(next.names == names.push((mu, f)));
                    assert(next.map == Some(MapView { url: mu, file_name: f }));
                    assert(next.names[names.len() as int] == (mu, f));
                    assert forall|k: int| 0 <= k < next.names.len() implies (#[trigger] next.names[k]).1
                        == map_file_name(k as nat, next.names[k].0) by {
                        if k < names.len() {
                            assert(next.names[k] == names[k]);
                        }
                    }
                    assert forall|k: int, l: int| 0 <= k < l < next.names.len() implies (#[trigger] next.names[k]).0
                        != (#[trigger] next.names[l]).0 by {
                        assert(next.names[k] == names[k]);
                        if l < names.len() {
                            assert(next.names[l] == names[l]);
                        }
                    }
                    assert forall|i: int| 0 <= i < n && (#[trigger] st.segments[i]).map is Some implies is_named(
                        next.names,
                        st.segments[i].map->0,
                    ) by {
                        lemma_named_grows(names, (mu, f), st.segments[i].map->0);
                    }
                },
            }
        },
    }
    assert forall|i: int| 0 <= i < n + 1 implies (#[trigger] next.segments[i]).file_name == segment_file_name(
        i as nat,
        next.segments[i].url,
    ) by {
        if i < n {
            assert(next.segments[i] == st.segments[i]);
        }
    }
    assert forall|i: int| 0 <= i < n + 1 && (#[trigger] next.segments[i]).map is Some implies is_named(
        next.names,
        next.segments[i].map->0,
    ) by {
        if i < n {
            assert(next.segments[i] == st.segments[i]);
        }
    }
}

proof fn lemma_listing_inv(base: Seq<char>, segs: Seq<SegmentTags>, ms: u64)
    ensures
        list_segments(base, segs, ms) is Ok ==> listing_inv(list_segments(base, segs, ms)->Ok_0, segs.len()),
    decreases segs.len(),
{
    if segs.len() > 0 {
        lemma_listing_inv(base, segs.drop_last(), ms);
        if let Ok(st) = list_segments(base, segs.drop_last(), ms) {
            if list_step(base, st, segs.last(), (segs.len() - 1) as nat, ms) is Ok {
                lemma_list_step_keeps_inv(base, st, segs.last(), (segs.len() - 1) as nat, ms);
            }
        }
    }
}

/// The files of a listing never clash: different segments are saved under different
/// names; a map is saved under the same name wherever it is used, and different maps
/// under different names; and no segment is saved under a map's name.
pub open spec fn files_never_clash(segs: Seq<SegmentView>) -> bool {
    &&& forall|i: int, j: int|
        0 <= i < j < segs.len() ==> (#[trigger] segs[i]).file_name != (#[trigger] segs[j]).file_name
    &&& forall|i: int, j: int|
        0 <= i < segs.len() && 0 <= j < segs.len() && (#[trigger] segs[i]).map is Some
            && (#[trigger] segs[j]).map is Some ==> (segs[i].map->0.url == segs[j].map->0.url
            <==> segs[i].map->0.file_name == segs[j].map->0.file_name)
    &&& forall|i: int, j: int|
        0 <= i < segs.len() && 0 <= j < segs.len() && (#[trigger] segs[j]).map is Some ==> (#[trigger] segs[i]).file_name
            != segs[j].map->0.file_name
}

/// Whatever a media playlist holds, the files that listing it names never clash (see
/// `files_never_clash`): no download overwrites another.
pub proof fn law_listing_files_never_clash(url: Seq<char>, segments: Seq<SegmentTags>, media_sequence: u64)
    requires
        media_info_spec(url, segments, media_sequence) is Ok,
    ensures
        files_never_clash(media_info_spec(url, segments, media_sequence)->Ok_0.segments),
{
    {
        lemma_listing_inv(url, segments, media_sequence);
        let st = list_segments(url, segments, media_sequence)->Ok_0;
        let segs = st.segments;
        assert(media_info_spec(url, segments, media_sequence)->Ok_0.segments == segs);
        assert forall|i: int, j: int| 0 <= i < j < segs.len() implies (#[trigger] segs[i]).file_name
            != (#[trigger] segs[j]).file_name by {
            lemma_segment_names_differ(i as nat, segs[i].url, j as nat, segs[j].url);
        }
        assert forall|i: int, j: int|
            0 <= i < segs.len() && 0 <= j < segs.len() && (#[trigger] segs[i]).map is Some
                && (#[trigger] segs[j]).map is Some implies (segs[i].map->0.url == segs[j].map->0.url
            <==> segs[i].map->0.file_name == segs[j].map->0.file_name) by {
            let mi = segs[i].map->0;
            let mj = segs[j].map->0;
            let ki = choose|k: int| 0 <= k < st.names.len() && #[trigger] st.names[k] == (mi.url, mi.file_name);
            let kj = choose|k: int| 0 <= k < st.names.len() && #[trigger] st.names[k] == (mj.url, mj.file_name);
            if ki < kj {
                assert(st.names[ki].0 != st.names[kj].0);
                lemma_map_names_differ(ki as nat, mi.url, kj as nat, mj.url);
            } else if kj < ki {
                assert(st.names[kj].0 != st.names[ki].0);
                lemma_map_names_differ(ki as nat, mi.url, kj as nat, mj.url);
            }
        }
        assert forall|i: int, j: int|
            0 <= i < segs.len() && 0 <= j < segs.len() && (#[trigger] segs[j]).map is Some implies (#[trigger] segs[i]).file_name
            != segs[j].map->0.file_name by {
            let mj = segs[j].map->0;
            let kj = choose|k: int| 0 <= k < st.names.len() && #[trigger] st.names[k] == (mj.url, mj.file_name);
            assert(st.names[kj].1 == map_file_name(kj as nat, st.names[kj].0));
            assert(segs[i].file_name == segment_file_name(i as nat, segs[i].url));
            lemma_segment_and_map_names_differ(i as nat, segs[i].url, kj as nat, mj.url);
        }
    }
}

/// The position of the last of the first `n` segments that carries a key tag, if any.
pub open spec fn last_key_tag(segs: Seq<SegmentTags>, n: nat) -> Option<nat>
    decreases n,
{
    if n == 0 || n > segs.len() {
        None
    } else if segs[n - 1].key is Some {
        Some((n - 1) as nat)
    } else {
        last_key_tag(segs, (n - 1) as nat)
    }
}

/// `key` is the key in force after the first `n` segments of a playlist read from
/// `base`: none before any key tag and after a `METHOD=NONE` tag; after an `AES-128` tag,
/// its `URI` resolved against `base`, with its `IV`.
pub open spec fn key_in_force(base: Seq<char>, segs: Seq<SegmentTags>, n: nat, key: Option<KeyView>) -> bool {
    match last_key_tag(segs, n) {
        None => key is None,
        Some(j) => {
            let t = segs[j as int].key->0;
            if t.method == "NONE"@ {
                key is None
            } else {
                &&& t.method == "AES-128"@
                &&& t.uri is Some
                &&& key is Some
                &&& Some(key->0.url) == url_joined(base, t.uri->0)
                &&& key->0.iv == t.iv
            }
        }
    }
}

/// The position of the last of the first `n` segments that carries a map tag, if any.
pub open spec fn last_map_tag(segs: Seq<SegmentTags>, n: nat) -> Option<nat>
    decreases n,
{
    if n == 0 || n > segs.len() {
        None
    } else if segs[n - 1].map_uri is Some {
        Some((n - 1) as nat)
    } else {
        last_map_tag(segs, (n - 1) as nat)
    }
}

/// `map` is the map in force after the first `n` segments of a playlist read from
/// `base`: none before any map tag, else the `URI` of the last map tag resolved against
/// `base`.
pub open spec fn map_in_force(base: Seq<char>, segs: Seq<SegmentTags>, n: nat, map: Option<MapView>) -> bool {
    match last_map_tag(segs, n) {
        None => map is None,
        Some(j) => map is Some && Some(map->0.url) == url_joined(base, segs[j as int].map_uri->0),
    }
}

/// The listed segment `v` is the segment tag `t`, the `i`-th, of a playlist read from
/// `base` with first media sequence number `ms`: its URI resolved against `base`, its
/// duration, and the media sequence number `ms + i`.
pub open spec fn segment_listed_from(base: Seq<char>, t: SegmentTags, i: nat, ms: u64, v: SegmentView) -> bool {
    &&& Some(v.url) == url_joined(base, t.uri)
    &&& v.duration_bits == t.duration_bits
    &&& v.media_sequence as int == (ms + (i as u64)) % 0x1_0000_0000_0000_0000
}

proof fn lemma_last_map_tag_prefix(segs: Seq<SegmentTags>, m: nat, n: nat)
    requires
        n <= m <= segs.len(),
    ensures
        last_map_tag(segs.subrange(0, m as int), n) == last_map_tag(segs, n),
        last_map_tag(segs, n) matches Some(j) ==> j < n,
    decreases n,
{
    if n > 0 {
        assert(segs.subrange(0, m as int)[n - 1] == segs[n - 1]);
        lemma_last_map_tag_prefix(segs, m, (n - 1) as nat);
    }
}

proof fn lemma_last_key_tag_bound(segs: Seq<SegmentTags>, n: nat)
    ensures
        last_key_tag(segs, n) matches Some(j) ==> j < n && j < segs.len() && segs[j as int].key is Some,
    decreases n,
{
    if n > 0 && n <= segs.len() && segs[n - 1].key is None {
        lemma_last_key_tag_bound(segs, (n - 1) as nat);
    }
}

proof fn lemma_last_key_tag_prefix(segs: Seq<SegmentTags>, m: nat, n: nat)
    requires
        n <= m <= segs.len(),
    ensures
        last_key_tag(segs.subrange(0, m as int), n) == last_key_tag(segs, n),
    decreases n,
{
    if n > 0 {
        assert(segs.subrange(0, m as int)[n - 1] == segs[n - 1]);
        lemma_last_key_tag_prefix(segs, m, (n - 1) as nat);
    }
}

proof fn lemma_listing_keys(base: Seq<char>, segs: Seq<SegmentTags>, ms: u64)
    requires
        list_segments(base, segs, ms) is Ok,
    ensures
        key_in_force(base, segs, segs.len(), list_segments(base, segs, ms)->Ok_0.key),
        forall|i: int|
            0 <= i < segs.len() ==> key_in_force(
                base,
                segs,
                (i + 1) as nat,
                (#[trigger] list_segments(base, segs, ms)->Ok_0.segments[i]).key,
            ),
        list_segments(base, segs, ms)->Ok_0.segments.len() == segs.len(),
        map_in_force(base, segs, segs.len(), list_segments(base, segs, ms)->Ok_0.map),
        forall|i: int|
            0 <= i < segs.len() ==> map_in_force(
                base,
                segs,
                (i + 1) as nat,
                (#[trigger] list_segments(base, segs, ms)->Ok_0.segments[i]).map,
            ) && segment_listed_from(base, segs[i], i as nat, ms, list_segments(base, segs, ms)->Ok_0.segments[i]),
    decreases segs.len(),
{
    if segs.len() > 0 {
        let rest = segs.drop_last();
        let n = segs.len();
        lemma_listing_keys(base, rest, ms);
        let st = list_segments(base, rest, ms)->Ok_0;
        let next = list_segments(base, segs, ms)->Ok_0;
        assert(rest =~= segs.subrange(0, n - 1));
        assert forall|m: nat| m <= n - 1 implies #[trigger] last_key_tag(rest, m) == last_key_tag(segs, m) by {
            lemma_last_key_tag_prefix(segs, (n - 1) as nat, m);
        }
        assert forall|m: nat, k: Option<KeyView>| m <= n - 1 && key_in_force(base, rest, m, k) implies #[trigger] key_in_force(base, segs, m, k) by {
            assert(last_key_tag(rest, m) == last_key_tag(segs, m));
            lemma_last_key_tag_bound(segs, m);
            if let Some(j) = last_key_tag(segs, m) {
                assert(rest[j as int] == segs[j as int]);
            }
        }
        assert(segs.last() == segs[n - 1]);
        assert(list_segments(base, segs, ms) == list_step(base, st, segs[n - 1], (n - 1) as nat, ms));
        assert forall|m: nat, k: Option<MapView>| m <= n - 1 && map_in_force(base, rest, m, k) implies #[trigger] map_in_force(base, segs, m, k) by {
            lemma_last_map_tag_prefix(segs, (n - 1) as nat, m);
            if let Some(j) = last_map_tag(segs, m) {
                assert(rest[j as int] == segs[j as int]);
            }
        }
        assert(map_in_force(base, segs, n, next.map)) by {
            if segs[n - 1].map_uri is Some {
                assert(last_map_tag(segs, n) == Some((n - 1) as nat));
            } else {
                assert(next.map == st.map);
                assert(map_in_force(base, rest, (n - 1) as nat, st.map));
                assert(map_in_force(base, segs, (n - 1) as nat, st.map));
            }
        }
        assert(key_in_force(base, segs, n, next.key)) by {
            if segs[n - 1].key is Some {
                let t = segs[n - 1].key->0;
                assert(last_key_tag(segs, n) == Some((n - 1) as nat));
                assert(key_spec(base, t) is Ok);
                assert(next.key == key_spec(base, t)->Ok_0);
                assert(segs[(n - 1) as int].key->0 == t);
            } else {
                assert(next.key == st.key);
                assert(key_in_force(base, rest, (n - 1) as nat, st.key));
                assert(key_in_force(base, segs, (n - 1) as nat, st.key));
                assert(last_key_tag(segs, n) == last_key_tag(segs, (n - 1) as nat));
                assert(key_in_force(base, rest, (n - 1) as nat, st.key));
            }
        }
        assert forall|i: int| 0 <= i < segs.len() implies key_in_force(
            base,
            segs,
            (i + 1) as nat,
            (#[trigger] next.segments[i]).key,
        ) by {
            if i < n - 1 {
                assert(next.segments[i] == st.segments[i]);
                assert(key_in_force(base, rest, (i + 1) as nat, st.segments[i].key));
            }
        }
        assert forall|i: int| 0 <= i < segs.len() implies map_in_force(
            base,
            segs,
            (i + 1) as nat,
            (#[trigger] next.segments[i]).map,
        ) && segment_listed_from(base, segs[i], i as nat, ms, next.segments[i]) by {
            if i == n - 1 {
                assert(next.segments[i].map == next.map);
                let a = ms as int;
                let b = (i as u64) as int;
                let w = wrapping_sum(ms, i as u64) as int;
                assert(next.segments[i].media_sequence == wrapping_sum(ms, i as u64));
                if a + b > u64::MAX {
                    assert(w == a + b - 0x1_0000_0000_0000_0000);
                    assert((a + b) % 0x1_0000_0000_0000_0000 == a + b - 0x1_0000_0000_0000_0000) by (nonlinear_arith)
                        requires a + b >= 0x1_0000_0000_0000_0000, a + b < 0x2_0000_0000_0000_0000;
                } else {
                    assert((a + b) % 0x1_0000_0000_0000_0000 == a + b) by (nonlinear_arith)
                        requires 0 <= a + b < 0x1_0000_0000_0000_0000;
                }
            }
            if i < n - 1 {
                assert(next.segments[i] == st.segments[i]);
                assert(rest[i] == segs[i]);
                assert(map_in_force(base, rest, (i + 1) as nat, st.segments[i].map));
            }
        }
    } else {
        assert(last_key_tag(segs, 0) is None);
    }
}

/// Each listed segment is the segment tag at its position: its URI resolved against the
/// playlist URL, its duration, the media sequence number counted from the first (modulo
/// `2^64`), and the map in force at it (that of the last map tag at or before it).
pub proof fn law_listing_segments(url: Seq<char>, segments: Seq<SegmentTags>, media_sequence: u64)
    requires
        media_info_spec(url, segments, media_sequence) is Ok,
    ensures
        media_info_spec(url, segments, media_sequence)->Ok_0.segments.len() == segments.len(),
        forall|i: int|
            0 <= i < segments.len() ==> segment_listed_from(
                url,
                segments[i],
                i as nat,
                media_sequence,
                #[trigger] media_info_spec(url, segments, media_sequence)->Ok_0.segments[i],
            ) && map_in_force(url, segments, (i + 1) as nat, media_info_spec(url, segments, media_sequence)->Ok_0.segments[i].map),
{
    lemma_listing_keys(url, segments, media_sequence);
}

/// Each listed segment carries the key in force at it (see `key_in_force`): that of the
/// last key tag at or before it. A segment after a `METHOD=NONE` tag carries no key,
/// whatever key came before; one after an `AES-128` tag carries that tag's key.
pub proof fn law_listing_keys(url: Seq<char>, segments: Seq<SegmentTags>, media_sequence: u64)
    requires
        media_info_spec(url, segments, media_sequence) is Ok,
    ensures
        media_info_spec(url, segments, media_sequence)->Ok_0.segments.len() == segments.len(),
        forall|i: int|
            0 <= i < segments.len() ==> key_in_force(
                url,
                segments,
                (i + 1) as nat,
                (#[trigger] media_info_spec(url, segments, media_sequence)->Ok_0.segments[i]).key,
            ),
        forall|i: int|
            0 <= i < segments.len() && (#[trigger] segments[i]).key is Some && segments[i].key->0.method == "NONE"@
                ==> media_info_spec(url, segments, media_sequence)->Ok_0.segments[i].key is None,
{
    lemma_listing_keys(url, segments, media_sequence);
    let segs = media_info_spec(url, segments, media_sequence)->Ok_0.segments;
    assert(segs == list_segments(url, segments, media_sequence)->Ok_0.segments);
    assert forall|i: int|
        0 <= i < segments.len() && (#[trigger] segments[i]).key is Some && segments[i].key->0.method == "NONE"@
            implies segs[i].key is None by {
        assert(key_in_force(url, segments, (i + 1) as nat, list_segments(url, segments, media_sequence)->Ok_0.segments[i].key));
        assert(last_key_tag(segments, (i + 1) as nat) == Some(i as nat));
    }
}
} // verus!
