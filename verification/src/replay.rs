use vstd::prelude::*;
use std::io::{Read, Write};
use base64::Engine;
use flate2::read::GzDecoder;
use flate2::write::GzEncoder;
use vstd::string::StringSliceAdditionalSpecFns;
use crate::deck::{base64_decode, decode_base64};
use crate::duel::{HostInfo, Mode, default_host_info};
use crate::history::HistoryRecord;
use crate::text::{all_digits, chars_of, digits_value, parse_digits, sub_chars};

verus! {

// ---------------------------------------------------------------------------
// Cloud replays: duels saved in the history and played back to a spectator.
// ---------------------------------------------------------------------------

/// Largest replay kept, stored or played: 64 MiB.
pub const MAX_REPLAY: usize = 67108864;

/// Why a cloud replay cannot be played.
#[derive(Clone, Copy, Debug, PartialEq, Eq, Structural)]
pub enum ReplayError {
    /// The replay number is not a positive integer.
    NotPositive,
    /// The replay number does not fit in 64 bits.
    OutOfRange,
    /// The stored replay is larger than 64 MiB.
    TooLarge,
    /// The stored replay is in an old format (no `yrp3d:v1:` prefix).
    Legacy,
    /// The stored replay is not valid base64.
    NotBase64,
    /// The stored replay is not gzip data.
    NotGzip,
    /// The gzip data cannot be decompressed.
    Corrupt,
    /// The decompressed replay is larger than 64 MiB.
    Inflated,
    /// A record header of the replay is cut short.
    TruncatedHeader,
    /// A record of the replay claims more bytes than follow.
    BadLength,
    /// A message is too long for a 16-bit length.
    FrameTooLong,
    /// The messages together exceed 64 MiB.
    FramesTooLarge,
    /// The replay's starting life points are negative.
    BadLifePoints,
    /// The replay cannot be read as a .yrp3d message stream, or data follows it.
    Unreadable,
    /// The replay does not start with the players' names.
    NoPlayers,
    /// The replay's second message is not a duel start for spectators.
    NoStart,
    /// The replay holds a message that is not for spectators (names, chat or a replay).
    NotSpectator,
    /// The replay holds a prompt for a player's choice.
    Prompt,
}

/// The number in a cloud-replay password `R#<number>`: a positive 64-bit integer written
/// in decimal digits.
pub open spec fn spec_replay_id(pass: Seq<char>) -> Result<i64, ReplayError> {
    let id = if pass.len() >= 2 && pass[0] == 'R' && pass[1] == '#' { pass.skip(2) } else { Seq::empty() };
    if id.len() == 0 || !all_digits(id) {
        Err(ReplayError::NotPositive)
    } else if digits_value(id) > i64::MAX {
        Err(ReplayError::OutOfRange)
    } else if digits_value(id) == 0 {
        Err(ReplayError::NotPositive)
    } else {
        Ok(digits_value(id) as i64)
    }
}

/// The replay number a spectator asks for with the password `R#<number>`.
pub fn replay_id(pass: &str) -> (res: Result<i64, ReplayError>)
    ensures
        res == spec_replay_id(pass@),
{
    let p = chars_of(pass);
    if !(p.len() >= 2 && p[0] == 'R' && p[1] == '#') {
        return Err(ReplayError::NotPositive);
    }
    let id = sub_chars(&p, 2, p.len());
    assert(id@ =~= p@.skip(2));
    if id.len() == 0 {
        return Err(ReplayError::NotPositive);
    }
    let mut i: usize = 0;
    while i < id.len()
        invariant
            i <= id@.len(),
            id@ == pass@.skip(2),
            pass@.len() >= 2 && pass@[0] == 'R' && pass@[1] == '#',
            forall|j: int| 0 <= j < i ==> crate::text::is_digit(#[trigger] id@[j]),
        decreases id@.len() - i,
    {
        if !(id[i] >= '0' && id[i] <= '9') {
            assert(!crate::text::is_digit(id@[i as int]));
            return Err(ReplayError::NotPositive);
        }
        i = i + 1;
    }
    match parse_digits(&id, 0x7fff_ffff_ffff_ffff) {
        None => Err(ReplayError::OutOfRange),
        Some(v) => if v == 0 {
            Err(ReplayError::NotPositive)
        } else {
            Ok(v as i64)
        },
    }
}

/// The prefix of stored replays: `yrp3d:v1:`.
pub open spec fn replay_prefix() -> Seq<u8> {
    seq![0x79u8, 0x72, 0x70, 0x33, 0x64, 0x3a, 0x76, 0x31, 0x3a]
}

/// The gzip data of a stored replay: at most 64 MiB of text, `yrp3d:v1:` and base64 of
/// data that starts with the gzip magic and the deflate method (`1f 8b 08`).
pub open spec fn spec_compressed(encoded: Seq<u8>) -> Result<Seq<u8>, ReplayError> {
    if encoded.len() > MAX_REPLAY {
        Err(ReplayError::TooLarge)
    } else if !(encoded.len() >= 9 && encoded.take(9) == replay_prefix()) {
        Err(ReplayError::Legacy)
    } else {
        match base64_decode(encoded.skip(9)) {
            None => Err(ReplayError::NotBase64),
            Some(c) => if c.len() >= 3 && c[0] == 0x1f && c[1] == 0x8b && c[2] == 0x08 {
                Ok(c)
            } else {
                Err(ReplayError::NotGzip)
            },
        }
    }
}

/// The gzip data of a stored replay (see `spec_compressed`); this is what a download of
/// the replay hands out.
pub fn compressed_replay(encoded: &str) -> (res: Result<Vec<u8>, ReplayError>)
    ensures
        match spec_compressed(encoded.spec_bytes()) {
            Ok(c) => res matches Ok(v) && v@ == c,
            Err(e) => res == Err::<Vec<u8>, ReplayError>(e),
        },
{
    let bytes = encoded.as_bytes();
    if bytes.len() > MAX_REPLAY {
        return Err(ReplayError::TooLarge);
    }
    if !(bytes.len() >= 9 && bytes[0] == 0x79 && bytes[1] == 0x72 && bytes[2] == 0x70 && bytes[3] == 0x33 && bytes[4]
        == 0x64 && bytes[5] == 0x3a && bytes[6] == 0x76 && bytes[7] == 0x31 && bytes[8] == 0x3a) {
        proof {
            if bytes@.len() >= 9 && bytes@.take(9) == replay_prefix() {
                assert(bytes@.take(9)[0] == bytes@[0]);
                assert(bytes@.take(9)[8] == bytes@[8]);
            }
        }
        return Err(ReplayError::Legacy);
    }
    assert(bytes@.take(9) =~= replay_prefix());
    let body = vstd::slice::slice_subrange(bytes, 9, bytes.len());
    assert(body@ =~= bytes@.skip(9));
    match decode_base64(body) {
        None => Err(ReplayError::NotBase64),
        Some(c) => if c.len() >= 3 && c[0] == 0x1f && c[1] == 0x8b && c[2] == 0x08 {
            Ok(c)
        } else {
            Err(ReplayError::NotGzip)
        },
    }
}

/// What `flate2::read::GzDecoder` yields for the gzip data `data` when at most `cap` bytes
/// are read (`Read::take` and `read_to_end`), or `None` where it reports an error.
pub uninterp spec fn gunzip_prefix(data: Seq<u8>, cap: nat) -> Option<Seq<u8>>;

/// Decompresses at most `cap` bytes of gzip data with `flate2::read::GzDecoder`. The
/// result is named by `gunzip_prefix`; `Read::take` keeps it to `cap` bytes.
#[verifier::external_body]
fn inflate(data: &[u8], cap: u64) -> (res: Option<Vec<u8>>)
    ensures
        match res {
            Some(v) => gunzip_prefix(data@, cap as nat) == Some(v@) && v@.len() <= cap,
            None => gunzip_prefix(data@, cap as nat) is None,
        },
{
    let mut out = Vec::new();
    GzDecoder::new(data).take(cap).read_to_end(&mut out).ok().map(|_| out)
}

/// The replay held by a stored text: its gzip data (see `spec_compressed`), decompressed,
/// at most 64 MiB.
pub open spec fn spec_unpack(encoded: Seq<u8>) -> Result<Seq<u8>, ReplayError> {
    match spec_compressed(encoded) {
        Err(e) => Err(e),
        Ok(c) => match gunzip_prefix(c, (MAX_REPLAY + 1) as nat) {
            None => Err(ReplayError::Corrupt),
            Some(b) => if b.len() > MAX_REPLAY {
                Err(ReplayError::Inflated)
            } else {
                Ok(b)
            },
        },
    }
}

/// The replay held by a stored text (see `spec_unpack`).
pub fn unpack(encoded: &str) -> (res: Result<Vec<u8>, ReplayError>)
    ensures
        match spec_unpack(encoded.spec_bytes()) {
            Ok(b) => res matches Ok(v) && v@ == b,
            Err(e) => res == Err::<Vec<u8>, ReplayError>(e),
        },
{
    let compressed = compressed_replay(encoded)?;
    match inflate(compressed.as_slice(), (MAX_REPLAY + 1) as u64) {
        None => Err(ReplayError::Corrupt),
        Some(buffer) => if buffer.len() > MAX_REPLAY {
            Err(ReplayError::Inflated)
        } else {
            Ok(buffer)
        },
    }
}

/// What `flate2::write::GzEncoder` at the default level writes for `data`, or `None`
/// where it reports an error.
pub uninterp spec fn gzip_bytes(data: Seq<u8>) -> Option<Seq<u8>>;

/// What `base64`'s standard engine encodes `data` to.
pub uninterp spec fn base64_text(data: Seq<u8>) -> Seq<char>;

/// Compresses with `flate2::write::GzEncoder` at `Compression::default()`. The result is
/// named by `gzip_bytes`. Besides, as flate2 writes and reads the format: the data starts
/// with the gzip magic and the deflate method (`1f 8b 08`, written by `GzBuilder`), and
/// `GzDecoder` gives the input back when at least its length may be read.
#[verifier::external_body]
fn gzip(data: &[u8]) -> (res: Option<Vec<u8>>)
    ensures
        match res {
            Some(v) => gzip_bytes(data@) == Some(v@),
            None => gzip_bytes(data@) is None,
        },
        res matches Some(v) ==> v@.len() >= 3 && v@[0] == 0x1f && v@[1] == 0x8b && v@[2] == 0x08,
        res matches Some(v) ==> forall|cap: nat| data@.len() <= cap ==> #[trigger] gunzip_prefix(v@, cap) == Some(data@),
{
    let mut encoder = GzEncoder::new(Vec::new(), flate2::Compression::default());
    match encoder.write_all(data) {
        Ok(()) => encoder.finish().ok(),
        Err(_) => None,
    }
}

/// Encodes with `base64::engine::general_purpose::STANDARD.encode`. The result is named by
/// `base64_text`; it is ASCII, and the same engine decodes its bytes back to `data`.
#[verifier::external_body]
fn encode_base64(data: &[u8]) -> (res: String)
    ensures
        res@ == base64_text(data@),
        vstd::utf8::is_ascii_chars(res@),
        base64_decode(vstd::utf8::encode_utf8(res@)) == Some(data@),
{
    base64::engine::general_purpose::STANDARD.encode(data)
}

/// The text a replay is stored as: `yrp3d:v1:` and the base64 of its gzip data; `None`
/// where the compressor reports an error.
pub fn encode_replay(buffer: &Vec<u8>) -> (res: Option<String>)
    ensures
        match gzip_bytes(buffer@) {
            Some(z) => res matches Some(s) && s@ == seq!['y', 'r', 'p', '3', 'd', ':', 'v', '1', ':'] + base64_text(z),
            None => res is None,
        },
        res matches Some(s) ==> (s@.len() <= MAX_REPLAY ==> (gzip_bytes(buffer@) matches Some(z)
            && spec_compressed(vstd::utf8::encode_utf8(s@)) == Ok::<Seq<u8>, ReplayError>(z))),
        res matches Some(s) ==> (buffer@.len() <= MAX_REPLAY && s@.len() <= MAX_REPLAY ==> spec_unpack(
            vstd::utf8::encode_utf8(s@),
        ) == Ok::<Seq<u8>, ReplayError>(buffer@)),
{
    let z = match gzip(buffer.as_slice()) {
        Some(z) => z,
        None => {
            return None;
        },
    };
    let mut s = "yrp3d:v1:".to_owned();
    proof {
        reveal_strlit("yrp3d:v1:");
    }
    let b = encode_base64(z.as_slice());
    crate::text::push_chars(&mut s, &chars_of(b.as_str()));
    let ghost prefix = seq!['y', 'r', 'p', '3', 'd', ':', 'v', '1', ':'];
    assert(s@ =~= prefix + base64_text(z@));
    proof {
        let bytes = vstd::utf8::encode_utf8(s@);
        lemma_encode_utf8_concat(prefix, b@);
        vstd::utf8::is_ascii_chars_encode_utf8(prefix);
        vstd::utf8::is_ascii_chars_encode_utf8(b@);
        assert(vstd::utf8::encode_utf8(prefix) =~= replay_prefix());
        assert(bytes.take(9) =~= replay_prefix());
        assert(bytes.skip(9) =~= vstd::utf8::encode_utf8(b@));
        if s@.len() <= MAX_REPLAY {
            assert(bytes.len() == s@.len());
            assert(spec_compressed(bytes) == Ok::<Seq<u8>, ReplayError>(z@));
            if buffer@.len() <= MAX_REPLAY {
                assert(gunzip_prefix(z@, (MAX_REPLAY + 1) as nat) == Some(buffer@));
            }
        }
    }
    Some(s)
}

/// The UTF-8 bytes of two texts one after the other are the bytes of each, in turn.
proof fn lemma_encode_utf8_concat(a: Seq<char>, b: Seq<char>)
    ensures
        vstd::utf8::encode_utf8(a + b) == vstd::utf8::encode_utf8(a) + vstd::utf8::encode_utf8(b),
    decreases a.len(),
{
    if a.len() > 0 {
        assert((a + b).drop_first() =~= a.drop_first() + b);
        lemma_encode_utf8_concat(a.drop_first(), b);
        assert(vstd::utf8::encode_utf8(a + b) =~= vstd::utf8::encode_utf8(a) + vstd::utf8::encode_utf8(b));
    } else {
        assert(a + b =~= b);
    }
}

// ---------------------------------------------------------------------------
// The record layer of .yrp3d replays
// ---------------------------------------------------------------------------

/// The little-endian 32-bit number at `i`.
pub open spec fn le_u32_at(b: Seq<u8>, i: int) -> int {
    b[i] as int + 256 * (b[i + 1] as int) + 65536 * (b[i + 2] as int) + 16777216 * (b[i + 3] as int)
}

/// The records of a .yrp3d replay: each a type byte, a little-endian 32-bit length and
/// that many bytes; a header cut short or a length beyond the data is refused.
pub open spec fn spec_records(b: Seq<u8>) -> Result<Seq<(u8, Seq<u8>)>, ReplayError>
    decreases b.len(),
{
    if b.len() == 0 {
        Ok(Seq::empty())
    } else if b.len() < 5 {
        Err(ReplayError::TruncatedHeader)
    } else {
        let len = le_u32_at(b, 1);
        if len > b.len() - 5 {
            Err(ReplayError::BadLength)
        } else {
            match spec_records(b.skip(5 + len)) {
                Err(e) => Err(e),
                Ok(rest) => Ok(seq![(b[0], b.subrange(5, 5 + len))] + rest),
            }
        }
    }
}

/// The records from `from` on.
pub open spec fn records_from(b: Seq<u8>, from: int) -> Result<Seq<(u8, Seq<u8>)>, ReplayError> {
    spec_records(b.skip(from))
}

/// Each record's type and bytes.
pub open spec fn record_views(v: Seq<(u8, Vec<u8>)>) -> Seq<(u8, Seq<u8>)> {
    v.map_values(|r: (u8, Vec<u8>)| (r.0, r.1@))
}

/// The records read so far followed by what the rest of the data yields.
pub open spec fn after_records(
    seen: Seq<(u8, Seq<u8>)>,
    rest: Result<Seq<(u8, Seq<u8>)>, ReplayError>,
) -> Result<Seq<(u8, Seq<u8>)>, ReplayError> {
    match rest {
        Ok(r) => Ok(seen + r),
        Err(e) => Err(e),
    }
}

/// The records of a .yrp3d replay (see `spec_records`).
pub fn records(buffer: &Vec<u8>) -> (res: Result<Vec<(u8, Vec<u8>)>, ReplayError>)
    ensures
        match res {
            Ok(v) => spec_records(buffer@) == Ok::<Seq<(u8, Seq<u8>)>, ReplayError>(record_views(v@)),
            Err(e) => spec_records(buffer@) == Err::<Seq<(u8, Seq<u8>)>, ReplayError>(e),
        },
{
    let n = buffer.len();
    let mut out: Vec<(u8, Vec<u8>)> = Vec::new();
    let mut offset: usize = 0;
    assert(buffer@.skip(0) =~= buffer@);
    proof {
        match spec_records(buffer@) {
            Ok(r) => assert(record_views(out@) + r =~= r),
            Err(_) => {},
        }
    }
    while offset < n
        invariant
            n == buffer@.len(),
            offset <= n,
            spec_records(buffer@) == after_records(record_views(out@), spec_records(buffer@.skip(offset as int))),
        decreases n - offset,
    {
        let ghost rest = buffer@.skip(offset as int);
        if n - offset < 5 {
            return Err(ReplayError::TruncatedHeader);
        }
        let len = (buffer[offset + 1] as u64) + 256 * (buffer[offset + 2] as u64) + 65536 * (buffer[offset + 3] as u64)
            + 16777216 * (buffer[offset + 4] as u64);
        assert(len == le_u32_at(rest, 1));
        if len > (n - offset - 5) as u64 {
            return Err(ReplayError::BadLength);
        }
        let len = len as usize;
        let kind = buffer[offset];
        let mut body: Vec<u8> = Vec::new();
        let mut k: usize = 0;
        while k < len
            invariant
                offset + 5 + len <= n == buffer@.len(),
                k <= len,
                body@ == buffer@.subrange(offset + 5, offset + 5 + k),
            decreases len - k,
        {
            body.push(buffer[offset + 5 + k]);
            k = k + 1;
            assert(body@ =~= buffer@.subrange(offset + 5, offset + 5 + k));
        }
        let ghost seen = record_views(out@);
        proof {
            assert(rest.subrange(5, 5 + len) =~= body@);
            assert(rest.skip(5 + len) =~= buffer@.skip(offset + 5 + len));
            assert(rest[0] == kind);
        }
        out.push((kind, body));
        proof {
            assert(record_views(out@) =~= seen.push((kind, body@)));
            match spec_records(buffer@.skip(offset + 5 + len)) {
                Ok(tail) => {
                    assert(seen.push((kind, body@)) + tail =~= seen + (seq![(kind, body@)] + tail));
                },
                Err(_) => {},
            }
        }
        offset = offset + 5 + len;
    }
    proof {
        assert(buffer@.skip(n as int) =~= Seq::<u8>::empty());
        assert(record_views(out@) + Seq::<(u8, Seq<u8>)>::empty() =~= record_views(out@));
    }
    Ok(out)
}

// ---------------------------------------------------------------------------
// Playing a replay back
// ---------------------------------------------------------------------------

/// The seats of a replay's players, from the names it recorded: a tag duel when either
/// tag name is set, with the host, the host's partner, the client's partner and the
/// client in seats 0 to 3; else the host and the client in seats 0 and 1.
pub fn replay_players(host: &String, host_tag: &String, client: &String, client_tag: &String) -> (res: (
    Vec<(u8, String)>,
    bool,
))
    ensures
        res.1 == (host_tag@.len() > 0 || client_tag@.len() > 0),
        res.1 ==> res.0@ == seq![(0u8, *host), (1u8, *host_tag), (2u8, *client_tag), (3u8, *client)],
        !res.1 ==> res.0@ == seq![(0u8, *host), (1u8, *client)],
{
    let tag = host_tag.as_str().unicode_len() > 0 || client_tag.as_str().unicode_len() > 0;
    let mut players: Vec<(u8, String)> = Vec::new();
    players.push((0, host.clone()));
    if tag {
        players.push((1, host_tag.clone()));
        players.push((2, client_tag.clone()));
        players.push((3, client.clone()));
    } else {
        players.push((1, client.clone()));
    }
    (players, tag)
}

/// The rules a replay is shown with: the recorded duel rule and starting life points, tag
/// or single mode, the rest as for a room with no options.
pub fn replay_host_info(rule: u8, start_lp: i32, tag: bool) -> (res: Result<HostInfo, ReplayError>)
    ensures
        start_lp < 0 ==> res == Err::<HostInfo, ReplayError>(ReplayError::BadLifePoints),
        start_lp >= 0 ==> res == Ok::<HostInfo, ReplayError>(
            HostInfo {
                lflist: 0,
                duel_rule: rule,
                start_lp: start_lp as u32,
                mode: if tag { Mode::Tag } else { Mode::Single },
                ..default_host_info()
            },
        ),
{
    if start_lp < 0 {
        return Err(ReplayError::BadLifePoints);
    }
    let mut info = HostInfo::new();
    info.lflist = 0;
    info.duel_rule = rule;
    info.start_lp = start_lp as u32;
    info.mode = if tag { Mode::Tag } else { Mode::Single };
    Ok(info)
}

/// The bytes of each frame.
pub open spec fn frame_views(v: Seq<Vec<u8>>) -> Seq<Seq<u8>> {
    v.map_values(|f: Vec<u8>| f@)
}

/// A frame with its 16-bit little-endian length before it.
pub open spec fn framed(frame: Seq<u8>) -> Seq<u8> {
    seq![(frame.len() % 256) as u8, (frame.len() / 256) as u8] + frame
}

/// The frames packed one after another, each after its length; refused at the first
/// frame longer than 65535 bytes or that takes the packed size over 64 MiB.
pub open spec fn spec_pack(frames: Seq<Seq<u8>>) -> Result<Seq<u8>, ReplayError>
    decreases frames.len(),
{
    if frames.len() == 0 {
        Ok(Seq::empty())
    } else {
        match spec_pack(frames.drop_last()) {
            Err(e) => Err(e),
            Ok(p) => {
                let f = frames.last();
                if f.len() > 65535 {
                    Err(ReplayError::FrameTooLong)
                } else if p.len() + 2 + f.len() > MAX_REPLAY {
                    Err(ReplayError::FramesTooLarge)
                } else {
                    Ok(p + framed(f))
                }
            },
        }
    }
}

/// The frames of a packed buffer, read front to back; `None` when a length runs past the
/// end.
pub open spec fn spec_unframe(b: Seq<u8>) -> Option<Seq<Seq<u8>>>
    decreases b.len(),
{
    if b.len() == 0 {
        Some(Seq::empty())
    } else if b.len() < 2 {
        None
    } else {
        let len = b[0] as int + 256 * (b[1] as int);
        if len > b.len() - 2 {
            None
        } else {
            match spec_unframe(b.skip(2 + len)) {
                None => None,
                Some(rest) => Some(seq![b.subrange(2, 2 + len)] + rest),
            }
        }
    }
}

proof fn lemma_spec_pack_error_stays(frames: Seq<Seq<u8>>, k: int)
    requires
        0 <= k <= frames.len(),
        spec_pack(frames.take(k)) is Err,
    ensures
        spec_pack(frames) == spec_pack(frames.take(k)),
    decreases frames.len() - k,
{
    if k < frames.len() {
        assert(frames.take(k + 1).drop_last() =~= frames.take(k));
        lemma_spec_pack_error_stays(frames, k + 1);
    } else {
        assert(frames.take(k) =~= frames);
    }
}

/// Packs message frames for playing back (see `spec_pack`).
pub fn pack_frames(frames: &Vec<Vec<u8>>) -> (res: Result<Vec<u8>, ReplayError>)
    ensures
        match spec_pack(frame_views(frames@)) {
            Ok(p) => res matches Ok(v) && v@ == p,
            Err(e) => res == Err::<Vec<u8>, ReplayError>(e),
        },
{
    let ghost all = frame_views(frames@);
    let mut out: Vec<u8> = Vec::new();
    let mut i: usize = 0;
    while i < frames.len()
        invariant
            i <= frames@.len(),
            all == frame_views(frames@),
            spec_pack(all.take(i as int)) == Ok::<Seq<u8>, ReplayError>(out@),
            out@.len() <= MAX_REPLAY,
        decreases frames@.len() - i,
    {
        assert(all.take(i + 1).drop_last() =~= all.take(i as int));
        assert(all.take(i + 1).last() == frames@[i as int]@);
        let f = &frames[i];
        if f.len() > 65535 {
            proof {
                lemma_spec_pack_error_stays(all, i + 1);
            }
            return Err(ReplayError::FrameTooLong);
        }
        if out.len() + 2 + f.len() > MAX_REPLAY {
            proof {
                lemma_spec_pack_error_stays(all, i + 1);
            }
            return Err(ReplayError::FramesTooLarge);
        }
        let ghost before = out@;
        out.push((f.len() % 256) as u8);
        out.push((f.len() / 256) as u8);
        let mut k: usize = 0;
        while k < f.len()
            invariant
                k <= f@.len(),
                out@ == before + seq![(f@.len() % 256) as u8, (f@.len() / 256) as u8] + f@.take(k as int),
            decreases f@.len() - k,
        {
            out.push(f[k]);
            k = k + 1;
            assert(out@ =~= before + seq![(f@.len() % 256) as u8, (f@.len() / 256) as u8] + f@.take(k as int));
        }
        assert(f@.take(f@.len() as int) =~= f@);
        assert(out@ =~= before + framed(f@));
        i = i + 1;
    }
    assert(all.take(frames@.len() as int) =~= all);
    Ok(out)
}

proof fn lemma_unframe_append(a: Seq<u8>, f: Seq<u8>)
    requires
        spec_unframe(a) is Some,
        f.len() <= 65535,
    ensures
        spec_unframe(a + framed(f)) == Some(spec_unframe(a)->0.push(f)),
    decreases a.len(),
{
    let b = a + framed(f);
    if a.len() == 0 {
        assert(b =~= framed(f));
        assert(b[0] as int + 256 * (b[1] as int) == f.len()) by {
            assert(b[0] == (f.len() % 256) as u8);
            assert(b[1] == (f.len() / 256) as u8);
            assert(f.len() % 256 + 256 * (f.len() / 256) == f.len());
        }
        assert(spec_unframe(Seq::<u8>::empty()) == Some(Seq::<Seq<u8>>::empty()));
        assert(b.skip(2 + f.len() as int) =~= Seq::<u8>::empty());
        assert(b.subrange(2, 2 + f.len() as int) =~= f);
        assert(seq![f] + Seq::<Seq<u8>>::empty() =~= Seq::<Seq<u8>>::empty().push(f));
    } else {
        let len = a[0] as int + 256 * (a[1] as int);
        assert(b[0] == a[0] && b[1] == a[1]);
        let rest = a.skip(2 + len);
        lemma_unframe_append(rest, f);
        assert(b.skip(2 + len) =~= rest + framed(f));
        assert(b.subrange(2, 2 + len) =~= a.subrange(2, 2 + len));
        let head = seq![a.subrange(2, 2 + len)];
        assert(head + spec_unframe(rest)->0.push(f) =~= (head + spec_unframe(rest)->0).push(f));
    }
}

/// Packed frames read back are the frames packed: no frame is lost, split or altered.
pub proof fn lemma_unframe_pack(frames: Seq<Seq<u8>>)
    requires
        spec_pack(frames) is Ok,
    ensures
        spec_unframe(spec_pack(frames)->Ok_0) == Some(frames),
    decreases frames.len(),
{
    if frames.len() > 0 {
        let prev = frames.drop_last();
        lemma_unframe_pack(prev);
        lemma_unframe_append(spec_pack(prev)->Ok_0, frames.last());
        assert(prev.push(frames.last()) =~= frames);
    }
}

/// The frames of a packed buffer, in order (see `spec_unframe`).
pub fn unframe(buffer: &Vec<u8>) -> (res: Option<Vec<Vec<u8>>>)
    ensures
        match spec_unframe(buffer@) {
            Some(fs) => res matches Some(v) && frame_views(v@) == fs,
            None => res is None,
        },
{
    let n = buffer.len();
    let mut out: Vec<Vec<u8>> = Vec::new();
    let mut offset: usize = 0;
    assert(buffer@.skip(0) =~= buffer@);
    proof {
        if let Some(all) = spec_unframe(buffer@) {
            assert(frame_views(out@) + all =~= all);
        }
    }
    while offset < n
        invariant
            n == buffer@.len(),
            offset <= n,
            match spec_unframe(buffer@) {
                Some(all) => spec_unframe(buffer@.skip(offset as int)) matches Some(rest) && frame_views(out@) + rest == all,
                None => spec_unframe(buffer@.skip(offset as int)) is None,
            },
        decreases n - offset,
    {
        let ghost rest = buffer@.skip(offset as int);
        if n - offset < 2 {
            return None;
        }
        let len = (buffer[offset] as usize) + 256 * (buffer[offset + 1] as usize);
        if len > n - offset - 2 {
            return None;
        }
        let mut frame: Vec<u8> = Vec::new();
        let mut k: usize = 0;
        while k < len
            invariant
                offset + 2 + len <= n == buffer@.len(),
                k <= len,
                frame@ == buffer@.subrange(offset + 2, offset + 2 + k),
            decreases len - k,
        {
            frame.push(buffer[offset + 2 + k]);
            k = k + 1;
            assert(frame@ =~= buffer@.subrange(offset + 2, offset + 2 + k));
        }
        proof {
            assert(rest.subrange(2, 2 + len) =~= frame@);
            assert(rest.skip(2 + len) =~= buffer@.skip(offset + 2 + len));
        }
        let ghost seen = frame_views(out@);
        out.push(frame);
        proof {
            assert(frame_views(out@) =~= seen.push(frame@));
            if let Some(all) = spec_unframe(buffer@) {
                let tail = spec_unframe(buffer@.skip(offset + 2 + len))->0;
                assert(seen.push(frame@) + tail =~= seen + (seq![frame@] + tail));
            }
        }
        offset = offset + 2 + len;
    }
    proof {
        assert(buffer@.skip(n as int) =~= Seq::<u8>::empty());
        if let Some(all) = spec_unframe(buffer@) {
            assert(frame_views(out@) + Seq::<Seq<u8>>::empty() =~= frame_views(out@));
        }
    }
    Some(out)
}

/// The names a replay records for its players, in the order the format keeps them: for a
/// tag duel the history's players A, C, D, B are host, host partner, client and client
/// partner; for a single duel A is the host and B the client.
pub struct ReplayNames {
    pub host_name: String,
    pub host_tag_name: String,
    pub client_name: String,
    pub client_tag_name: String,
}

/// The names a duel's replay records (see `ReplayNames`).
pub fn replay_names(history: &HistoryRecord) -> (res: ReplayNames)
    ensures
        res.host_name == history.player_a,
        res.host_tag_name@ == match history.player_c {
            Some(c) => c@,
            None => Seq::<char>::empty(),
        },
        res.client_name == match history.player_d {
            Some(d) => d,
            None => history.player_b,
        },
        res.client_tag_name@ == if history.player_c is Some { history.player_b@ } else { Seq::<char>::empty() },
{
    let tag = history.player_c.is_some();
    let client = match &history.player_d {
        Some(d) => d.clone(),
        None => history.player_b.clone(),
    };
    let host_tag = match &history.player_c {
        Some(c) => c.clone(),
        None => String::new(),
    };
    let client_tag = if tag { history.player_b.clone() } else { String::new() };
    ReplayNames { host_name: history.player_a.clone(), host_tag_name: host_tag, client_name: client, client_tag_name: client_tag }
}

} // verus!
