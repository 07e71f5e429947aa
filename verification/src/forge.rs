use vstd::prelude::*;
use binrw::BinRead;
use ygopro_data::complex::Complex;
use ygopro_data::data::forge;
use ygopro_data::message::game_message::GameMessage;
use ygopro_data::message::{gm, stoc};
use crate::duel::{HostInfo, Mode, default_host_info};
use crate::replay::{
    MAX_REPLAY, ReplayError, framed, record_views, records, replay_host_info, replay_players, spec_pack,
    spec_records, spec_unpack, unpack,
};

verus! {

// ---------------------------------------------------------------------------
// Playing a .yrp3d replay back: its game messages become the frames a spectator is
// sent, after the players' names and the duel's rules.
// ---------------------------------------------------------------------------

/// What the server needs of the start of a replay: the players' names, the duel start.
pub enum MessageHead {
    /// `SibylName`: the names of host, host partner, client and client partner.
    Names(String, String, String, String),
    /// `Start`: the player type, player 1's life points and the duel rule.
    Start(u8, i32, u8),
    /// Any other message.
    Other,
}

/// One game message of a replay as the server uses it.
pub struct ForgeMessage {
    /// It is one of the messages that are not for spectators: names, chat, a replay.
    pub sibyl: bool,
    /// It prompts a player for a choice.
    pub waiting: bool,
    /// The message as a spectator receives it (a server-to-client game message).
    pub frame: Vec<u8>,
    /// The names or the duel start it holds.
    pub head: MessageHead,
}

/// The 16-bit little-endian number at `i`.
pub open spec fn le_u16_at(b: Seq<u8>, i: int) -> int {
    b[i] as int + 256 * (b[i + 1] as int)
}

/// A record that `ygopro_data`'s game message reader takes without panicking: a hand
/// result (type 133) names a hand in both of its two-bit fields, and the text of an AI
/// name or a hint (types 163 and 164), a 16-bit length and that many bytes, is UTF-8
/// wherever the record holds all of it.
pub open spec fn readable_record(kind: u8, payload: Seq<u8>) -> bool {
    &&& kind == 133 && payload.len() >= 1 ==> payload[0] % 4 != 0 && (payload[0] / 4) % 4 != 0
    &&& (kind == 163 || kind == 164) && payload.len() >= 2 && payload.len() >= 2 + le_u16_at(payload, 0)
        ==> vstd::utf8::valid_utf8(payload.subrange(2, 2 + le_u16_at(payload, 0)))
}

/// What `ygopro_data::message::game_message::Message::read_le` reads from a record's
/// type byte followed by its bytes, taken apart as a `ForgeMessage`; `None` where the
/// read fails.
pub uninterp spec fn game_message(bytes: Seq<u8>) -> Option<ForgeMessage>;

/// Reads one record of a .yrp3d replay, its type byte followed by its bytes, with
/// `game_message::Message::read_le`, and takes the message apart: whether it is for
/// spectators or prompts a player (`waiting_for`), the message encoded again as a
/// server-to-client game message (`Complex::from`), and the names or duel start it holds.
/// The result is named by `game_message`. The reader unwraps a hand and UTF-8 text, which
/// `requires` keeps it from.
#[verifier::external_body]
fn read_game_message(bytes: &[u8]) -> (res: Option<ForgeMessage>)
    requires
        bytes@.len() >= 1,
        readable_record(bytes@[0], bytes@.skip(1)),
    ensures
        res == game_message(bytes@),
{
    let m = gm::Message::read_le(&mut std::io::Cursor::new(bytes)).ok()?;
    let head = match &m {
        gm::Message::SibylName(n) => MessageHead::Names(n.host_name.to_string(), n.host_tag_name.to_string(), n.client_name.to_string(), n.client_tag_name.to_string()),
        gm::Message::Start(v) => MessageHead::Start(v.player_type, v.player1_lp, v.rule as u8),
        _ => MessageHead::Other,
    };
    Some(ForgeMessage {
        sibyl: matches!(m, gm::Message::SibylName(_) | gm::Message::SibylChat(_) | gm::Message::SibylReplay(_)),
        waiting: m.waiting_for().is_some(),
        frame: Complex::<stoc::Message>::from(stoc::Message::from(m)).data.to_vec(),
        head,
    })
}

/// A record's type byte followed by its bytes.
pub open spec fn record_bytes(kind: u8, payload: Seq<u8>) -> Seq<u8> {
    seq![kind] + payload
}

/// The game messages of a replay's records, in order; `None` at the first record that
/// cannot be read as one (or that the reader would panic on).
pub open spec fn spec_game_messages(records: Seq<(u8, Seq<u8>)>) -> Option<Seq<ForgeMessage>>
    decreases records.len(),
{
    if records.len() == 0 {
        Some(Seq::empty())
    } else {
        match spec_game_messages(records.drop_last()) {
            None => None,
            Some(ms) => {
                let (kind, payload) = records.last();
                if !readable_record(kind, payload) {
                    None
                } else {
                    match game_message(record_bytes(kind, payload)) {
                        None => None,
                        Some(m) => Some(ms.push(m)),
                    }
                }
            },
        }
    }
}

fn readable(kind: u8, payload: &Vec<u8>) -> (res: bool)
    ensures
        res == readable_record(kind, payload@),
{
    if kind == 133 && payload.len() >= 1 {
        if payload[0] % 4 == 0 || (payload[0] / 4) % 4 == 0 {
            return false;
        }
    }
    if (kind == 163 || kind == 164) && payload.len() >= 2 {
        let n = payload[0] as usize + 256 * (payload[1] as usize);
        if payload.len() >= 2 + n {
            let text = vstd::slice::slice_subrange(payload.as_slice(), 2, 2 + n);
            return crate::messages::utf8_text(text).is_some();
        }
    }
    true
}

fn game_messages(records: &Vec<(u8, Vec<u8>)>) -> (res: Option<Vec<ForgeMessage>>)
    ensures
        match spec_game_messages(record_views(records@)) {
            Some(ms) => res matches Some(v) && v@ == ms,
            None => res is None,
        },
{
    let ghost all = record_views(records@);
    let mut out: Vec<ForgeMessage> = Vec::new();
    let mut i: usize = 0;
    while i < records.len()
        invariant
            i <= records@.len(),
            all == record_views(records@),
            spec_game_messages(all.take(i as int)) == Some(out@),
        decreases records@.len() - i,
    {
        let ghost next = all.take(i + 1);
        assert(next.drop_last() =~= all.take(i as int));
        assert(next.last() == (records@[i as int].0, records@[i as int].1@));
        let kind = records[i].0;
        if !readable(kind, &records[i].1) {
            proof {
                lemma_messages_none_stays(all, i + 1);
            }
            return None;
        }
        let payload = &records[i].1;
        let mut bytes: Vec<u8> = Vec::new();
        bytes.push(kind);
        let mut k: usize = 0;
        while k < payload.len()
            invariant
                k <= payload@.len(),
                bytes@ == seq![kind] + payload@.take(k as int),
            decreases payload@.len() - k,
        {
            bytes.push(payload[k]);
            k = k + 1;
        }
        assert(payload@.take(k as int) =~= payload@);
        assert(bytes@.skip(1) =~= payload@);
        assert(bytes@ =~= record_bytes(kind, payload@));
        match read_game_message(bytes.as_slice()) {
            None => {
                proof {
                    lemma_messages_none_stays(all, i + 1);
                }
                return None;
            },
            Some(m) => {
                out.push(m);
            },
        }
        i = i + 1;
    }
    assert(all.take(records@.len() as int) =~= all);
    Some(out)
}

proof fn lemma_messages_none_stays(records: Seq<(u8, Seq<u8>)>, k: int)
    requires
        0 <= k <= records.len(),
        spec_game_messages(records.take(k)) is None,
    ensures
        spec_game_messages(records) is None,
    decreases records.len() - k,
{
    if k < records.len() {
        assert(records.take(k + 1).drop_last() =~= records.take(k));
        lemma_messages_none_stays(records, k + 1);
    } else {
        assert(records.take(k) =~= records);
    }
}

/// The head of message `i`, or `Other` where there is none.
pub open spec fn head_at(messages: Seq<ForgeMessage>, i: int) -> MessageHead {
    if 0 <= i < messages.len() { messages[i].head } else { MessageHead::Other }
}

/// The frames of the messages, each after its 16-bit length, in order; refused at the
/// first message that is not for spectators or prompts a player, that is longer than
/// 65535 bytes, or that takes the frames over 64 MiB.
pub open spec fn spec_forge_frames(messages: Seq<ForgeMessage>) -> Result<Seq<u8>, ReplayError>
    decreases messages.len(),
{
    if messages.len() == 0 {
        Ok(Seq::empty())
    } else {
        match spec_forge_frames(messages.drop_last()) {
            Err(e) => Err(e),
            Ok(p) => {
                let m = messages.last();
                if m.sibyl {
                    Err(ReplayError::NotSpectator)
                } else if m.waiting {
                    Err(ReplayError::Prompt)
                } else if m.frame@.len() > 65535 {
                    Err(ReplayError::FrameTooLong)
                } else if p.len() + 2 + m.frame@.len() > MAX_REPLAY {
                    Err(ReplayError::FramesTooLarge)
                } else {
                    Ok(p + framed(m.frame@))
                }
            },
        }
    }
}

/// The messages after the first (the players' names).
pub open spec fn after_first(messages: Seq<ForgeMessage>) -> Seq<ForgeMessage> {
    if messages.len() > 0 { messages.skip(1) } else { messages }
}

/// The frames of the messages.
pub open spec fn message_frames(messages: Seq<ForgeMessage>) -> Seq<Seq<u8>> {
    messages.map_values(|m: ForgeMessage| m.frame@)
}

/// What a replay plays back as, from its messages: the seats and names of its players,
/// the rules it is shown with, and the frames of its messages from the duel start on.
/// Refused where its records are broken, where it cannot be read, where it does not
/// start with the players' names and a duel start for spectators (player type with bit
/// `0x10`), where its starting life points are negative, or where a message cannot be
/// played back (see `spec_forge_frames`).
pub open spec fn spec_decode_forge(buffer: Seq<u8>) -> Result<(Seq<(u8, String)>, HostInfo, Seq<u8>), ReplayError> {
    match spec_records(buffer) {
        Err(e) => Err(e),
        Ok(records) => match spec_game_messages(records) {
            None => Err(ReplayError::Unreadable),
            Some(messages) => match head_at(messages, 0) {
                MessageHead::Names(host, host_tag, client, client_tag) => match head_at(messages, 1) {
                    MessageHead::Start(player_type, lp, rule) => if player_type & 0x10 == 0 {
                        Err(ReplayError::NoStart)
                    } else if lp < 0 {
                        Err(ReplayError::BadLifePoints)
                    } else {
                        let tag = host_tag@.len() > 0 || client_tag@.len() > 0;
                        let players = if tag {
                            seq![(0u8, host), (1u8, host_tag), (2u8, client_tag), (3u8, client)]
                        } else {
                            seq![(0u8, host), (1u8, client)]
                        };
                        let info = HostInfo {
                            lflist: 0,
                            duel_rule: rule,
                            start_lp: lp as u32,
                            mode: if tag { Mode::Tag } else { Mode::Single },
                            ..default_host_info()
                        };
                        match spec_forge_frames(after_first(messages)) {
                            Err(e) => Err(e),
                            Ok(frames) => Ok((players, info, frames)),
                        }
                    },
                    _ => Err(ReplayError::NoStart),
                },
                _ => Err(ReplayError::NoPlayers),
            },
        },
    }
}

/// Frames that pass are the messages packed as for any playback (see `spec_pack`).
pub proof fn lemma_forge_frames_pack(messages: Seq<ForgeMessage>)
    requires
        spec_forge_frames(messages) is Ok,
    ensures
        spec_pack(message_frames(messages)) == spec_forge_frames(messages),
        forall|i: int| 0 <= i < messages.len() ==> !(#[trigger] messages[i]).sibyl && !messages[i].waiting,
    decreases messages.len(),
{
    if messages.len() > 0 {
        lemma_forge_frames_pack(messages.drop_last());
        assert(message_frames(messages).drop_last() =~= message_frames(messages.drop_last()));
        assert forall|i: int| 0 <= i < messages.len() implies !(#[trigger] messages[i]).sibyl && !messages[i].waiting by {
            if i < messages.len() - 1 {
                assert(messages.drop_last()[i] == messages[i]);
            }
        }
    }
}

fn forge_frames(messages: &Vec<ForgeMessage>, from: usize) -> (res: Result<Vec<u8>, ReplayError>)
    requires
        from <= messages@.len(),
    ensures
        match spec_forge_frames(messages@.skip(from as int)) {
            Ok(f) => res matches Ok(v) && v@ == f,
            Err(e) => res == Err::<Vec<u8>, ReplayError>(e),
        },
{
    let ghost all = messages@.skip(from as int);
    let mut out: Vec<u8> = Vec::new();
    let mut i: usize = from;
    while i < messages.len()
        invariant
            from <= i <= messages@.len(),
            all == messages@.skip(from as int),
            spec_forge_frames(all.take(i - from)) == Ok::<Seq<u8>, ReplayError>(out@),
            out@.len() <= MAX_REPLAY,
        decreases messages@.len() - i,
    {
        let m = &messages[i];
        let ghost prefix = all.take(i - from);
        let ghost next = all.take(i - from + 1);
        assert(next.drop_last() =~= prefix);
        assert(next.last() == messages@[i as int]);
        if m.sibyl {
            proof {
                lemma_forge_error_stays(all, i - from + 1);
            }
            return Err(ReplayError::NotSpectator);
        }
        if m.waiting {
            proof {
                lemma_forge_error_stays(all, i - from + 1);
            }
            return Err(ReplayError::Prompt);
        }
        let f = &m.frame;
        if f.len() > 65535 {
            proof {
                lemma_forge_error_stays(all, i - from + 1);
            }
            return Err(ReplayError::FrameTooLong);
        }
        if out.len() + 2 + f.len() > MAX_REPLAY {
            proof {
                lemma_forge_error_stays(all, i - from + 1);
            }
            return Err(ReplayError::FramesTooLarge);
        }
        let ghost before = out@;
        out.push((f.len() % 256) as u8);
        out.push((f.len() / 256) as u8);
        let mut k: usize = 0;
        while k < f.len()
            invariant
                k <= f@.len(),
                out@ == before + seq![(f@.len() % 256) as u8, (f@.len() / 256) as u8] + f@.take(k as int),
            decreases f@.len() - k,
        {
            out.push(f[k]);
            k = k + 1;
        }
        assert(f@.take(f@.len() as int) =~= f@);
        assert(out@ =~= before + framed(f@));
        i = i + 1;
    }
    assert(all.take(messages@.len() - from) =~= all);
    Ok(out)
}

proof fn lemma_forge_error_stays(messages: Seq<ForgeMessage>, k: int)
    requires
        0 <= k <= messages.len(),
        spec_forge_frames(messages.take(k)) is Err,
    ensures
        spec_forge_frames(messages) == spec_forge_frames(messages.take(k)),
    decreases messages.len() - k,
{
    if k < messages.len() {
        assert(messages.take(k + 1).drop_last() =~= messages.take(k));
        lemma_forge_error_stays(messages, k + 1);
    } else {
        assert(messages.take(k) =~= messages);
    }
}

/// A replay read for playback (see `spec_decode_forge`): the seats and names of its
/// players, the rules it is shown with, and its frames.
pub fn decode_forge(buffer: &Vec<u8>) -> (res: Result<(Vec<(u8, String)>, HostInfo, Vec<u8>), ReplayError>)
    ensures
        match spec_decode_forge(buffer@) {
            Ok((players, info, frames)) => res matches Ok((p, i, f)) && p@ == players && i == info && f@ == frames,
            Err(e) => res matches Err(r) && r == e,
        },
        res matches Ok((_, _, f)) ==> (spec_records(buffer@) matches Ok(records) && spec_game_messages(records)
            matches Some(messages) && spec_pack(message_frames(after_first(messages))) == Ok::<Seq<u8>, ReplayError>(
            f@,
        )),
{
    let recs = match records(buffer) {
        Err(e) => {
            return Err(e);
        },
        Ok(r) => r,
    };
    let messages = match game_messages(&recs) {
        None => {
            return Err(ReplayError::Unreadable);
        },
        Some(m) => m,
    };
    let ghost ms = messages@;
    if messages.len() == 0 {
        return Err(ReplayError::NoPlayers);
    }
    let (host, host_tag, client, client_tag) = match &messages[0].head {
        MessageHead::Names(a, b, c, d) => (a, b, c, d),
        _ => {
            return Err(ReplayError::NoPlayers);
        },
    };
    if messages.len() < 2 {
        return Err(ReplayError::NoStart);
    }
    let (player_type, lp, rule) = match &messages[1].head {
        MessageHead::Start(a, b, c) => (*a, *b, *c),
        _ => {
            return Err(ReplayError::NoStart);
        },
    };
    if player_type & 0x10 == 0 {
        return Err(ReplayError::NoStart);
    }
    let (players, tag) = replay_players(host, host_tag, client, client_tag);
    let info = match replay_host_info(rule, lp, tag) {
        Err(e) => {
            return Err(e);
        },
        Ok(info) => info,
    };
    let frames = match forge_frames(&messages, 1) {
        Err(e) => {
            return Err(e);
        },
        Ok(f) => f,
    };
    proof {
        lemma_forge_frames_pack(after_first(ms));
    }
    Ok((players, info, frames))
}

/// A stored replay read for playback: the replay the stored text holds (see
/// `spec_unpack`), then its playback (see `spec_decode_forge`).
pub fn load_replay(encoded: &str) -> (res: Result<(Vec<(u8, String)>, HostInfo, Vec<u8>), ReplayError>)
    ensures
        match spec_unpack(vstd::string::StringSliceAdditionalSpecFns::spec_bytes(encoded)) {
            Err(e) => res matches Err(r) && r == e,
            Ok(buffer) => match spec_decode_forge(buffer) {
                Ok((players, info, frames)) => res matches Ok((p, i, f)) && p@ == players && i == info && f@ == frames,
                Err(e) => res matches Err(r) && r == e,
            },
        },
{
    let buffer = match unpack(encoded) {
        Err(e) => {
            return Err(e);
        },
        Ok(b) => b,
    };
    decode_forge(&buffer)
}

} // verus!
