use base64::Engine;
use srvpro3::duel::Mode;
use srvpro3::forge::{decode_forge, load_replay};
use srvpro3::history::HistoryRecord;
use srvpro3::replay::{
    ReplayError, compressed_replay, encode_replay, pack_frames, records, replay_host_info, replay_id, replay_names,
    replay_players, unframe, unpack,
};

#[test]
fn replay_numbers() {
    assert_eq!(replay_id("R#12"), Ok(12));
    assert_eq!(replay_id("R#9223372036854775807"), Ok(i64::MAX));
    assert_eq!(replay_id("R#9223372036854775808"), Err(ReplayError::OutOfRange));
    assert_eq!(replay_id("R#0"), Err(ReplayError::NotPositive));
    assert_eq!(replay_id("R#"), Err(ReplayError::NotPositive));
    assert_eq!(replay_id("R#1a"), Err(ReplayError::NotPositive));
    assert_eq!(replay_id("12"), Err(ReplayError::NotPositive));
}

#[test]
fn stored_replay_round_trip() {
    let data: Vec<u8> = (0..2000u32).map(|i| (i % 251) as u8).collect();
    let text = encode_replay(&data).unwrap();
    assert!(text.starts_with("yrp3d:v1:H4sI"));
    assert_eq!(unpack(&text).unwrap(), data);
    let gz = compressed_replay(&text).unwrap();
    assert_eq!(&gz[..3], &[0x1f, 0x8b, 0x08]);
    assert_ne!(gz, data);
    assert_eq!(unpack(&encode_replay(&Vec::new()).unwrap()).unwrap(), Vec::<u8>::new());
}

#[test]
fn stored_replay_errors() {
    assert_eq!(compressed_replay("plain"), Err(ReplayError::Legacy));
    assert_eq!(compressed_replay("yrp3d:v1:!!!"), Err(ReplayError::NotBase64));
    assert_eq!(compressed_replay("yrp3d:v1:AAAA"), Err(ReplayError::NotGzip));
    assert_eq!(unpack("yrp3d:v1:H4sI"), Err(ReplayError::Corrupt));
}

#[test]
fn replay_records() {
    let buffer = vec![1, 2, 0, 0, 0, 9, 9, 3, 0, 0, 0, 0];
    assert_eq!(records(&buffer).unwrap(), vec![(1, vec![9, 9]), (3, vec![])]);
    assert_eq!(records(&Vec::new()).unwrap(), Vec::new());
    assert_eq!(records(&vec![1, 2]), Err(ReplayError::TruncatedHeader));
    assert_eq!(records(&vec![1, 5, 0, 0, 0, 1]), Err(ReplayError::BadLength));
}

#[test]
fn frames_pack_and_read_back() {
    let frames = vec![vec![1, 2], vec![3], vec![]];
    let packed = pack_frames(&frames).unwrap();
    assert_eq!(packed, vec![2, 0, 1, 2, 1, 0, 3, 0, 0]);
    assert_eq!(unframe(&packed).unwrap(), frames);
    let long = vec![vec![0u8; 300]];
    let packed = pack_frames(&long).unwrap();
    assert_eq!(&packed[..2], &[44, 1]);
    assert_eq!(unframe(&packed).unwrap(), long);
    assert_eq!(pack_frames(&vec![vec![0u8; 65536]]), Err(ReplayError::FrameTooLong));
    assert!(unframe(&vec![1]).is_none());
    assert!(unframe(&vec![3, 0, 1]).is_none());
}

#[test]
fn replay_seats_and_rules() {
    let (players, tag) = replay_players(&"a".into(), &String::new(), &"b".into(), &String::new());
    assert!(!tag);
    assert_eq!(players, vec![(0, "a".to_string()), (1, "b".to_string())]);
    let (players, tag) = replay_players(&"a".into(), &"c".into(), &"b".into(), &"d".into());
    assert!(tag);
    assert_eq!(players.iter().map(|p| p.1.as_str()).collect::<Vec<_>>(), vec!["a", "c", "d", "b"]);
    let info = replay_host_info(4, 4000, true).unwrap();
    assert_eq!(info.duel_rule, 4);
    assert_eq!(info.start_lp, 4000);
    assert_eq!(info.mode, Mode::Tag);
    assert_eq!(info.start_hand, 5);
    assert_eq!(replay_host_info(4, -1, false), Err(ReplayError::BadLifePoints));
}

#[test]
fn replay_names_follow_the_format_order() {
    let mut h = HistoryRecord {
        player_a: "a".into(),
        player_b: "b".into(),
        deck_a: String::new(),
        deck_b: String::new(),
        player_c: None,
        player_d: None,
        deck_c: None,
        deck_d: None,
        winner_id: None,
        room_id: "r".into(),
        first_attack_slot: 0,
        replay_start: 0,
    };
    let n = replay_names(&h);
    assert_eq!((n.host_name.as_str(), n.host_tag_name.as_str(), n.client_name.as_str(), n.client_tag_name.as_str()), ("a", "", "b", ""));
    h.player_c = Some("c".into());
    h.player_d = Some("d".into());
    let n = replay_names(&h);
    assert_eq!((n.host_name.as_str(), n.host_tag_name.as_str(), n.client_name.as_str(), n.client_tag_name.as_str()), ("a", "c", "d", "b"));
}

fn utf16_fixed(text: &str, len: usize) -> Vec<u8> {
    let mut units: Vec<u16> = text.encode_utf16().collect();
    units.resize(len, 0);
    units.iter().flat_map(|u| u.to_le_bytes()).collect()
}

fn record(kind: u8, payload: &[u8]) -> Vec<u8> {
    let mut r = vec![kind];
    r.extend((payload.len() as u32).to_le_bytes());
    r.extend_from_slice(payload);
    r
}

fn names_record(host: &str, host_tag: &str, client: &str, client_tag: &str) -> Vec<u8> {
    let mut payload = Vec::new();
    for name in [host, host_tag, host, client, client_tag, client] {
        payload.extend(utf16_fixed(name, 50));
    }
    payload.extend(5u32.to_le_bytes());
    record(235, &payload)
}

fn start_payload(player_type: u8, lp: i32) -> Vec<u8> {
    let mut payload = vec![player_type, 5];
    payload.extend(lp.to_le_bytes());
    payload.extend(lp.to_le_bytes());
    payload.extend([40, 0, 15, 0, 40, 0, 15, 0]);
    payload
}

#[test]
fn forge_replay_plays_back() {
    let mut buffer = names_record("alice", "", "bob", "");
    buffer.extend(record(4, &start_payload(0x10, 8000)));
    let (players, info, frames) = decode_forge(&buffer).unwrap();
    assert_eq!(players, vec![(0, "alice".to_string()), (1, "bob".to_string())]);
    assert_eq!(info.start_lp, 8000);
    assert_eq!(info.duel_rule, 5);
    assert_eq!(info.mode, Mode::Single);
    let mut expected = vec![20, 0, 1, 4];
    expected.extend(start_payload(0x10, 8000));
    assert_eq!(frames, expected);
    let mut tag = names_record("a", "c", "b", "d");
    tag.extend(record(4, &start_payload(0x10, 16000)));
    let (players, info, _) = decode_forge(&tag).unwrap();
    assert_eq!(players.iter().map(|p| p.1.as_str()).collect::<Vec<_>>(), vec!["a", "c", "d", "b"]);
    assert_eq!(info.mode, Mode::Tag);
}

#[test]
fn forge_replay_errors() {
    assert_eq!(decode_forge(&vec![1, 2]).unwrap_err(), ReplayError::TruncatedHeader);
    assert_eq!(decode_forge(&record(0xff, &[])).unwrap_err(), ReplayError::Unreadable);
    assert_eq!(decode_forge(&record(4, &start_payload(0x10, 8000))).unwrap_err(), ReplayError::NoPlayers);
    let names = names_record("a", "", "b", "");
    assert_eq!(decode_forge(&names).unwrap_err(), ReplayError::NoStart);
    let mut no_spectator = names.clone();
    no_spectator.extend(record(4, &start_payload(0, 8000)));
    assert_eq!(decode_forge(&no_spectator).unwrap_err(), ReplayError::NoStart);
    let mut negative = names.clone();
    negative.extend(record(4, &start_payload(0x10, -1)));
    assert_eq!(decode_forge(&negative).unwrap_err(), ReplayError::BadLifePoints);
    let mut twice = names.clone();
    twice.extend(record(4, &start_payload(0x10, 8000)));
    twice.extend(names_record("x", "", "y", ""));
    assert_eq!(decode_forge(&twice).unwrap_err(), ReplayError::NotSpectator);
}

#[test]
fn stored_forge_replay_loads() {
    let mut buffer = names_record("alice", "", "bob", "");
    buffer.extend(record(4, &start_payload(0x10, 8000)));
    let text = encode_replay(&buffer).unwrap();
    let (players, _, _) = load_replay(&text).unwrap();
    assert_eq!(players.len(), 2);
    assert_eq!(load_replay("plain").unwrap_err(), ReplayError::Legacy);
}

#[test]
fn download_is_the_stored_gzip_data() {
    let data: Vec<u8> = (0..500u32).map(|i| (i % 7) as u8).collect();
    let text = encode_replay(&data).unwrap();
    let stored = base64::engine::general_purpose::STANDARD.decode(&text[9..]).unwrap();
    assert_eq!(compressed_replay(&text).unwrap(), stored);
}

#[test]
fn forge_records_the_reader_cannot_take_are_refused() {
    assert_eq!(decode_forge(&record(133, &[0x00])).unwrap_err(), ReplayError::Unreadable);
    assert_eq!(decode_forge(&record(133, &[0x01])).unwrap_err(), ReplayError::Unreadable);
    assert_eq!(decode_forge(&record(163, &[1, 0, 0xff, 0])).unwrap_err(), ReplayError::Unreadable);
    assert_eq!(decode_forge(&record(164, &[2, 0, 0xc3, 0x28, 0])).unwrap_err(), ReplayError::Unreadable);
    assert_eq!(decode_forge(&record(133, &[0x05])).unwrap_err(), ReplayError::NoPlayers);
    assert_eq!(decode_forge(&record(163, &[1, 0, b'a', 0])).unwrap_err(), ReplayError::NoPlayers);
}
