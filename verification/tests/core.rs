use srvpro3::deck::{Deck, DeckError, decode_deck, parse_update_deck, same_deck};
use srvpro3::duel::{CorePlayer, HostInfo, Mode};
use srvpro3::heartbeat::{Heartbeat, HeartbeatError, Phase, Received};
use srvpro3::history::{HistoryRecord, winner_slot};
use srvpro3::password::{Password, PasswordError};
use srvpro3::rooms::{PageError, RoomEvent, RoomEvents, RoomInfo, RoomList, added, closed, updated};
use srvpro3::transport::{FrameError, packet, unpack};

fn deck(main: Vec<u32>, extra: Vec<u32>, side: Vec<u32>) -> Deck {
    Deck { main, extra, side }
}

#[test]
fn packet_prefixes_little_endian_length() {
    assert_eq!(packet(vec![1, 2, 3]).unwrap(), vec![3, 0, 1, 2, 3]);
    let long = vec![7u8; 300];
    let framed = packet(long.clone()).unwrap();
    assert_eq!(&framed[..2], &[44, 1]);
    assert_eq!(&framed[2..], &long[..]);
}

#[test]
fn packet_refuses_empty_and_oversized_bodies() {
    assert_eq!(packet(Vec::new()), Err(FrameError::InvalidLength));
    assert_eq!(packet(vec![0; 65536]), Err(FrameError::InvalidLength));
    assert!(packet(vec![0; 65535]).is_ok());
}

#[test]
fn unpack_reads_back_packed_frames() {
    let mut bytes = packet(vec![0x10, 0x20]).unwrap();
    bytes.extend(packet(vec![0x30]).unwrap());
    assert_eq!(unpack(&bytes).unwrap(), vec![vec![0x10, 0x20], vec![0x30]]);
    assert_eq!(unpack(&[]).unwrap(), Vec::<Vec<u8>>::new());
}

#[test]
fn unpack_refuses_broken_frames() {
    assert_eq!(unpack(&[5]), Err(FrameError::MissingHeader));
    assert_eq!(unpack(&[0, 0]), Err(FrameError::Incomplete));
    assert_eq!(unpack(&[3, 0, 1, 2]), Err(FrameError::Incomplete));
}

#[test]
fn heartbeat_full_exchange() {
    let (mut beat, ping) = Heartbeat::start(1000);
    assert_eq!(ping, vec![0xF0]);
    assert_eq!(beat.phase, Phase::WaitPong);
    assert_eq!(beat.deadline, 6000);
    assert_eq!(beat.receive(&[0xF1], 2000), Ok(Received::Heartbeat { reply: None }));
    assert_eq!(beat.phase, Phase::WaitPing);
    assert_eq!(beat.deadline, 22000);
    assert_eq!(beat.receive(&[0xF0], 3000), Ok(Received::Heartbeat { reply: Some(vec![0xF1]) }));
    assert_eq!(beat.phase, Phase::SendPing);
    assert_eq!(beat.deadline, 8000);
    assert_eq!(beat.tick(8000), Ok(vec![0xF0]));
    assert_eq!(beat.phase, Phase::WaitPong);
    assert_eq!(beat.deadline, 13000);
}

#[test]
fn repeated_heartbeats_do_not_extend_deadlines() {
    let (mut beat, _) = Heartbeat::start(0);
    assert_eq!(beat.receive(&[0xF0], 100), Ok(Received::Heartbeat { reply: Some(vec![0xF1]) }));
    assert_eq!(beat.phase, Phase::WaitPong);
    assert_eq!(beat.deadline, 5000);
    beat.receive(&[0xF1], 200).unwrap();
    assert_eq!(beat.receive(&[0xF1], 300), Ok(Received::Heartbeat { reply: None }));
    assert_eq!(beat.deadline, 20200);
}

#[test]
fn heartbeat_errors() {
    let (mut beat, _) = Heartbeat::start(0);
    assert_eq!(beat.receive(&[0xF1, 0], 1), Err(HeartbeatError::ExtraData));
    assert_eq!(beat.receive(&[0x10, 0], 1), Ok(Received::Other));
    assert_eq!(beat.receive(&[], 1), Ok(Received::Other));
    assert_eq!(beat.tick(6000), Err(HeartbeatError::PongTimeout));
    beat.receive(&[0xF1], 1).unwrap();
    assert_eq!(beat.tick(30000), Err(HeartbeatError::PingTimeout));
}

#[test]
fn same_deck_ignores_order_and_merges_main_and_extra() {
    let a = deck(vec![1, 2, 3], vec![9], vec![5, 6]);
    let b = deck(vec![9, 3, 1], vec![2], vec![6, 5]);
    assert!(same_deck(&a, &b));
    let c = deck(vec![1, 2, 3, 9], vec![], vec![5]);
    assert!(!same_deck(&a, &c));
    let d = deck(vec![1, 2, 3], vec![9], vec![5, 5]);
    assert!(!same_deck(&a, &d));
}

#[test]
fn decode_registered_deck() {
    // main count 1, side count 1, main card 123, side card 456, in base64.
    let deck = decode_deck("AQAAAAEAAAB7AAAAyAEAAA==").unwrap();
    assert_eq!(deck.main, vec![123]);
    assert_eq!(deck.side, vec![456]);
    assert!(deck.extra.is_empty());
}

#[test]
fn decode_deck_errors() {
    assert_eq!(decode_deck(&"A".repeat(4097)).unwrap_err(), DeckError::TooLarge);
    assert_eq!(decode_deck("not base64!").unwrap_err(), DeckError::NotBase64);
    assert_eq!(decode_deck("AQAA").unwrap_err(), DeckError::NotUpdateDeck);
    // main count 0 is refused.
    assert_eq!(decode_deck("AAAAAAAAAAA=").unwrap_err(), DeckError::BadCounts);
}

#[test]
fn parse_update_deck_counts() {
    let bytes = vec![2, 0, 0, 0, 0, 0, 0, 0, 1, 0, 0, 0, 2, 0, 0, 0];
    let deck = parse_update_deck(&bytes).unwrap();
    assert_eq!(deck.main, vec![1, 2]);
    assert!(deck.side.is_empty());
    let short = vec![3, 0, 0, 0, 0, 0, 0, 0, 1, 0, 0, 0];
    assert_eq!(parse_update_deck(&short).unwrap_err(), DeckError::BadCounts);
}

#[test]
fn password_plain_room() {
    let p = Password::parse("abc").unwrap();
    assert_eq!(p.room_key.as_deref(), Some("abc"));
    assert_eq!(p.host_info.mode, Mode::Single);
    assert_eq!(p.best_of, 1);
    assert_eq!(p.capacity(), 2);
    assert_eq!(p.random_prefix(), "R#0-1#");
    assert!(p.configure().is_none());
}

#[test]
fn password_modes_are_read_without_case() {
    let p = Password::parse("m#room").unwrap();
    assert_eq!(p.room_key.as_deref(), Some("M#room"));
    assert_eq!(p.host_info.mode, Mode::Match);
    assert_eq!(p.best_of, 3);
    assert_eq!(p.random_prefix(), "R#1-3#");
    let t = Password::parse("t#x").unwrap();
    assert_eq!(t.host_info.mode, Mode::Tag);
    assert_eq!(t.host_info.start_lp, 16000);
    assert_eq!(t.capacity(), 4);
    let bo = Password::parse("BO5#").unwrap();
    assert_eq!(bo.best_of, 5);
    assert_eq!(bo.host_info.mode, Mode::Match);
    assert!(bo.room_key.is_none());
    assert_eq!(bo.configure(), Some(5));
}

#[test]
fn password_errors() {
    assert_eq!(Password::parse("BO4#x").unwrap_err(), PasswordError::BadBestOf);
    assert_eq!(Password::parse("BO255#x").unwrap_err(), PasswordError::BadBestOf);
    assert_eq!(Password::parse("T,M#x").unwrap_err(), PasswordError::TagBestOf);
}

#[test]
fn default_host_info() {
    let info = HostInfo::new();
    assert_eq!(info.start_lp, 8000);
    assert_eq!(info.mode, Mode::Single);
    assert_eq!(info.duel_rule, 5);
    assert_eq!(info.time_limit, 180);
}

#[test]
fn winner_follows_who_went_first() {
    assert_eq!(winner_slot(1, CorePlayer::FirstAttackPlayer), Some(1));
    assert_eq!(winner_slot(1, CorePlayer::SecondAttackPlayer), Some(0));
    assert_eq!(winner_slot(0, CorePlayer::Neither), None);
    let mut h = HistoryRecord {
        player_a: "a".into(),
        player_b: "b".into(),
        deck_a: String::new(),
        deck_b: String::new(),
        player_c: None,
        player_d: None,
        deck_c: None,
        deck_d: None,
        winner_id: None,
        room_id: "r".into(),
        first_attack_slot: 0,
        replay_start: 0,
    };
    h.set_winner(CorePlayer::SecondAttackPlayer);
    assert_eq!(h.winner_id, Some(1));
    assert_eq!(h.winner_name().as_deref(), Some("b"));
}

fn info(key: &str) -> RoomInfo {
    RoomInfo { room_id: key.to_string(), connections: 1, player_a: Vec::new(), player_b: Vec::new(), spectators: 0, chats: Vec::new() }
}

#[test]
fn room_list_keeps_key_order_and_pages() {
    let mut list = RoomList::new();
    assert!(list.insert(info("b")));
    assert!(list.insert(info("a")));
    assert!(list.insert(info("c")));
    assert!(!list.insert(info("a")));
    assert_eq!(list.len(), 3);
    let (page, total) = list.get(0, 2).unwrap();
    assert_eq!(total, 3);
    assert_eq!(page.iter().map(|r| r.room_id.as_str()).collect::<Vec<_>>(), vec!["a", "b"]);
    let (page, _) = list.get(1, 2).unwrap();
    assert_eq!(page.iter().map(|r| r.room_id.as_str()).collect::<Vec<_>>(), vec!["c"]);
    let (page, total) = list.get(5, 2).unwrap();
    assert!(page.is_empty());
    assert_eq!(total, 3);
    assert_eq!(list.get(0, 0).unwrap_err(), PageError::EmptyPage);
    assert_eq!(list.get(u64::MAX, 2).unwrap_err(), PageError::Overflow);
}

#[test]
fn room_list_update_does_not_relist() {
    let mut list = RoomList::new();
    list.insert(info("a"));
    let mut changed = info("a");
    changed.spectators = 4;
    assert!(list.update(changed));
    assert_eq!(list.get(0, 10).unwrap().0[0].spectators, 4);
    assert!(list.remove("a").is_some());
    assert!(!list.update(info("a")));
    assert!(!list.contains("a"));
    assert!(list.remove("a").is_none());
}

#[test]
fn room_events_reach_subscribers() {
    let (sender, mut receiver) = tokio::sync::broadcast::channel(16);
    let mut events = RoomEvents::new(sender);
    added(&mut events, info("a"));
    updated(&mut events, info("a"));
    closed(&mut events, info("a"));
    assert!(matches!(receiver.try_recv().unwrap(), RoomEvent::Add(r) if r.room_id == "a"));
    assert!(matches!(receiver.try_recv().unwrap(), RoomEvent::Update(_)));
    assert!(matches!(receiver.try_recv().unwrap(), RoomEvent::Close(_)));
}

#[test]
fn room_keys_parse_again() {
    for pass in ["m,bo5#room", "t#x", "abc", "match#Room", "bo3,m#r"] {
        let p = Password::parse(pass).unwrap();
        let key = p.room_key.clone().unwrap();
        let q = Password::parse(&key).unwrap();
        assert_eq!(q.room_key, p.room_key);
        assert_eq!(q.host_info.mode, p.host_info.mode);
        assert_eq!(q.host_info.start_lp, p.host_info.start_lp);
        assert_eq!(q.best_of, p.best_of);
    }
    assert_eq!(Password::parse("m,bo5#room").unwrap().room_key, Some("M,BO5#room".to_string()));
}
