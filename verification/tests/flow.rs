use srvpro3::api::{Api, ApiError, body_fits, retry_delay};
use srvpro3::bridge::{Bridge, InputAction, OutputAction};
use srvpro3::decode::decode;
use srvpro3::control::{
    ScriptSource, ServerReload, WindbotReload, accepts_client, script_fits, script_source, server_reload,
    windbot_arguments, windbot_reload,
};
use srvpro3::duel::{ClientMessage, CorePlayer, DuelStage, Netplayer, ServerMessage};
use srvpro3::handshake::{HandshakeError, HandshakeState, HandshakeStep, version};
use srvpro3::match_room::{JoinPlan, JoinRefusal, PrepareError, auto_start, plan_join};
use srvpro3::recorder::{Entrant, ResumePlan, interrupt_ends_duel, overdue, resume_plan, side_notice};
use srvpro3::room::{PlayerRecord, RoomRecord};
use srvpro3::rooms::{RoomEvent, RoomEvents, RoomList};
use srvpro3::server::{
    Admission, Handle, Refusal, bot_only_step, connection_left, list_room, random_room, refusal, resume_candidates,
    spectate_on_join, udp_leavers, unlist_room, admit_connection,
};
use srvpro3::tournament::{
    Match, MatchEntry, Participant, ParticipantEntry, Tournament, TournamentConfig, select_match, tournament_options,
};
use srvpro3::transport::Protocol;
use srvpro3::windbot::Platform;

fn person(name: &str, position: Netplayer, protocol: Protocol) -> PlayerRecord {
    PlayerRecord {
        name: name.to_string(),
        is_bot: false,
        position,
        is_host: false,
        connected: true,
        protocol,
        deck: None,
        reconnect_deck: None,
    }
}

#[test]
fn random_room_joins_an_open_room_first() {
    let rooms = vec![("R#0-1#5".to_string(), 2), ("X".to_string(), 0), ("R#0-1#9".to_string(), 1)];
    let mut next = 40;
    assert_eq!(random_room(&rooms, &mut next, "R#0-1#", 2), "R#0-1#9");
    assert_eq!(next, 40);
}

#[test]
fn random_room_counts_past_taken_keys() {
    let rooms = vec![("R#0-1#40".to_string(), 2), ("R#0-1#41".to_string(), 2)];
    let mut next = 40;
    assert_eq!(random_room(&rooms, &mut next, "R#0-1#", 2), "R#0-1#42");
    assert_eq!(next, 43);
    let mut last = u64::MAX;
    assert_eq!(random_room(&Vec::new(), &mut last, "R#", 2), format!("R#{}", u64::MAX));
    assert_eq!(last, 0);
}

fn handle(id: u64, available: bool) -> Handle {
    Handle { id, ip: "1.2.3.4".into(), name: "alice".into(), pass: "room".into(), version: Some(4960), available }
}

#[test]
fn lost_seats_are_matched_by_address_name_password_and_version() {
    let handles = vec![handle(1, true), handle(2, false), handle(3, true)];
    assert_eq!(resume_candidates(&handles, "1.2.3.4", "alice", "room", Some(4960)), vec![1, 3]);
    assert!(resume_candidates(&handles, "1.2.3.4", "alice", "room", Some(1)).is_empty());
    assert!(resume_candidates(&handles, "5.6.7.8", "alice", "room", Some(4960)).is_empty());
}

#[test]
fn new_connections_are_admitted() {
    let rooms: Vec<(String, usize)> = Vec::new();
    let (mut next_room, mut next_id) = (1u64, 10u64);
    assert!(matches!(admit_connection(Err(()), true, &vec![], "x", &rooms, &mut next_room, &mut next_id), Admission::Reject));
    assert!(matches!(
        admit_connection(Ok(Some("bot".into())), false, &vec![], "x", &rooms, &mut next_room, &mut next_id),
        Admission::Reject
    ));
    assert!(matches!(admit_connection(Ok(None), true, &vec![7], "x", &rooms, &mut next_room, &mut next_id), Admission::Resume(7)));
    assert!(matches!(admit_connection(Ok(None), true, &vec![7, 8], "x", &rooms, &mut next_room, &mut next_id), Admission::Ambiguous));
    assert_eq!(next_id, 10);
    match admit_connection(Ok(None), true, &vec![], "m#abc", &rooms, &mut next_room, &mut next_id) {
        Admission::Join { room_id, connection_id, options } => {
            assert_eq!(room_id, "M#abc");
            assert_eq!(connection_id, 10);
            assert_eq!(options.best_of, 3);
        },
        _ => panic!("expected a join"),
    }
    assert_eq!(next_id, 11);
    match admit_connection(Ok(None), true, &vec![], "", &rooms, &mut next_room, &mut next_id) {
        Admission::Join { room_id, .. } => assert_eq!(room_id, "R#0-1#1"),
        _ => panic!("expected a join"),
    }
    assert_eq!(next_room, 2);
    match admit_connection(Ok(Some("invited".into())), true, &vec![], "~ai1", &rooms, &mut next_room, &mut next_id) {
        Admission::Join { room_id, .. } => assert_eq!(room_id, "invited"),
        _ => panic!("expected a join"),
    }
    assert!(matches!(admit_connection(Ok(None), true, &vec![], "BO4#x", &rooms, &mut next_room, &mut next_id), Admission::Reject));
    assert_eq!(next_id, 14);
}

#[test]
fn rooms_are_listed_once_and_unlisted() {
    let (sender, mut receiver) = tokio::sync::broadcast::channel(8);
    let mut events = RoomEvents::new(sender);
    let mut rooms = RoomList::new();
    assert!(list_room(&mut rooms, &mut events, &"a".to_string(), 1));
    assert!(!list_room(&mut rooms, &mut events, &"a".to_string(), 2));
    assert!(matches!(receiver.try_recv().unwrap(), RoomEvent::Add(info) if info.connections == 1));
    assert!(receiver.try_recv().is_err());
    assert!(unlist_room(&mut rooms, &mut events, &"a".to_string()));
    assert!(!unlist_room(&mut rooms, &mut events, &"a".to_string()));
    assert!(matches!(receiver.try_recv().unwrap(), RoomEvent::Close(info) if info.room_id == "a"));
    assert_eq!(rooms.len(), 0);
}

#[test]
fn rooms_left_to_bots_are_interrupted() {
    let mut r = RoomRecord::new("r".to_string());
    let mut bot = person("bot", Netplayer::Player(1), Protocol::Tcp);
    bot.is_bot = true;
    r.insert_player(2, bot);
    let step = bot_only_step(&r, &Vec::new(), None, 100);
    assert_eq!(step.since, Some(100));
    assert!(step.interrupt);
    r.stage = DuelStage::Dueling;
    let mut human = person("h", Netplayer::Player(0), Protocol::Tcp);
    human.connected = false;
    r.insert_player(1, human);
    let step = bot_only_step(&r, &vec![1], None, 100);
    assert!(step.since.is_none() && !step.interrupt);
    let step = bot_only_step(&r, &Vec::new(), Some(100), 5099);
    assert_eq!(step.since, Some(100));
    assert!(!step.interrupt);
    assert!(bot_only_step(&r, &Vec::new(), Some(100), 5100).interrupt);
}

#[test]
fn stopping_the_server() {
    assert_eq!(refusal(Protocol::Udp), Refusal::Leave);
    assert_eq!(refusal(Protocol::Ws), Refusal::HostRefused);
    let mut r = RoomRecord::new("r".to_string());
    r.insert_player(1, person("a", Netplayer::Player(0), Protocol::Udp));
    r.insert_player(2, person("b", Netplayer::Player(1), Protocol::Tcp));
    assert_eq!(udp_leavers(&r), vec![(1, Netplayer::Player(0))]);
    assert_eq!(connection_left(0), 0);
    assert_eq!(connection_left(3), 2);
    assert!(spectate_on_join(DuelStage::Dueling, Netplayer::Observer(0)));
    assert!(!spectate_on_join(DuelStage::Begin, Netplayer::Observer(0)));
    assert!(!spectate_on_join(DuelStage::Dueling, Netplayer::Player(0)));
}

#[test]
fn handshake_collects_name_and_password() {
    let mut h = HandshakeState::new();
    assert!(matches!(h.step(Some((Some(0x17), None))), HandshakeStep::More));
    assert!(matches!(h.step(Some((Some(0x10), Some(ClientMessage::PlayerInfo { name: "a".into() })))), HandshakeStep::More));
    match h.step(Some((Some(0x12), Some(ClientMessage::JoinGame { version: 4960, pass: "room".into() })))) {
        HandshakeStep::Done(hs, messages) => {
            assert_eq!(hs.name, "a");
            assert_eq!(hs.pass, "room");
            assert_eq!(messages.len(), 2);
            assert_eq!(version(&messages), Some(4960));
        },
        _ => panic!("expected the handshake to finish"),
    }
    let mut h = HandshakeState::new();
    assert!(matches!(h.step(None), HandshakeStep::Failed(HandshakeError::Closed)));
    let mut h = HandshakeState::new();
    assert!(matches!(h.step(Some((Some(0x99), None))), HandshakeStep::Failed(HandshakeError::Undecodable(Some(0x99)))));
    let mut h = HandshakeState::new();
    for _ in 0..7 {
        assert!(matches!(h.step(Some((Some(0x16), Some(ClientMessage::Other)))), HandshakeStep::More));
    }
    assert!(matches!(h.step(Some((Some(0x16), Some(ClientMessage::Other)))), HandshakeStep::Failed(HandshakeError::Incomplete)));
    assert_eq!(version(&vec![ClientMessage::Other]), None);
}

fn tournament_record() -> (RoomRecord, srvpro3::tournament::Admission) {
    let config = TournamentConfig {
        enabled: true,
        url: "https://example.com/".into(),
        token: "k".into(),
        tournament_id: 1,
        bo: 1,
        timeout: 5,
        check_deck: false,
        post_score: false,
    };
    let t = Tournament {
        id: 1,
        participants: vec![
            ParticipantEntry { participant: Participant { id: 1, name: "a".into(), quit: false, deckbuf: None } },
            ParticipantEntry { participant: Participant { id: 2, name: "b".into(), quit: false, deckbuf: None } },
        ],
        matches: vec![MatchEntry {
            match_info: Match { id: 9, state: "open".into(), player1_id: Some(1), player2_id: Some(2), winner_id: None },
        }],
    };
    let a = select_match(&config, tournament_options(1).unwrap(), &t, "a", None, false).unwrap().unwrap();
    let mut record = RoomRecord::new("9".into());
    let mut room = a.create_room();
    room.seats[0] = Some(5);
    record.tournament = Some(room);
    (record, a)
}

#[test]
fn tournament_handshake_is_prepared_for_the_engine() {
    let (_, a) = tournament_record();
    let initial = vec![
        ClientMessage::PlayerInfo { name: "old".into() },
        ClientMessage::PlayerInfo { name: "a".into() },
        ClientMessage::JoinGame { version: 4960, pass: "9".into() },
    ];
    let prepared = a.prepare(&initial, 5, 4960).unwrap();
    assert!(matches!(&prepared[0], ClientMessage::PlayerInfo { name } if name == "a"));
    assert!(matches!(&prepared[1], ClientMessage::JoinGame { version: 4960, pass } if pass == "5"));
    assert_eq!(a.prepare(&initial, 5, 1).unwrap_err(), PrepareError::Version);
    assert_eq!(a.prepare(&vec![ClientMessage::Other], 5, 4960).unwrap_err(), PrepareError::NoPlayerInfo);
    assert_eq!(a.prepare(&initial[..2].to_vec(), 5, 4960).unwrap_err(), PrepareError::NoJoin);
}

#[test]
fn tournament_joins_are_placed_by_seat() {
    let (mut record, _) = tournament_record();
    let free = vec![false, false];
    let undecided = Netplayer::Undecided(0);
    assert_eq!(plan_join(&record, DuelStage::Begin, 4960, 4960, "5", undecided, false, false, &free), Ok((5, JoinPlan::Seat(0))));
    assert_eq!(plan_join(&record, DuelStage::Begin, 1, 4960, "5", undecided, false, false, &free), Err(JoinRefusal::Version(4960)));
    assert_eq!(plan_join(&record, DuelStage::Begin, 4960, 4960, "x", undecided, false, false, &free), Err(JoinRefusal::Refused));
    assert_eq!(plan_join(&record, DuelStage::Begin, 4960, 4960, "6", undecided, false, false, &free), Err(JoinRefusal::Refused));
    assert_eq!(plan_join(&record, DuelStage::Begin, 4960, 4960, "5", undecided, false, false, &vec![true, false]), Err(JoinRefusal::Refused));
    assert_eq!(plan_join(&record, DuelStage::Begin, 4960, 4960, "5", Netplayer::Player(0), false, false, &free), Err(JoinRefusal::Refused));
    record.insert_player(6, person("w", Netplayer::Unknown, Protocol::Tcp));
    assert_eq!(plan_join(&record, DuelStage::Dueling, 4960, 4960, "+6", undecided, true, true, &free), Ok((6, JoinPlan::Watch)));
    assert_eq!(plan_join(&record, DuelStage::Dueling, 4960, 4960, "6", undecided, true, false, &free), Err(JoinRefusal::Refused));
    record.insert_player(5, person("a", Netplayer::Player(1), Protocol::Tcp));
    let i = record.find_player(5).unwrap();
    record.players[i].1.is_host = true;
    record.place(5, Netplayer::Player(0));
    assert_eq!(record.players[i].1.position, Netplayer::Player(0));
    assert!(!record.players[i].1.is_host);
}

#[test]
fn tournament_room_ends_after_a_forfeit_between_duels() {
    let (mut record, _) = tournament_record();
    assert!(!record.end_after_leave(DuelStage::Siding));
    record.tournament.as_mut().unwrap().forfeit = Some(1);
    assert!(!record.end_after_leave(DuelStage::Dueling));
    assert!(record.end_after_leave(DuelStage::Siding));
    assert_eq!(record.stage, DuelStage::End);
    assert!(auto_start(DuelStage::Begin, &vec![Some(true), Some(true)]));
    assert!(!auto_start(DuelStage::Begin, &vec![Some(true), None]));
    assert!(!auto_start(DuelStage::Dueling, &vec![Some(true), Some(true)]));
}

#[test]
fn duel_history_is_recorded() {
    let mut r = RoomRecord::new("room".into());
    let e = |n: &str| Entrant { name: n.into(), deck: format!("{}-deck", n) };
    r.begin_single(e("a"), e("b"), Some(1), 12);
    let h = r.current_history.clone().unwrap();
    assert_eq!((h.player_a.as_str(), h.player_b.as_str(), h.first_attack_slot, h.replay_start), ("a", "b", 1, 12));
    r.end_duel(CorePlayer::FirstAttackPlayer);
    assert_eq!(r.current_history.as_ref().unwrap().winner_id, Some(1));
    let closed = r.close_duel().unwrap();
    assert_eq!(closed.room_id, "room");
    assert!(r.current_history.is_none());
    assert_eq!(r.history.len(), 1);
    assert!(r.close_duel().is_none());
    r.begin_tag(e("a"), e("c"), e("b"), e("d"), None, 0);
    let h = r.current_history.clone().unwrap();
    assert_eq!(h.player_c.as_deref(), Some("c"));
    assert_eq!(h.player_d.as_deref(), Some("d"));
    r.terminate();
    assert_eq!(r.stage, DuelStage::End);
}

#[test]
fn siding_and_resuming() {
    assert_eq!(overdue(DuelStage::Siding, 2, 2, &vec![Some(true), Some(false), None, Some(false)]), vec![1, 3]);
    assert!(overdue(DuelStage::Siding, 2, 1, &vec![Some(false)]).is_empty());
    assert!(overdue(DuelStage::Dueling, 2, 2, &vec![Some(false)]).is_empty());
    assert_eq!(side_notice(60, DuelStage::Siding).unwrap(), "请在 60 秒内完成换副，超时将结束房间。");
    assert!(side_notice(0, DuelStage::Siding).is_none());
    assert!(side_notice(60, DuelStage::Dueling).is_none());
    assert!(interrupt_ends_duel(DuelStage::Dueling));
    assert!(!interrupt_ends_duel(DuelStage::Begin));
    assert_eq!(resume_plan(DuelStage::Dueling, false, false, false), ResumePlan::Field);
    assert_eq!(resume_plan(DuelStage::Siding, false, false, false), ResumePlan::Siding);
    assert_eq!(resume_plan(DuelStage::Siding, true, true, false), ResumePlan::DuelScreen { select_hand: true, select_tp: false });
    assert_eq!(resume_plan(DuelStage::Begin, true, true, true), ResumePlan::Nothing);
}

#[test]
fn bridge_holds_messages_until_seated() {
    let mut b = Bridge::new(Netplayer::Undecided(0));
    assert!(matches!(b.on_input(Some(ClientMessage::HsReady)), InputAction::Wait));
    assert!(matches!(b.on_input(Some(ClientMessage::JoinGame { version: 1, pass: "p".into() })), InputAction::Forward(_)));
    assert!(b.join_sent);
    assert!(matches!(b.on_input(Some(ClientMessage::JoinGame { version: 1, pass: "p".into() })), InputAction::Wait));
    assert!(matches!(b.on_input(Some(ClientMessage::CreateGame)), InputAction::Wait));
    assert!(b.next_pending().is_none());
    assert_eq!(b.on_output(&ServerMessage::JoinGame), OutputAction::Forward);
    assert_eq!(b.on_output(&ServerMessage::TypeChange { player: Netplayer::Player(0), host: true }), OutputAction::Forward);
    assert!(b.joined());
    assert!(matches!(b.next_pending(), Some(ClientMessage::HsReady)));
    assert!(b.next_pending().is_none());
    assert_eq!(b.on_output(&ServerMessage::ErrorMessage), OutputAction::Forward);
    assert_eq!(b.on_output(&ServerMessage::LeaveGame { pos: Netplayer::Player(1) }), OutputAction::Forward);
    assert_eq!(b.on_output(&ServerMessage::LeaveGame { pos: Netplayer::Player(0) }), OutputAction::Stop);
    assert!(!b.finished());
    assert!(matches!(b.on_input(Some(ClientMessage::LeaveGame)), InputAction::Wait));
    assert!(b.finished());
}

#[test]
fn bridge_refusals_and_overflow() {
    let mut b = Bridge::new(Netplayer::Undecided(0));
    assert_eq!(b.on_output(&ServerMessage::ErrorMessage), OutputAction::ForwardAndStop);
    for _ in 0..64 {
        assert!(matches!(b.on_input(Some(ClientMessage::HsReady)), InputAction::Wait));
    }
    assert!(!b.disconnected);
    b.on_input(Some(ClientMessage::HsReady));
    assert!(b.disconnected);
    assert!(b.pending.is_empty());
    assert!(b.finished());
    let mut b = Bridge::new(Netplayer::Undecided(0));
    b.engine_ended();
    assert!(b.ended);
    b.client_gone();
    assert!(b.finished());
}

#[test]
fn reloads() {
    assert_eq!(server_reload(None, 1, 2, 3), ServerReload::Start);
    assert_eq!(server_reload(Some((1, 2, 3, false)), 1, 2, 3), ServerReload::Keep);
    assert_eq!(server_reload(Some((1, 2, 3, true)), 1, 2, 3), ServerReload::Restart);
    assert_eq!(server_reload(Some((1, 2, 4, false)), 1, 2, 3), ServerReload::Restart);
    assert_eq!(windbot_reload(" ", 2399, None), WindbotReload::Disable);
    assert_eq!(windbot_reload("bots", 0, Some((2399, false))), WindbotReload::Disable);
    assert_eq!(windbot_reload("bots", 2399, Some((2399, false))), WindbotReload::Keep);
    assert_eq!(windbot_reload("bots", 2399, Some((2399, true))), WindbotReload::Restart);
    assert_eq!(windbot_reload("bots", 2399, None), WindbotReload::Restart);
}

#[test]
fn windbot_start_arguments() {
    assert_eq!(
        windbot_arguments("bots", 2399, Platform::Linux),
        "ServerMode=true ServerPort=2399 ServerURL=127.0.0.1 SQLitePath=\"bots\" DbPath=\"bots/cards.cdb\" ConsoleLog=false"
    );
    assert_eq!(
        windbot_arguments("a\"b", 1, Platform::Linux),
        "ServerMode=true ServerPort=1 ServerURL=127.0.0.1 SQLitePath=\"a\"b\" DbPath=\"a\\\"b/cards.cdb\" ConsoleLog=false"
    );
}

#[test]
fn script_sources_and_limits() {
    assert!(matches!(script_source("./script/c123.lua"), ScriptSource::Cards(n) if n == "script/c123.lua"));
    assert!(matches!(script_source("expansions/x.lua"), ScriptSource::File(p) if p == "expansions/x.lua"));
    assert!(script_fits(1024 * 1024 - 1));
    assert!(!script_fits(1024 * 1024));
    assert!(accepts_client(1023));
    assert!(!accepts_client(1024));
}

fn api_config(url: &str) -> TournamentConfig {
    TournamentConfig {
        enabled: true,
        url: url.into(),
        token: "k".into(),
        tournament_id: 7,
        bo: 1,
        timeout: 5,
        check_deck: false,
        post_score: true,
    }
}

#[test]
fn tournament_endpoint() {
    let api = Api::new(api_config(" https://example.com/api/ ")).unwrap();
    assert_eq!(api.endpoint, "https://example.com/api/v1/tournaments/7");
    assert_eq!(api.report_key(3), "https://example.com/api/v1/tournaments/7#3");
    assert_eq!(api.bracket_url().unwrap(), "https://example.com/api/v1/tournaments/7.json");
    assert_eq!(api.score_url(3).unwrap(), "https://example.com/api/v1/tournaments/7/matches/3.json");
    let api = Api::new(api_config("http://example.com")).unwrap();
    assert_eq!(api.endpoint, "http://example.com/v1/tournaments/7");
    assert!(matches!(Api::new(api_config("not a url")), Err(ApiError::BadUrl)));
    assert!(matches!(Api::new(api_config("ftp://example.com/")), Err(ApiError::NotPlain)));
    assert!(matches!(Api::new(api_config("https://u:p@example.com/")), Err(ApiError::NotPlain)));
    assert!(matches!(Api::new(api_config("https://example.com/?q=1")), Err(ApiError::NotPlain)));
    assert_eq!(retry_delay(0), Some(1));
    assert_eq!(retry_delay(1), Some(2));
    assert_eq!(retry_delay(2), None);
    assert!(body_fits(0, 4 * 1024 * 1024));
    assert!(!body_fits(1, 4 * 1024 * 1024));
}

fn utf16_fixed(text: &str, len: usize) -> Vec<u8> {
    let mut units: Vec<u16> = text.encode_utf16().collect();
    units.resize(len, 0);
    units.iter().flat_map(|u| u.to_le_bytes()).collect()
}

fn player_info_frame(name: &str) -> Vec<u8> {
    let mut frame = vec![0x10];
    frame.extend(utf16_fixed(name, 20));
    frame
}

fn join_frame(version: u16, pass: &str) -> Vec<u8> {
    let mut frame = vec![0x12];
    frame.extend(version.to_le_bytes());
    frame.extend([0, 0]);
    frame.extend(0u32.to_le_bytes());
    frame.extend(utf16_fixed(pass, 20));
    frame
}

#[test]
fn client_frames_are_read() {
    assert!(matches!(decode(&player_info_frame("alice")), Some(ClientMessage::PlayerInfo { name }) if name == "alice"));
    assert!(matches!(
        decode(&join_frame(4960, "M#room")),
        Some(ClientMessage::JoinGame { version: 4960, pass }) if pass == "M#room"
    ));
    assert!(matches!(decode(&[0x22]), Some(ClientMessage::HsReady)));
    assert!(matches!(decode(&[0x13]), Some(ClientMessage::LeaveGame)));
    assert!(matches!(decode(&[0x14]), Some(ClientMessage::Other)));
    assert!(matches!(decode(&[0x24, 1]), Some(ClientMessage::HsKick { pos: Netplayer::Player(1) })));
    assert!(matches!(decode(&[0x24, 7]), Some(ClientMessage::HsKick { pos: Netplayer::Observer(255) })));
    assert!(matches!(decode(&[0x24, 9]), Some(ClientMessage::HsKick { pos: Netplayer::Unknown })));
    assert!(matches!(decode(&[0x16, b'h', 0, b'i', 0, 0, 0]), Some(ClientMessage::Chat { msg }) if msg == "hi"));
    let deck = [2u8, 1, 0, 0, 0, 1, 0, 0, 0, 123, 0, 0, 0, 200, 1, 0, 0];
    match decode(&deck) {
        Some(ClientMessage::UpdateDeck { deck }) => {
            assert_eq!(deck.main, vec![123]);
            assert_eq!(deck.side, vec![456]);
            assert!(deck.extra.is_empty());
        },
        _ => panic!("expected a deck"),
    }
    assert!(decode(&[0x99]).is_none());
    assert!(decode(&[]).is_none());
}

#[test]
fn handshake_reads_raw_frames() {
    let mut h = HandshakeState::new();
    assert!(matches!(h.step_frame(Some(vec![0x17, 1, 2, 3, 4])), HandshakeStep::More));
    assert!(matches!(h.step_frame(Some(player_info_frame("bob"))), HandshakeStep::More));
    match h.step_frame(Some(join_frame(4960, "abc"))) {
        HandshakeStep::Done(hs, messages) => {
            assert_eq!(hs.name, "bob");
            assert_eq!(hs.pass, "abc");
            assert_eq!(messages.len(), 2);
        },
        _ => panic!("expected the handshake to finish"),
    }
    let mut h = HandshakeState::new();
    assert!(matches!(h.step_frame(Some(vec![0x99])), HandshakeStep::Failed(HandshakeError::Undecodable(Some(0x99)))));
    let mut h = HandshakeState::new();
    assert!(matches!(h.step_frame(Some(Vec::new())), HandshakeStep::Failed(HandshakeError::Undecodable(None))));
    let mut h = HandshakeState::new();
    assert!(matches!(h.step_frame(None), HandshakeStep::Failed(HandshakeError::Closed)));
}

#[test]
fn bridge_keeps_held_messages_first() {
    let mut b = Bridge::new(Netplayer::Undecided(0));
    assert!(matches!(b.on_input(Some(ClientMessage::HsReady)), InputAction::Wait));
    b.on_output(&ServerMessage::JoinGame);
    b.on_output(&ServerMessage::TypeChange { player: Netplayer::Player(0), host: true });
    assert!(matches!(b.on_input(Some(ClientMessage::HsNotReady)), InputAction::Wait));
    assert!(matches!(b.next_pending(), Some(ClientMessage::HsReady)));
    assert!(matches!(b.next_pending(), Some(ClientMessage::HsNotReady)));
    assert!(b.next_pending().is_none());
    assert!(matches!(b.on_input(Some(ClientMessage::HsReady)), InputAction::Forward(ClientMessage::HsReady)));
}
