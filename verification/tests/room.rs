use srvpro3::bot::{
    BotError, InvitationError, Invitations, ai_command, check_invited, check_room, invitation_token, is_invitation, prepare,
    take_room,
};
use srvpro3::password::Password;
use srvpro3::deck::Deck;
use srvpro3::duel::{ClientMessage, DuelStage, Netplayer, ServerMessage, Win};
use srvpro3::room::{PlayerRecord, RoomRecord};
use srvpro3::rooms::{RoomEvent, RoomEvents, RoomInfo, RoomList};
use srvpro3::session::{
    ClientLink, InputRoute, Kick, LostAction, OutputDelivery, OutputStep, ResumeAction, ResumeRoute, SessionState, deliver, keeps_seat, kick_target, on_client_input, on_engine_output, on_resume_input,
    tips_command,
};
use srvpro3::transport::Protocol;

fn person(name: &str, position: Netplayer, host: bool) -> PlayerRecord {
    PlayerRecord {
        name: name.to_string(),
        is_bot: false,
        position,
        is_host: host,
        connected: true,
        protocol: Protocol::Tcp,
        deck: None,
        reconnect_deck: None,
    }
}

fn deck(main: Vec<u32>) -> Deck {
    Deck { main, extra: vec![], side: vec![] }
}

fn two_player_room() -> RoomRecord {
    let mut r = RoomRecord::new("room".to_string());
    r.insert_player(1, person("alice", Netplayer::Player(0), true));
    r.insert_player(2, person("bob", Netplayer::Player(1), false));
    r.insert_player(3, person("eve", Netplayer::Observer(0), false));
    r
}

fn listing(key: &str) -> RoomInfo {
    RoomInfo { room_id: key.to_string(), connections: 0, player_a: vec![], player_b: vec![], spectators: 0, chats: vec![] }
}

#[test]
fn players_are_kept_by_id() {
    let mut r = RoomRecord::new("room".to_string());
    r.insert_player(5, person("e", Netplayer::Player(0), true));
    r.insert_player(2, person("b", Netplayer::Player(1), false));
    r.insert_player(5, person("f", Netplayer::Observer(0), false));
    assert_eq!(r.players.iter().map(|p| p.0).collect::<Vec<_>>(), vec![2, 5]);
    assert_eq!(r.players[1].1.name, "f");
    assert_eq!(r.find_player(2), Some(0));
    assert_eq!(r.find_player(9), None);
}

#[test]
fn chat_is_recorded_for_seated_connections_only() {
    let mut r = two_player_room();
    r.insert_player(4, person("mia", Netplayer::Undecided(0), false));
    r.observe_input(1, &ClientMessage::Chat { msg: "hello".to_string() }, 77);
    r.observe_input(4, &ClientMessage::Chat { msg: "ignored".to_string() }, 78);
    r.observe_input(9, &ClientMessage::Chat { msg: "stranger".to_string() }, 79);
    assert_eq!(r.chats.len(), 1);
    assert_eq!(r.chats[0].content, "hello");
    assert_eq!(r.chats[0].name, "alice");
    assert_eq!(r.chats[0].created_at, 77);
    let long = "x".repeat(1500);
    r.observe_input(3, &ClientMessage::Chat { msg: long }, 80);
    assert_eq!(r.chats[1].content.chars().count(), 1000);
}

#[test]
fn chat_keeps_the_latest_hundred_lines() {
    let mut r = two_player_room();
    for i in 0..105 {
        r.observe_input(1, &ClientMessage::Chat { msg: format!("{}", i) }, i);
    }
    assert_eq!(r.chats.len(), 100);
    assert_eq!(r.chats[0].content, "5");
    assert_eq!(r.chats[99].content, "104");
}

#[test]
fn accepted_decks_follow_seats() {
    let mut r = two_player_room();
    r.store_accepted_deck(1, Some(deck(vec![7])));
    assert_eq!(r.accepted(1).unwrap().main, vec![7]);
    assert!(r.accepted(0).is_none());
    assert_eq!(r.players[1].1.deck.as_ref().unwrap().main, vec![7]);
    assert_eq!(r.players[1].1.reconnect_deck.as_ref().unwrap().main, vec![7]);
    assert!(r.players[0].1.deck.is_none());
    r.observe_input(2, &ClientMessage::HsNotReady, 0);
    assert!(r.players[1].1.deck.is_none());
    assert!(r.accepted(1).is_none());
}

#[test]
fn engine_output_records_seats_sides_and_wins() {
    let mut r = two_player_room();
    r.store_accepted_deck(0, Some(deck(vec![1])));
    let mut n: u32 = 0;
    r.observe_output(3, &mut n, &ServerMessage::TypeChange { player: Netplayer::Player(0), host: true });
    assert_eq!(r.players[2].1.position, Netplayer::Player(0));
    assert!(r.players[2].1.is_host);
    assert_eq!(r.players[2].1.deck.as_ref().unwrap().main, vec![1]);
    let mut r = two_player_room();
    r.observe_output(1, &mut n, &ServerMessage::GameStart { player_type: 0 });
    assert_eq!(n, 1);
    let mut other: u32 = 0;
    r.observe_output(2, &mut other, &ServerMessage::GameStart { player_type: 1 });
    assert_eq!(other, 1);
    assert_eq!(r.duels.len(), 1);
    assert_eq!(r.duels.keys().copied().collect::<Vec<u32>>(), vec![1]);
    assert_eq!(r.duels[&1].first_players, vec![1]);
    assert_eq!(r.duels[&1].second_players, vec![2]);
    r.observe_output(3, &mut n, &ServerMessage::GameWin { win: Win { player: 1, reason: 0 } });
    assert!(r.duels[&1].winner.is_none());
    r.observe_output(1, &mut n, &ServerMessage::GameWin { win: Win { player: 0, reason: 0 } });
    r.observe_output(2, &mut other, &ServerMessage::GameWin { win: Win { player: 1, reason: 1 } });
    assert_eq!(r.duels[&1].winner, Some(Win { player: 0, reason: 0 }));
}

#[test]
fn room_info_groups_players_by_team() {
    let mut r = RoomRecord::new("t".to_string());
    r.team_size = 2;
    r.insert_player(1, person("a", Netplayer::Player(3), false));
    r.insert_player(2, person("b", Netplayer::Player(0), false));
    r.insert_player(3, person("c", Netplayer::Player(2), false));
    r.insert_player(4, person("d", Netplayer::Observer(0), false));
    let mut gone = person("e", Netplayer::Player(1), false);
    gone.connected = false;
    r.insert_player(5, gone);
    let info = r.info(&"T#x".to_string());
    assert_eq!(info.room_id, "T#x");
    assert_eq!(info.connections, 4);
    assert_eq!(info.spectators, 1);
    assert_eq!(info.player_a.iter().map(|p| p.id).collect::<Vec<_>>(), vec![2]);
    assert_eq!(info.player_b.iter().map(|p| p.id).collect::<Vec<_>>(), vec![3, 1]);
}

#[test]
fn listed_room_is_refreshed_and_announced() {
    let r = two_player_room();
    let (sender, mut receiver) = tokio::sync::broadcast::channel(4);
    let mut events = RoomEvents::new(sender);
    let mut rooms = RoomList::new();
    r.update_info(&mut rooms, &mut events, &"room".to_string());
    assert!(receiver.try_recv().is_err());
    assert!(rooms.insert(listing("room")));
    r.update_info(&mut rooms, &mut events, &"room".to_string());
    assert_eq!(rooms.get(0, 1).unwrap().0[0].connections, 3);
    assert!(matches!(receiver.try_recv().unwrap(), RoomEvent::Update(info) if info.spectators == 1));
}

#[test]
fn bot_needs_a_waiting_room_with_a_free_seat() {
    let mut r = RoomRecord::new("r".to_string());
    r.insert_player(1, person("a", Netplayer::Player(0), true));
    assert_eq!(check_room(&r), Ok(()));
    assert_eq!(prepare(&r, 7911, 2399, false), Ok(7911));
    assert_eq!(prepare(&r, 0, 2399, false), Err(BotError::NoTcp));
    assert_eq!(prepare(&r, 7911, 0, false), Err(BotError::WindbotOff));
    assert_eq!(prepare(&r, 7911, 2399, true), Err(BotError::Busy));
    r.insert_player(2, person("b", Netplayer::Player(1), false));
    assert_eq!(check_room(&r), Err(BotError::NoSeat));
    r.stage = DuelStage::Dueling;
    assert_eq!(prepare(&r, 7911, 2399, false), Err(BotError::NotWaiting));
    assert_eq!(BotError::Busy.message(), "正在添加机器人，请稍后再试");
    assert_eq!(BotError::NoSeat.message(), "房间没有空余对战席位");
}

#[test]
fn ai_command_names_the_bot() {
    assert_eq!(ai_command("/ai"), Some(String::new()));
    assert_eq!(ai_command("  /ai  Joey  "), Some("Joey".to_string()));
    assert_eq!(ai_command("/air"), None);
    assert_eq!(ai_command("hello"), None);
    assert!(tips_command(" /tips "));
    assert!(!tips_command("/tip"));
}

#[test]
fn invitation_tokens_are_hex() {
    assert_eq!(invitation_token(0x1234), "~ai0000000000001234");
    assert_eq!(invitation_token(u64::MAX), "~aiffffffffffffffff");
    assert!(is_invitation("~ai0000000000001234"));
    assert!(!is_invitation("ai~"));
}

#[test]
fn seats_are_kept_only_for_dueling_players_with_a_deck() {
    let mut r = two_player_room();
    r.store_accepted_deck(0, Some(deck(vec![1, 2])));
    assert!(!keeps_seat(&r, 1, 60, false));
    r.stage = DuelStage::Dueling;
    assert!(keeps_seat(&r, 1, 60, false));
    assert!(!keeps_seat(&r, 1, 0, false));
    assert!(!keeps_seat(&r, 1, 60, true));
    assert!(!keeps_seat(&r, 2, 60, false));
    assert!(!keeps_seat(&r, 3, 60, false));
}

#[test]
fn resumed_player_must_bring_the_same_deck() {
    let mut r = two_player_room();
    r.store_accepted_deck(0, Some(deck(vec![1, 2])));
    let same = ClientMessage::UpdateDeck { deck: deck(vec![2, 1]) };
    let other = ClientMessage::UpdateDeck { deck: deck(vec![3]) };
    assert_eq!(on_resume_input(&r, 1, &same), ResumeRoute::Restore(0));
    assert_eq!(on_resume_input(&r, 1, &other), ResumeRoute::Refuse);
    assert_eq!(on_resume_input(&r, 2, &same), ResumeRoute::Refuse);
    assert_eq!(on_resume_input(&r, 1, &ClientMessage::LeaveGame), ResumeRoute::Drop);
    assert_eq!(on_resume_input(&r, 1, &ClientMessage::HsReady), ResumeRoute::Wait);
    r.players[0].1.connected = false;
    r.resume(1, Protocol::Ws);
    assert!(r.players[0].1.connected);
    assert_eq!(r.players[0].1.protocol, Protocol::Ws);
}

#[test]
fn host_kicks_the_first_connected_player_of_a_seat() {
    let r = two_player_room();
    assert_eq!(
        kick_target(&r, 1, Netplayer::Player(1)),
        Some(Kick { id: 2, protocol: Protocol::Tcp, pos: Netplayer::Player(1) })
    );
    assert_eq!(kick_target(&r, 2, Netplayer::Player(0)), None);
    assert_eq!(kick_target(&r, 1, Netplayer::Observer(0)), None);
    assert_eq!(kick_target(&r, 1, Netplayer::Player(3)), None);
}

#[test]
fn client_input_routes() {
    let mut r = two_player_room();
    let (sender, _receiver) = tokio::sync::broadcast::channel(4);
    let mut events = RoomEvents::new(sender);
    let mut rooms = RoomList::new();
    let key = "room".to_string();
    let chat = |s: &str| ClientMessage::Chat { msg: s.to_string() };
    assert!(matches!(on_client_input(&mut r, &mut rooms, &mut events, &key, 1, &ClientMessage::LeaveGame, false, true, 0), InputRoute::Leave));
    assert!(matches!(on_client_input(&mut r, &mut rooms, &mut events, &key, 3, &chat("hi"), true, true, 0), InputRoute::Ignore));
    assert!(matches!(on_client_input(&mut r, &mut rooms, &mut events, &key, 1, &chat("/tips"), false, true, 0), InputRoute::Tips));
    assert!(matches!(on_client_input(&mut r, &mut rooms, &mut events, &key, 1, &chat("/ai Joey"), false, true, 0), InputRoute::Bot(n) if n == "Joey"));
    assert!(r.chats.is_empty());
    assert!(matches!(on_client_input(&mut r, &mut rooms, &mut events, &key, 1, &chat("hi"), false, true, 5), InputRoute::Forward(None)));
    assert_eq!(r.chats.len(), 1);
    let kick = ClientMessage::HsKick { pos: Netplayer::Player(1) };
    assert!(matches!(
        on_client_input(&mut r, &mut rooms, &mut events, &key, 1, &kick, false, true, 0),
        InputRoute::Forward(Some(Kick { id: 2, .. }))
    ));
}

#[test]
fn engine_output_steps() {
    let mut r = two_player_room();
    r.tournament = None;
    let (sender, _receiver) = tokio::sync::broadcast::channel(4);
    let mut events = RoomEvents::new(sender);
    let mut rooms = RoomList::new();
    let key = "room".to_string();
    let mut n: u32 = 0;
    let mut welcomed = false;
    let step = on_engine_output(&mut r, &mut rooms, &mut events, &key, 1, &mut n, &mut welcomed, ServerMessage::JoinGame);
    assert!(step.welcome);
    assert!(welcomed);
    let step = on_engine_output(&mut r, &mut rooms, &mut events, &key, 1, &mut n, &mut welcomed, ServerMessage::JoinGame);
    assert!(!step.welcome);
    r.start_refresh(0);
    on_engine_output(&mut r, &mut rooms, &mut events, &key, 1, &mut n, &mut welcomed, ServerMessage::GameStart { player_type: 0 });
    assert_eq!(n, 0);
    on_engine_output(&mut r, &mut rooms, &mut events, &key, 1, &mut n, &mut welcomed, ServerMessage::FieldFinish);
    assert!(r.refreshing.is_empty());
    on_engine_output(&mut r, &mut rooms, &mut events, &key, 1, &mut n, &mut welcomed, ServerMessage::GameStart { player_type: 0 });
    assert_eq!(n, 1);
    let step = on_engine_output(&mut r, &mut rooms, &mut events, &key, 2, &mut n, &mut welcomed, ServerMessage::DuelEnd);
    assert_eq!(step.leave, Some(Netplayer::Player(1)));
}

#[test]
fn invitations_are_used_once() {
    let r = RoomRecord::new("r".to_string());
    let mut table = Invitations::new();
    assert!(!table.pending_for(7));
    let (port, token) = table.invite(&r, "room", 7, 7911, 2399).unwrap();
    assert_eq!(port, 7911);
    assert!(token.starts_with("~ai"));
    assert_eq!(token.len(), 19);
    assert!(token[3..].chars().all(|c| c.is_ascii_hexdigit() && !c.is_ascii_uppercase()));
    assert!(table.contains(&token));
    assert!(table.pending_for(7));
    assert!(!table.pending_for(8));
    assert_eq!(table.invite(&r, "room", 7, 7911, 2399).unwrap_err(), BotError::Busy);
    let (_, reopened) = table.invite(&r, "room", 8, 7911, 2399).unwrap();
    assert_ne!(reopened, token);
    let (_, other) = table.invite(&r, "other", 9, 7911, 2399).unwrap();
    assert_ne!(other, token);
    assert_eq!(take_room(&mut table, &token, false), Err(InvitationError::NotLocal));
    assert!(table.contains(&token));
    assert_eq!(take_room(&mut table, &token, true), Ok(Some(("room".to_string(), 7))));
    assert!(!table.contains(&token));
    assert!(!table.pending_for(7));
    assert_eq!(take_room(&mut table, &token, true), Err(InvitationError::Expired));
    assert_eq!(take_room(&mut table, "abc", false), Ok(None));
    assert_eq!(table.take(&other), Some(("other".to_string(), 9)));
    assert_eq!(table.take(&other), None);
}

#[test]
fn invitation_refusals_leave_the_table() {
    let mut r = RoomRecord::new("r".to_string());
    let mut table = Invitations::new();
    assert_eq!(table.invite(&r, "room", 1, 0, 2399), Err(BotError::NoTcp));
    assert_eq!(table.invite(&r, "room", 1, 7911, 0), Err(BotError::WindbotOff));
    r.stage = DuelStage::Dueling;
    assert_eq!(table.invite(&r, "room", 1, 7911, 2399), Err(BotError::NotWaiting));
    assert!(!table.pending_for(1));
    assert_eq!(check_invited(None, 1), Err(InvitationError::Closed));
    assert_eq!(check_invited(Some((&r, 2)), 1), Err(InvitationError::Closed));
    assert_eq!(check_invited(Some((&r, 1)), 1), Err(InvitationError::Refused(BotError::NotWaiting)));
    r.stage = DuelStage::Begin;
    assert_eq!(check_invited(Some((&r, 1)), 1), Ok(()));
    assert_eq!(InvitationError::Expired.message(), "机器人入房标记已失效");
    assert_eq!(InvitationError::Refused(BotError::Busy).message(), "正在添加机器人，请稍后再试");
}

#[test]
fn created_rooms_take_their_team_size() {
    let single = RoomRecord::for_options("a".to_string(), &Password::parse("abc").unwrap(), 120);
    assert_eq!(single.team_size, 1);
    assert_eq!(single.side_timeout_secs, 120);
    let tag = RoomRecord::for_options("b".to_string(), &Password::parse("T#abc").unwrap(), 60);
    assert_eq!(tag.team_size, 2);
    assert_eq!(tag.side_timeout_secs, 60);
    assert_eq!(tag.stage, DuelStage::Begin);
}

#[test]
fn resumed_client_sees_nothing_until_checked() {
    let mut r = two_player_room();
    r.store_accepted_deck(0, Some(deck(vec![1, 2])));
    let mut link = ClientLink::new();
    assert!(link.delivers());
    assert_eq!(link.check_input(&r, 1, &ClientMessage::HsReady), None);
    link.lose();
    link.resume();
    let step = || OutputStep { message: ServerMessage::JoinGame, welcome: false, leave: None };
    assert!(deliver(&link, step()).is_none());
    assert_eq!(link.check_input(&r, 1, &ClientMessage::HsReady), Some(ResumeRoute::Wait));
    assert!(deliver(&link, step()).is_none());
    assert_eq!(link.check_input(&r, 1, &ClientMessage::UpdateDeck { deck: deck(vec![2, 1]) }), Some(ResumeRoute::Restore(0)));
    assert!(deliver(&link, step()).is_some());
    link.lose();
    link.resume();
    assert_eq!(link.check_input(&r, 1, &ClientMessage::UpdateDeck { deck: deck(vec![3]) }), Some(ResumeRoute::Refuse));
    assert!(!link.live);
    assert!(deliver(&link, step()).is_none());
}

#[test]
fn session_keeps_seat_queues_spectators_and_checks_resumes() {
    let mut r = two_player_room();
    r.store_accepted_deck(0, Some(deck(vec![1, 2])));
    let mut st = SessionState::new();
    assert!(matches!(st.on_output(vec![vec![1], vec![2]], true), OutputDelivery::Queued));
    assert!(!st.reads_engine());
    assert_eq!(st.next_queued(), Some(vec![1]));
    assert!(matches!(st.on_output(vec![vec![3]], false), OutputDelivery::Send(f) if f == vec![vec![3]]));
    assert_eq!(st.on_resume(true), ResumeAction::Ignore);
    st.link.lose();
    assert_eq!(st.on_lost(true), LostAction::KeepSeat);
    assert!(st.reads_engine());
    assert_eq!(st.on_lost(false), LostAction::Wait);
    assert!(matches!(st.on_output(vec![vec![4]], false), OutputDelivery::Withhold));
    assert_eq!(st.on_resume(false), ResumeAction::End);
    assert_eq!(st.on_resume(true), ResumeAction::Accept);
    assert!(matches!(st.on_output(vec![vec![5]], false), OutputDelivery::Withhold));
    assert_eq!(st.on_unchecked_input(&r, 1, &ClientMessage::UpdateDeck { deck: deck(vec![1, 2]) }), Some(ResumeRoute::Restore(0)));
    assert!(!st.seat_kept);
    assert!(matches!(st.on_output(vec![vec![6]], false), OutputDelivery::Send(_)));
    st.on_finished();
    assert!(st.ends_on_close(false));
    assert!(!st.ends_on_close(true));
    let mut lost = SessionState::new();
    lost.link.lose();
    assert_eq!(lost.on_lost(false), LostAction::End);
}
