use srvpro3::deck::Deck;
use srvpro3::duel::{DuelStage, Mode, Netplayer, ServerMessage};
use srvpro3::room::RoomRecord;
use srvpro3::seating::{Broadcast, Table, TablePlayer, change_seat, next_seat};

fn room() -> (Table, RoomRecord) {
    let table = Table {
        mode: Mode::Tag,
        stage: DuelStage::Begin,
        players: vec![None, None, None, None],
        observers: 0,
        host_player: Netplayer::Unknown,
        broadcasts: Vec::new(),
    };
    (table, RoomRecord::new("test".to_string()))
}

#[test]
fn moves_player_and_host_without_changing_observers() {
    let (mut table, mut record) = room();
    table.players[0] = Some(TablePlayer {
        name: "host".to_string(),
        deck: Deck { main: vec![123], extra: Vec::new(), side: Vec::new() },
        ready: false,
    });
    table.observers = 1;
    table.host_player = Netplayer::Player(0);
    let mut extra = Netplayer::Player(0);
    let response = change_seat(&mut table, &mut extra, &mut record);
    assert!(response.stop);
    assert_eq!(extra, Netplayer::Player(1));
    assert_eq!(table.host_player, extra);
    assert!(table.players[0].is_none());
    assert_eq!(table.players[1].as_ref().unwrap().deck.main, vec![123]);
    assert_eq!(table.observers, 1);
    assert!(matches!(response.reply, Some(ServerMessage::TypeChange { player, host }) if player == extra && host));
    // Everybody, duelist and spectator alike, gets exactly the leave of the old seat and the entry into the new one.
    assert_eq!(table.broadcasts.len(), 2);
    assert!(matches!(table.broadcasts[0], Broadcast::PlayerLeave { pos: Netplayer::Player(0) }));
    assert!(matches!(&table.broadcasts[1], Broadcast::PlayerEnter { name, pos: Netplayer::Player(1) } if name == "host"));
}

#[test]
fn observer_request_is_left_to_original_handler() {
    let (mut table, mut record) = room();
    let mut extra = Netplayer::Observer(0);
    let response = change_seat(&mut table, &mut extra, &mut record);
    assert!(response.reply.is_none());
    assert!(!response.stop);
    assert_eq!(extra, Netplayer::Observer(0));
    assert!(table.players.iter().all(Option::is_none));
}

#[test]
fn cycles_past_occupied_seats() {
    for (start, expected) in [(0usize, [2usize, 3, 0]), (1, [2, 3, 1])] {
        let mut players = [Some(0), Some(1), None, None];
        let mut current = start;
        for next in expected {
            assert_eq!(next_seat(&players, current), Some(next));
            players[next] = players[current].take();
            current = next;
        }
    }
}

#[test]
fn full_room_cannot_change_seats() {
    for current in 0..4 {
        assert_eq!(next_seat(&[Some(()); 4], current), None);
    }
}

#[test]
fn ready_player_keeps_seat() {
    let (mut table, mut record) = room();
    table.players[2] = Some(TablePlayer {
        name: "ready".to_string(),
        deck: Deck { main: Vec::new(), extra: Vec::new(), side: Vec::new() },
        ready: true,
    });
    let mut extra = Netplayer::Player(2);
    let response = change_seat(&mut table, &mut extra, &mut record);
    assert!(response.stop);
    assert!(response.reply.is_none());
    assert_eq!(extra, Netplayer::Player(2));
    assert!(table.players[2].is_some());
    assert!(table.broadcasts.is_empty());
}

#[test]
fn single_room_leaves_request_to_engine() {
    let (mut table, mut record) = room();
    table.mode = Mode::Single;
    let mut extra = Netplayer::Player(0);
    let response = change_seat(&mut table, &mut extra, &mut record);
    assert!(!response.stop);
    assert!(response.reply.is_none());
}

#[test]
fn started_room_stops_seat_change() {
    let (mut table, mut record) = room();
    table.stage = DuelStage::Dueling;
    table.players[0] = Some(TablePlayer {
        name: "a".to_string(),
        deck: Deck { main: Vec::new(), extra: Vec::new(), side: Vec::new() },
        ready: false,
    });
    let mut extra = Netplayer::Player(0);
    let response = change_seat(&mut table, &mut extra, &mut record);
    assert!(response.stop);
    assert!(response.reply.is_none());
    assert_eq!(extra, Netplayer::Player(0));
}

#[test]
fn moved_seats_lose_accepted_decks() {
    let (mut table, mut record) = room();
    record.store_accepted_deck(0, Some(Deck { main: vec![1], extra: Vec::new(), side: Vec::new() }));
    record.store_accepted_deck(1, Some(Deck { main: vec![2], extra: Vec::new(), side: Vec::new() }));
    record.store_accepted_deck(3, Some(Deck { main: vec![3], extra: Vec::new(), side: Vec::new() }));
    table.players[0] = Some(TablePlayer {
        name: "p".to_string(),
        deck: Deck { main: vec![1], extra: Vec::new(), side: Vec::new() },
        ready: false,
    });
    let mut extra = Netplayer::Player(0);
    change_seat(&mut table, &mut extra, &mut record);
    assert!(record.accepted(0).is_none());
    assert!(record.accepted(1).is_none());
    assert_eq!(record.accepted(3).unwrap().main, vec![3]);
}
