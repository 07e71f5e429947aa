use srvpro3::deck::{Deck, DeckError};
use srvpro3::duel::{ClientMessage, DuelStage};
use srvpro3::history::HistoryRecord;
use srvpro3::password::{Password, PasswordError};
use srvpro3::room::{PlayerRecord, RoomRecord};
use srvpro3::duel::Netplayer;
use srvpro3::tournament::{
    Match, MatchEntry, Participant, ParticipantEntry, Tournament, TournamentConfig, TournamentError, Winner,
    blocked_input, check_config, name_matches, parse_room_id, room_id, target, tournament_options, select_match,
};
use srvpro3::transport::Protocol;

fn config() -> TournamentConfig {
    TournamentConfig {
        enabled: true,
        url: "https://example.com/api/".to_string(),
        token: "key".to_string(),
        tournament_id: 7,
        bo: 3,
        timeout: 10,
        check_deck: false,
        post_score: true,
    }
}

fn participant(id: u64, name: &str) -> ParticipantEntry {
    ParticipantEntry { participant: Participant { id, name: name.to_string(), quit: false, deckbuf: None } }
}

fn open_match(id: u64, a: u64, b: u64) -> MatchEntry {
    MatchEntry {
        match_info: Match { id, state: "open".to_string(), player1_id: Some(a), player2_id: Some(b), winner_id: None },
    }
}

fn bracket() -> Tournament {
    Tournament {
        id: 7,
        participants: vec![participant(1, "alice"), participant(2, "bob"), participant(3, "carol")],
        matches: vec![open_match(11, 1, 2), open_match(12, 3, 3)],
    }
}

fn options() -> Password {
    tournament_options(3).unwrap()
}

#[test]
fn room_keys_follow_best_of() {
    assert_eq!(room_id(1, 5), "5");
    assert_eq!(room_id(3, 5), "M#5");
    assert_eq!(room_id(5, 5), "BO5#5");
}

#[test]
fn room_keys_are_read_back() {
    let chars = |s: &str| s.chars().collect::<Vec<char>>();
    assert_eq!(parse_room_id(1, &chars("12")), Some(12));
    assert_eq!(parse_room_id(3, &chars("M#12")), Some(12));
    assert_eq!(parse_room_id(5, &chars("BO5#12")), Some(12));
    assert_eq!(parse_room_id(3, &chars("12")), None);
    assert_eq!(parse_room_id(1, &chars("012")), None);
    assert_eq!(parse_room_id(1, &chars("x")), None);
}

#[test]
fn names_match_after_normalization_and_suffixes() {
    assert!(name_matches("alice", "alice"));
    assert!(name_matches("alice.ydk", "alice"));
    assert!(name_matches("alice.YDK.ydk", "alice"));
    assert!(!name_matches("alice.ydk.ydk.ydk", "alice"));
    assert!(name_matches("alice+bob", "bob"));
    assert!(name_matches("alice＋bob", "alice"));
    assert!(!name_matches("alice+", "alice"));
    assert!(!name_matches("a+b+c", "b"));
    // a precomposed letter matches its decomposed form.
    assert!(name_matches("caf\u{e9}", "cafe\u{301}"));
    assert!(!name_matches("alice", "bob"));
}

#[test]
fn tournament_options_name_the_best_of() {
    let p = tournament_options(5).unwrap();
    assert_eq!(p.best_of, 5);
    assert!(p.room_key.is_none());
    assert_eq!(tournament_options(4).unwrap_err(), PasswordError::BadBestOf);
}

#[test]
fn config_checks() {
    assert!(check_config(&config()).is_ok());
    let mut c = config();
    c.token = "  ".to_string();
    assert_eq!(check_config(&c), Err(TournamentError::NoToken));
    let mut c = config();
    c.tournament_id = 0;
    assert_eq!(check_config(&c), Err(TournamentError::NoTournamentId));
    let mut c = config();
    c.bo = 2;
    assert_eq!(check_config(&c), Err(TournamentError::BadBestOf));
    let mut c = config();
    c.timeout = 61;
    assert_eq!(check_config(&c), Err(TournamentError::BadTimeout));
}

#[test]
fn target_reads_the_match_from_the_password() {
    assert_eq!(target(false, 3, "M#5"), Ok(None));
    assert_eq!(target(true, 3, ""), Ok(Some(None)));
    assert_eq!(target(true, 3, "M#5"), Ok(Some(Some(5))));
    assert_eq!(target(true, 3, "other"), Ok(None));
    assert_eq!(target(true, 3, "BO4#1"), Err(TournamentError::Password(PasswordError::BadBestOf)));
}

#[test]
fn select_finds_the_only_open_match() {
    let a = select_match(&config(), options(), &bracket(), "bob", None, false).unwrap().unwrap();
    assert_eq!(a.match_info.id, 11);
    assert_eq!(a.slot, 1);
    assert_eq!(a.participants[0].id, 1);
    assert_eq!(a.participants[1].id, 2);
    assert!(a.deck.is_none());
    assert_eq!(a.room_id(), "M#11");
}

#[test]
fn select_errors() {
    let c = config();
    let t = bracket();
    let mut foreign = bracket();
    foreign.id = 8;
    assert_eq!(select_match(&c, options(), &foreign, "bob", None, false).unwrap_err(), TournamentError::ForeignTournament);
    assert!(select_match(&c, options(), &t, "bob", Some(99), false).unwrap().is_none());
    assert_eq!(select_match(&c, options(), &t, "bob", Some(99), true).unwrap_err(), TournamentError::MatchGone);
    assert_eq!(select_match(&c, options(), &t, "dave", None, false).unwrap_err(), TournamentError::NotParticipant);
    assert_eq!(select_match(&c, options(), &t, "carol", None, false).unwrap_err(), TournamentError::SamePlayers);
    assert_eq!(select_match(&c, options(), &t, "carol", Some(11), false).unwrap_err(), TournamentError::WrongPlayer);
    let mut twice = bracket();
    twice.participants.push(participant(4, "bob"));
    assert_eq!(select_match(&c, options(), &twice, "bob", None, false).unwrap_err(), TournamentError::AmbiguousName);
    let mut none = bracket();
    none.matches[0].match_info.state = "complete".to_string();
    assert_eq!(select_match(&c, options(), &none, "bob", None, false).unwrap_err(), TournamentError::NoMatch);
    assert_eq!(select_match(&c, options(), &none, "bob", Some(11), false).unwrap_err(), TournamentError::NotPlayable);
    let mut two = bracket();
    two.matches.push(open_match(13, 2, 3));
    assert_eq!(select_match(&c, options(), &two, "bob", None, false).unwrap_err(), TournamentError::SeveralMatches);
    let mut quit = bracket();
    quit.participants[0].participant.quit = true;
    assert_eq!(select_match(&c, options(), &quit, "bob", None, false).unwrap_err(), TournamentError::OpponentMissing);
}

#[test]
fn select_checks_registered_decks() {
    let mut c = config();
    c.check_deck = true;
    let mut t = bracket();
    assert_eq!(select_match(&c, options(), &t, "bob", None, false).unwrap_err(), TournamentError::NoDeck);
    t.participants[1].participant.deckbuf = Some("AQAA".to_string());
    assert_eq!(
        select_match(&c, options(), &t, "bob", None, false).unwrap_err(),
        TournamentError::Deck(DeckError::NotUpdateDeck)
    );
    t.participants[1].participant.deckbuf = Some("AQAAAAEAAAB7AAAAyAEAAA==".to_string());
    let a = select_match(&c, options(), &t, "bob", None, false).unwrap().unwrap();
    let deck = a.deck.unwrap();
    assert_eq!(deck.main, vec![123]);
    assert_eq!(deck.side, vec![456]);
}

fn history(winner: Option<u8>) -> HistoryRecord {
    HistoryRecord {
        player_a: "alice".into(),
        player_b: "bob".into(),
        deck_a: String::new(),
        deck_b: String::new(),
        player_c: None,
        player_d: None,
        deck_c: None,
        deck_d: None,
        winner_id: winner,
        room_id: "M#11".into(),
        first_attack_slot: 0,
        replay_start: 0,
    }
}

#[test]
fn finished_match_scores_the_duels() {
    let a = select_match(&config(), options(), &bracket(), "bob", None, false).unwrap().unwrap();
    let mut room = a.create_room();
    assert!(room.score.is_none());
    room.finish(&vec![Some(0), Some(1), Some(1)], false);
    let score = room.score.clone().unwrap();
    assert_eq!(score.scores_csv, "1-2");
    assert!(matches!(score.winner_id, Winner::Player(2)));
    let (id, reported) = room.report(&Vec::new()).unwrap();
    assert_eq!(id, 11);
    assert_eq!(reported.scores_csv, "1-2");
}

#[test]
fn even_match_is_a_tie_and_match_kill_decides() {
    let a = select_match(&config(), options(), &bracket(), "bob", None, false).unwrap().unwrap();
    let mut room = a.create_room();
    room.finish(&vec![Some(0), Some(1)], false);
    assert!(matches!(&room.score.as_ref().unwrap().winner_id, Winner::Tie(t) if t == "tie"));
    let mut room = a.create_room();
    room.finish(&vec![Some(0)], true);
    let score = room.score.unwrap();
    assert_eq!(score.scores_csv, "2-0");
    assert!(matches!(score.winner_id, Winner::Player(1)));
}

#[test]
fn leaving_mid_match_forfeits() {
    let a = select_match(&config(), options(), &bracket(), "bob", None, false).unwrap().unwrap();
    let mut room = a.create_room();
    room.leave(DuelStage::Begin, 0, true);
    assert!(room.forfeit.is_none());
    room.leave(DuelStage::Dueling, 0, false);
    assert!(room.forfeit.is_none());
    room.leave(DuelStage::Siding, 0, true);
    assert_eq!(room.forfeit, Some(1));
    assert!(room.ends_on_leave(DuelStage::Siding));
    assert!(!room.ends_on_leave(DuelStage::Dueling));
    room.leave(DuelStage::Dueling, 1, true);
    assert_eq!(room.forfeit, Some(1));
    let (_, score) = room.report(&vec![history(Some(0))]).unwrap();
    assert_eq!(score.scores_csv, "1-2");
    assert!(matches!(score.winner_id, Winner::Player(2)));
    room.finish(&Vec::new(), false);
    assert_eq!(room.score.unwrap().scores_csv, "0-2");
}

#[test]
fn nothing_is_reported_without_post_score_or_result() {
    let mut c = config();
    c.post_score = false;
    let a = select_match(&c, options(), &bracket(), "bob", None, false).unwrap().unwrap();
    let mut room = a.create_room();
    room.finish(&vec![Some(0)], false);
    assert!(room.report(&Vec::new()).is_none());
    let a = select_match(&config(), options(), &bracket(), "bob", None, false).unwrap().unwrap();
    let room = a.create_room();
    assert!(room.report(&Vec::new()).is_none());
}

#[test]
fn registered_deck_is_required_while_waiting() {
    let mut c = config();
    c.check_deck = true;
    let mut t = bracket();
    t.participants[1].participant.deckbuf = Some("AQAAAAEAAAB7AAAAyAEAAA==".to_string());
    let a = select_match(&c, options(), &t, "bob", None, false).unwrap().unwrap();
    let mut room = a.create_room();
    room.decks[1] = a.deck.clone();
    let good = Deck { main: vec![123], extra: vec![], side: vec![456] };
    let bad = Deck { main: vec![124], extra: vec![], side: vec![456] };
    assert!(room.deck_accepted(DuelStage::Begin, 1, Some(&good)));
    assert!(!room.deck_accepted(DuelStage::Begin, 1, Some(&bad)));
    assert!(!room.deck_accepted(DuelStage::Begin, 1, None));
    assert!(!room.deck_accepted(DuelStage::Begin, 0, Some(&good)));
    assert!(room.deck_accepted(DuelStage::Siding, 1, Some(&bad)));
}

fn player(connected: bool) -> PlayerRecord {
    PlayerRecord {
        name: "bob".to_string(),
        is_bot: false,
        position: Netplayer::Player(1),
        is_host: false,
        connected,
        protocol: Protocol::Tcp,
        deck: None,
        reconnect_deck: None,
    }
}

#[test]
fn existing_room_admission() {
    let a = select_match(&config(), options(), &bracket(), "bob", None, false).unwrap().unwrap();
    let mut record = RoomRecord::new("M#11".to_string());
    assert_eq!(a.check_room(&record, &Vec::new()), Err(TournamentError::RoomTaken));
    let mut room = a.create_room();
    record.tournament = Some(a.create_room());
    assert_eq!(a.check_room(&record, &Vec::new()), Ok(()));
    room.seats[1] = Some(40);
    record.tournament = Some(room);
    assert_eq!(a.check_room(&record, &vec![40]), Err(TournamentError::AlreadyJoined));
    assert_eq!(a.check_room(&record, &Vec::new()), Ok(()));
    record.insert_player(40, player(true));
    assert_eq!(a.check_room(&record, &Vec::new()), Err(TournamentError::AlreadyJoined));
    record.stage = DuelStage::Dueling;
    assert_eq!(a.check_room(&record, &Vec::new()), Err(TournamentError::MatchStarted));
    let mut other = config();
    other.bo = 5;
    let mut changed = a.create_room();
    changed.config = other;
    record.tournament = Some(changed);
    assert_eq!(a.check_room(&record, &Vec::new()), Err(TournamentError::BracketChanged));
}

#[test]
fn tournament_rooms_keep_seating_messages() {
    assert!(blocked_input(&ClientMessage::HsStart));
    assert!(blocked_input(&ClientMessage::JoinGame { version: 1, pass: String::new() }));
    assert!(!blocked_input(&ClientMessage::HsReady));
    assert!(!blocked_input(&ClientMessage::Chat { msg: "hi".to_string() }));
}
