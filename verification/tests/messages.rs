use srvpro3::duel::{DuelStage, Netplayer};
use srvpro3::messages::{
    reloaded_lines, toml_nesting_checked,
    DialogueError, DialogueFormat, Dialogues, TipSchedule, chat_lines, clean_lines, dialogue, find_cached, format_for,
    from_json, from_toml, from_wrapped, membership, merge, parse_dialogues, resource_fits, same_sources, tip, tip_recipients, tips_reply,
};
use srvpro3::room::{PlayerRecord, RoomRecord};
use srvpro3::transport::Protocol;

fn strings(lines: &[&str]) -> Vec<String> {
    lines.iter().map(|s| s.to_string()).collect()
}

fn person(name: &str, position: Netplayer) -> PlayerRecord {
    PlayerRecord {
        name: name.to_string(),
        is_bot: false,
        position,
        is_host: false,
        connected: true,
        protocol: Protocol::Tcp,
        deck: None,
        reconnect_deck: None,
    }
}

#[test]
fn chat_lines_split_text_and_long_lines() {
    assert_eq!(chat_lines("a\r\nb\n\n  \nc"), strings(&["a", "b", "c"]));
    let long = "x".repeat(241);
    let lines = chat_lines(&long);
    assert_eq!(lines.len(), 2);
    assert_eq!(lines[0].chars().count(), 240);
    assert_eq!(lines[1], "x");
    // a character outside the basic plane counts two units.
    let wide = format!("{}{}", "x".repeat(239), "😀");
    let lines = chat_lines(&wide);
    assert_eq!(lines.len(), 2);
    assert_eq!(lines[1], "😀");
}

#[test]
fn chat_lines_are_capped() {
    let text = (0..20).map(|i| format!("line{}", i)).collect::<Vec<_>>().join("\n");
    let lines = chat_lines(&text);
    assert_eq!(lines.len(), 16);
    assert_eq!(lines[15], "line15");
    assert!(chat_lines("").is_empty());
}

#[test]
fn membership_notices() {
    let mut r = RoomRecord::new("r".to_string());
    r.insert_player(1, person("al\u{7}ice", Netplayer::Player(0)));
    r.insert_player(2, person("bob", Netplayer::Observer(0)));
    r.insert_player(3, person("new", Netplayer::Undecided(0)));
    let n = membership(&r, 1, true).unwrap();
    assert_eq!(n.lines, strings(&["玩家「alice」加入了房间。"]));
    assert_eq!(n.recipients, vec![2]);
    let n = membership(&r, 2, false).unwrap();
    assert_eq!(n.lines, strings(&["观战者「bob」离开了房间。"]));
    assert_eq!(n.recipients, vec![1]);
    assert!(membership(&r, 3, true).is_none());
    assert!(membership(&r, 9, true).is_none());
}

#[test]
fn tips() {
    let list = strings(&["one", "two"]);
    let t = tip("tips.json", "[Tip] ", &list).unwrap();
    assert!(t == "[Tip] one" || t == "[Tip] two");
    assert!(tip("  ", "", &list).is_none());
    assert!(tip("tips.json", "", &Vec::new()).is_none());
    assert_eq!(tips_reply("", "", &list), "提示功能未启用。");
    assert_eq!(tips_reply("tips.json", "", &Vec::new()), "暂无可用提示。");
    let only = strings(&["only"]);
    assert_eq!(tips_reply("tips.json", "> ", &only), "> only");
}

#[test]
fn tip_schedule_waits_an_interval() {
    let mut s = TipSchedule::new(1000);
    assert!(!s.tick(true, 30, 20000));
    assert_eq!(s.last, 1000);
    assert!(s.tick(true, 30, 31000));
    assert_eq!(s.last, 31000);
    assert!(!s.tick(true, 30, 40000));
    assert!(!s.tick(false, 30, 90000));
    assert_eq!(s.last, 90000);
    assert!(!s.tick(true, 30, 10));
}

#[test]
fn tip_recipients_skip_finished_rooms() {
    let mut r = RoomRecord::new("r".to_string());
    r.insert_player(1, person("a", Netplayer::Player(0)));
    r.insert_player(2, person("b", Netplayer::Undecided(0)));
    assert_eq!(tip_recipients(&r), vec![1]);
    r.stage = DuelStage::End;
    assert!(tip_recipients(&r).is_empty());
}

#[test]
fn summon_lines_from_toml() {
    let entries = vec![
        ("12".to_string(), strings(&["go!", "  "])),
        ("007".to_string(), strings(&["seven"])),
    ];
    let d = from_toml(&entries).unwrap();
    assert_eq!(d.get(12).unwrap(), strings(&["go!"]));
    assert_eq!(d.get(7).unwrap(), strings(&["seven"]));
    assert!(d.get(8).is_none());
    let mut codes = d.codes();
    codes.sort();
    assert_eq!(codes, vec![7, 12]);
    assert!(matches!(from_toml(&vec![("x1".to_string(), Vec::new())]), Err(DialogueError::BadKey(k)) if k == "x1"));
    assert!(matches!(from_toml(&vec![("".to_string(), Vec::new())]), Err(DialogueError::BadKey(_))));
    assert!(matches!(
        from_toml(&vec![("4294967296".to_string(), Vec::new())]),
        Err(DialogueError::TooLarge(k)) if k == "4294967296"
    ));
    assert!(matches!(
        from_toml(&vec![("1".to_string(), Vec::new()), ("01".to_string(), Vec::new())]),
        Err(DialogueError::Duplicate(1))
    ));
}

#[test]
fn summon_lines_from_json_layouts() {
    let d = from_json(&vec![(5, strings(&["a", ""])), (5, strings(&["b"]))]);
    assert_eq!(d.get(5).unwrap(), strings(&["b"]));
    let w = from_wrapped(&vec![(1, strings(&["main"])), (2, strings(&[" "]))], &vec![(1, strings(&["custom"])), (2, strings(&["kept"]))]);
    assert_eq!(w.get(1).unwrap(), strings(&["main"]));
    assert_eq!(w.get(2).unwrap(), strings(&["kept"]));
}

#[test]
fn merged_files_gather_lines_once() {
    let a = from_json(&vec![(1, strings(&["x", "y"]))]);
    let b = from_json(&vec![(1, strings(&["y", "z"])), (2, strings(&["w"]))]);
    let m = merge(&vec![a, b]);
    assert_eq!(m.get(1).unwrap(), strings(&["x", "y", "z"]));
    assert_eq!(m.get(2).unwrap(), strings(&["w"]));
    assert!(merge(&Vec::new()).get(1).is_none());
}

#[test]
fn summon_line_is_one_of_the_card_lines() {
    let mut d = Dialogues::new();
    d.set(3, strings(&["p", "q"]));
    d.set(4, Vec::new());
    let line = dialogue(true, &d, 3).unwrap();
    assert!(line == "p" || line == "q");
    assert!(dialogue(false, &d, 3).is_none());
    assert!(dialogue(true, &d, 4).is_none());
    assert!(dialogue(true, &d, 5).is_none());
    assert_eq!(clean_lines(&strings(&["a", " \t", "b"])), strings(&["a", "b"]));
}

#[test]
fn resource_formats_and_cache() {
    assert_eq!(format_for("JSON"), Some(DialogueFormat::Json));
    assert_eq!(format_for("toml"), Some(DialogueFormat::Toml));
    assert_eq!(format_for("yaml"), None);
    assert!(resource_fits(16 * 1024 * 1024));
    assert!(!resource_fits(16 * 1024 * 1024 + 1));
    let cache = vec![(DialogueFormat::Json, vec![1u8]), (DialogueFormat::Toml, vec![1u8])];
    assert_eq!(find_cached(&cache, DialogueFormat::Toml, &vec![1]), Some(1));
    assert_eq!(find_cached(&cache, DialogueFormat::Toml, &vec![2]), None);
    assert!(same_sources(&cache, &cache.clone()));
    assert!(!same_sources(&cache, &cache[..1].to_vec()));
}

#[test]
fn summon_line_files_are_parsed() {
    let toml = "\u{feff}12 = [\"go!\", \" \"]\n7 = [\"seven\"]\n";
    let d = parse_dialogues(toml.as_bytes(), DialogueFormat::Toml).unwrap();
    assert_eq!(d.get(12).unwrap(), strings(&["go!"]));
    assert_eq!(d.get(7).unwrap(), strings(&["seven"]));
    assert!(matches!(parse_dialogues(b"x1 = []", DialogueFormat::Toml), Err(DialogueError::BadKey(k)) if k == "x1"));
    assert!(matches!(parse_dialogues(b"= broken", DialogueFormat::Toml), Err(DialogueError::Unreadable)));
    assert!(matches!(parse_dialogues(&[0xff, 0xfe], DialogueFormat::Json), Err(DialogueError::NotText)));
    let plain = parse_dialogues(br#"{"5": ["a", ""]}"#, DialogueFormat::Json).unwrap();
    assert_eq!(plain.get(5).unwrap(), strings(&["a"]));
    let wrapped = parse_dialogues(
        br#"{"dialogues": {"1": ["main"], "2": [" "]}, "dialogues_custom": {"1": ["custom"], "2": ["kept"]}}"#,
        DialogueFormat::Json,
    )
    .unwrap();
    assert_eq!(wrapped.get(1).unwrap(), strings(&["main"]));
    assert_eq!(wrapped.get(2).unwrap(), strings(&["kept"]));
    let custom_only = parse_dialogues(br#"{"dialogues_custom": {"3": ["c"]}}"#, DialogueFormat::Json).unwrap();
    assert_eq!(custom_only.get(3).unwrap(), strings(&["c"]));
    assert!(matches!(parse_dialogues(br#"{"dialogues": 5}"#, DialogueFormat::Json), Err(DialogueError::Unreadable)));
    assert!(matches!(parse_dialogues(b"[1, 2", DialogueFormat::Json), Err(DialogueError::Unreadable)));
}

#[test]
fn deep_toml_is_refused_before_reading() {
    let deep = format!("1 = {}{}", "[".repeat(100_000), "]".repeat(100_000));
    assert!(!toml_nesting_checked(&deep));
    assert!(matches!(parse_dialogues(deep.as_bytes(), DialogueFormat::Toml), Err(DialogueError::TooDeep)));
    let dotted = format!("{} = 1", vec!["a"; 200].join("."));
    assert!(matches!(parse_dialogues(dotted.as_bytes(), DialogueFormat::Toml), Err(DialogueError::TooDeep)));
    let quoted = format!("1 = [\"{}\", '{}', \"\"\"{}\"\"\"\"]\n# {}\n2 = [\"b\"]\n", "[".repeat(500), "{".repeat(500), "[".repeat(500), "[".repeat(500));
    assert!(toml_nesting_checked(&quoted));
    let d = parse_dialogues(quoted.as_bytes(), DialogueFormat::Toml).unwrap();
    assert_eq!(d.get(2).unwrap(), strings(&["b"]));
    assert!(toml_nesting_checked("[a]\nx = [[1], [2, [3]]]"));
}

#[test]
fn reload_keeps_lines_unless_files_changed() {
    let file = (DialogueFormat::Toml, b"1 = [\"a\"]".to_vec());
    let lines = parse_dialogues(&file.1, DialogueFormat::Toml).unwrap();
    let previous = vec![file.clone()];
    assert!(reloaded_lines(&previous, &None).is_none());
    assert!(reloaded_lines(&previous, &Some((vec![file.clone()], vec![lines.duplicate()]))).is_none());
    let changed = (DialogueFormat::Toml, b"1 = [\"b\"]".to_vec());
    let new_lines = parse_dialogues(&changed.1, DialogueFormat::Toml).unwrap();
    let merged = reloaded_lines(&previous, &Some((vec![changed], vec![new_lines]))).unwrap();
    assert_eq!(merged.get(1).unwrap(), strings(&["b"]));
}
