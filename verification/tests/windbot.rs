use srvpro3::windbot::{
    Bot, BotInfo, Platform, WindbotError, check_response, encode, join_path, library_path, parse_bot_list, random, random_from, request,
    select,
};

fn bot() -> Bot {
    Bot {
        name: "Joey".to_string(),
        deck: "Toon".to_string(),
        host: "127.0.0.1".to_string(),
        port: 7911,
        password: "~ai0000000000000001".to_string(),
        dialog: None,
        version: None,
        hand: None,
        debug: false,
        chat: true,
    }
}

fn info(name: &str, ai: &str) -> BotInfo {
    BotInfo { name: name.to_string(), ai_name: ai.to_string(), dialog: "default".to_string() }
}

#[test]
fn query_values_are_percent_encoded() {
    assert_eq!(encode("a b&c"), "a%20b%26c");
    assert_eq!(encode("A-z_0.~"), "A-z_0.~");
    assert_eq!(encode("é"), "%C3%A9");
    assert_eq!(encode(""), "");
}

#[test]
fn bot_request_text() {
    let (address, text) = request(&bot(), "windbot", 2399).unwrap();
    assert_eq!(address, "127.0.0.1:2399");
    assert_eq!(
        text,
        "GET /?name=Joey&deck=Toon&host=127.0.0.1&port=7911&password=~ai0000000000000001&debug=false&chat=true HTTP/1.1\r\nHost: 127.0.0.1:2399\r\nConnection: close\r\n\r\n"
    );
    let mut b = bot();
    b.dialog = Some("zh CN".to_string());
    b.version = Some(4960);
    b.hand = Some(2);
    let (_, text) = request(&b, "windbot", 2399).unwrap();
    assert!(text.starts_with("GET /?name=Joey&deck=Toon&host=127.0.0.1&port=7911&password=~ai0000000000000001&debug=false&chat=true&dialog=zh%20CN&version=4960&hand=2 HTTP/1.1\r\n"));
}

#[test]
fn bot_request_errors() {
    assert!(matches!(request(&bot(), "  ", 2399), Err(WindbotError::Disabled)));
    assert!(matches!(request(&bot(), "windbot", 0), Err(WindbotError::Disabled)));
    let mut b = bot();
    b.name = String::new();
    assert!(matches!(request(&b, "windbot", 2399), Err(WindbotError::EmptyName)));
    let mut b = bot();
    b.host = String::new();
    assert!(matches!(request(&b, "windbot", 2399), Err(WindbotError::EmptyHost)));
    let mut b = bot();
    b.port = 0;
    assert!(matches!(request(&b, "windbot", 2399), Err(WindbotError::ZeroPort)));
}

#[test]
fn service_responses() {
    assert!(check_response(b"HTTP/1.1 200 OK\r\n\r\n").is_ok());
    assert!(check_response(b"HTTP/1.0 200 OK").is_ok());
    assert!(matches!(check_response(b""), Err(WindbotError::Rejected(l)) if l == "无响应"));
    assert!(matches!(
        check_response(b"HTTP/1.1 404 Not Found\r\nServer: x\r\n"),
        Err(WindbotError::Rejected(l)) if l == "HTTP/1.1 404 Not Found"
    ));
    assert!(matches!(check_response(b"busy"), Err(WindbotError::Rejected(l)) if l == "busy"));
}

#[test]
fn random_bot_is_never_lucky() {
    let bots = vec![info("Lucky", "Lucky"), info("Joey", "Joey")];
    for _ in 0..20 {
        assert_eq!(random(bots.clone()).unwrap().name, "Joey");
    }
    assert!(matches!(random(vec![info("Lucky", "Lucky")]), Err(WindbotError::NoRandomBot)));
    assert!(matches!(random(Vec::new()), Err(WindbotError::NoRandomBot)));
    let one = random_from(vec![info("a", "A"), info("b", "B")]);
    assert!(one.name == "a" || one.name == "b");
}

#[test]
fn bots_are_selected_by_name() {
    let bots = vec![info("Yugi - Dark Magician", "DarkMagician"), info("Kaiba", "BlueEyes"), info("Lucky", "Lucky")];
    assert_eq!(select(" Kaiba ", bots.clone()).unwrap().name, "Kaiba");
    assert_eq!(select("blueeyes", bots.clone()).unwrap().name, "Kaiba");
    assert_eq!(select("Dark Magician", bots.clone()).unwrap().ai_name, "DarkMagician");
    assert_eq!(select("Lucky", bots.clone()).unwrap().name, "Lucky");
    assert!(matches!(select(" Nobody ", bots.clone()), Err(WindbotError::NotFound(n)) if n == "Nobody"));
    assert_ne!(select("", bots).unwrap().name, "Lucky");
}

#[test]
fn library_paths() {
    assert_eq!(library_path("bots", Platform::Linux), "bots/WindBot.so");
    assert_eq!(library_path("bots/", Platform::MacOs), "bots/WindBot.dylib");
    assert_eq!(library_path("C:\\bots", Platform::Windows), "C:\\bots\\WindBot.dll");
    assert_eq!(library_path("", Platform::Linux), "WindBot.so");
    assert_eq!(join_path("a\\", "f", Platform::Linux), "a\\/f");
}

#[test]
fn bot_list_is_read() {
    let bots = parse_bot_list(r#"[["Joey", "Toon", "default"], ["Kaiba", "BlueEyes", "kaiba"]]"#).unwrap();
    assert_eq!(bots.len(), 2);
    assert_eq!((bots[1].name.as_str(), bots[1].ai_name.as_str(), bots[1].dialog.as_str()), ("Kaiba", "BlueEyes", "kaiba"));
    assert!(matches!(parse_bot_list(r#"[["Joey", "Toon"]]"#), Err(WindbotError::BadList)));
    assert!(matches!(parse_bot_list("nope"), Err(WindbotError::BadList)));
}

fn percent_decode(text: &str) -> Vec<u8> {
    let b = text.as_bytes();
    let mut out = Vec::new();
    let mut i = 0;
    while i < b.len() {
        if b[i] == b'%' && i + 2 < b.len() {
            let v = u8::from_str_radix(&text[i + 1..i + 3], 16).unwrap();
            out.push(v);
            i += 3;
        } else {
            out.push(b[i]);
            i += 1;
        }
    }
    out
}

#[test]
fn encoded_values_decode_back() {
    for s in ["a b&c", "A-z_0.~", "é", "", "~ai#%/?=+", "对战 1"] {
        let e = encode(s);
        let expected_len: usize = s
            .bytes()
            .map(|b| if b.is_ascii_alphanumeric() || b"-_.~".contains(&b) { 1 } else { 3 })
            .sum();
        assert_eq!(e.len(), expected_len);
        assert_eq!(percent_decode(&e), s.as_bytes().to_vec());
    }
}

#[test]
fn refusals_of_text_that_is_not_utf8() {
    let response = b"\xff\xfeBusy\r\nmore".to_vec();
    match check_response(&response) {
        Err(WindbotError::Rejected(line)) => assert_eq!(line, "\u{fffd}\u{fffd}Busy"),
        other => panic!("unexpected {other:?}"),
    }
}
