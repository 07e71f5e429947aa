use vstd::prelude::*;
use vstd::string::StringSliceAdditionalSpecFns;
use crate::messages::random_below;
use crate::text::{
    blank, chars_of, decimal, is_blank, push_chars, push_decimal, split_by2, split_chars, string_of,
    trim, trimmed, views,
};

verus! {

// ---------------------------------------------------------------------------
// WindBot: the AI players the server asks its local WindBot service to send.
// ---------------------------------------------------------------------------

/// A request for a bot to join a room.
#[derive(Clone, Debug)]
pub struct Bot {
    pub name: String,
    pub deck: String,
    pub host: String,
    pub port: u16,
    pub password: String,
    pub dialog: Option<String>,
    pub version: Option<u16>,
    pub hand: Option<u8>,
    pub debug: bool,
    pub chat: bool,
}

/// A bot the WindBot library offers.
#[derive(Clone, Debug)]
pub struct BotInfo {
    pub name: String,
    pub ai_name: String,
    pub dialog: String,
}

/// Why a bot could not be asked for.
#[derive(Clone, Debug)]
pub enum WindbotError {
    /// No WindBot path or port is configured.
    Disabled,
    /// The bot has no name.
    EmptyName,
    /// The bot has no room address.
    EmptyHost,
    /// The bot's room port is 0.
    ZeroPort,
    /// No bot other than `Lucky` is offered.
    NoRandomBot,
    /// No bot matches the requested name.
    NotFound(String),
    /// The WindBot service refused; its first response line.
    Rejected(String),
    /// The bot list the WindBot library gave is not a JSON list of name, AI name and
    /// dialog triples.
    BadList,
}

// ---------------------------------------------------------------------------
// Percent-encoding of query values
// ---------------------------------------------------------------------------

/// Bytes that stand for themselves in a query value: ASCII letters, digits and `-_.~`.
pub open spec fn unreserved(b: u8) -> bool {
    (0x30 <= b <= 0x39) || (0x41 <= b <= 0x5a) || (0x61 <= b <= 0x7a) || b == 0x2d || b == 0x5f || b == 0x2e
        || b == 0x7e
}

/// An upper-case hexadecimal digit.
pub open spec fn hex_digit(d: int) -> char {
    if d < 10 { ((0x30 + d) as u32) as char } else { ((0x41 + d - 10) as u32) as char }
}

/// The query-value form of bytes: unreserved bytes as they are, others as `%XX`.
pub open spec fn spec_encode(bytes: Seq<u8>) -> Seq<char>
    decreases bytes.len(),
{
    if bytes.len() == 0 {
        Seq::empty()
    } else {
        spec_encode(bytes.drop_last()) + encode_byte(bytes.last())
    }
}

/// The query-value form of one byte: the byte itself where it is unreserved, else `%XX`.
pub open spec fn encode_byte(b: u8) -> Seq<char> {
    if unreserved(b) {
        seq![(b as u32) as char]
    } else {
        seq!['%', hex_digit((b / 16) as int), hex_digit((b % 16) as int)]
    }
}

/// The value of a hexadecimal digit of either case, or -1 for any other character.
pub open spec fn hex_value(c: char) -> int {
    let v = c as u32;
    if 0x30 <= v <= 0x39 {
        v - 0x30
    } else if 0x41 <= v <= 0x46 {
        v - 0x41 + 10
    } else if 0x61 <= v <= 0x66 {
        v - 0x61 + 10
    } else {
        -1
    }
}

/// Percent-decoding, read from the front: `%` and two hexadecimal digits stand for the byte
/// they spell, any other character for its own code.
pub open spec fn percent_decode(text: Seq<char>) -> Seq<u8>
    decreases text.len(),
{
    if text.len() == 0 {
        Seq::empty()
    } else if text[0] == '%' && text.len() >= 3 && hex_value(text[1]) >= 0 && hex_value(text[2]) >= 0 {
        seq![(hex_value(text[1]) * 16 + hex_value(text[2])) as u8] + percent_decode(text.skip(3))
    } else {
        seq![(text[0] as u32) as u8] + percent_decode(text.skip(1))
    }
}

/// The length of the query-value form: one character for each unreserved byte, three for
/// every other byte.
pub open spec fn encoded_len(bytes: Seq<u8>) -> nat
    decreases bytes.len(),
{
    if bytes.len() == 0 {
        0
    } else {
        encoded_len(bytes.drop_last()) + if unreserved(bytes.last()) { 1nat } else { 3nat }
    }
}

/// The encoded value is one or three characters per byte.
pub proof fn lemma_encode_len(bytes: Seq<u8>)
    ensures
        spec_encode(bytes).len() == encoded_len(bytes),
    decreases bytes.len(),
{
    if bytes.len() > 0 {
        lemma_encode_len(bytes.drop_last());
    }
}

/// The encoding of two byte strings one after the other is the encoding of each, in turn.
proof fn lemma_encode_concat(a: Seq<u8>, b: Seq<u8>)
    ensures
        spec_encode(a + b) == spec_encode(a) + spec_encode(b),
    decreases b.len(),
{
    if b.len() == 0 {
        assert(a + b =~= a);
        assert(spec_encode(a) + spec_encode(b) =~= spec_encode(a));
    } else {
        assert((a + b).drop_last() =~= a + b.drop_last());
        assert((a + b).last() == b.last());
        lemma_encode_concat(a, b.drop_last());
        assert(spec_encode(a) + spec_encode(b.drop_last()) + encode_byte(b.last()) =~= spec_encode(a) + (
        spec_encode(b.drop_last()) + encode_byte(b.last())));
    }
}

/// An upper-case hexadecimal digit reads back as its value.
proof fn lemma_hex_value(d: int)
    requires
        0 <= d < 16,
    ensures
        hex_value(hex_digit(d)) == d,
{
}

/// Percent-decoding the encoded value gives back exactly the bytes that were encoded.
pub proof fn lemma_encode_decodes(bytes: Seq<u8>)
    ensures
        percent_decode(spec_encode(bytes)) == bytes,
    decreases bytes.len(),
{
    if bytes.len() > 0 {
        let b = bytes[0];
        let rest = bytes.skip(1);
        assert(bytes =~= seq![b] + rest);
        lemma_encode_concat(seq![b], rest);
        assert(seq![b].drop_last() =~= Seq::<u8>::empty());
        assert(spec_encode(seq![b]) == spec_encode(Seq::<u8>::empty()) + encode_byte(b));
        assert(spec_encode(Seq::<u8>::empty()) + encode_byte(b) =~= encode_byte(b));
        lemma_encode_decodes(rest);
        let unit = encode_byte(b);
        let text = unit + spec_encode(rest);
        if unreserved(b) {
            assert(text[0] == (b as u32) as char);
            assert(text.skip(1) =~= spec_encode(rest));
            assert(((((b as u32) as char) as u32) as u8) == b);
        } else {
            lemma_hex_value((b / 16) as int);
            lemma_hex_value((b % 16) as int);
            assert(text[0] == '%');
            assert(text[1] == hex_digit((b / 16) as int));
            assert(text[2] == hex_digit((b % 16) as int));
            assert(text.skip(3) =~= spec_encode(rest));
            assert(((b / 16) as int) * 16 + ((b % 16) as int) == b);
        }
        assert(percent_decode(text) =~= seq![b] + rest);
    }
}

/// A character that may stand in a query value as it is: an ASCII letter or digit, one of
/// `-_.~`, or `%`.
pub open spec fn query_safe(c: char) -> bool {
    ('0' <= c <= '9') || ('A' <= c <= 'Z') || ('a' <= c <= 'z') || c == '-' || c == '_' || c == '.' || c == '~' || c == '%'
}

/// An encoded value holds nothing but query-safe characters, whatever the text: a value
/// cannot end the query parameter or start another.
pub proof fn lemma_encode_safe(bytes: Seq<u8>)
    ensures
        forall|i: int| 0 <= i < spec_encode(bytes).len() ==> query_safe(#[trigger] spec_encode(bytes)[i]),
    decreases bytes.len(),
{
    if bytes.len() > 0 {
        lemma_encode_safe(bytes.drop_last());
        let prev = spec_encode(bytes.drop_last());
        let b = bytes.last();
        let tail: Seq<char> = if unreserved(b) {
            seq![(b as u32) as char]
        } else {
            seq!['%', hex_digit((b / 16) as int), hex_digit((b % 16) as int)]
        };
        assert(spec_encode(bytes) == prev + tail);
        assert forall|i: int| 0 <= i < (prev + tail).len() implies query_safe(#[trigger] (prev + tail)[i]) by {
            if i < prev.len() {
                assert((prev + tail)[i] == prev[i]);
            } else {
                assert((prev + tail)[i] == tail[i - prev.len()]);
            }
        }
    }
}

fn hex(d: u8) -> (c: char)
    requires
        d < 16,
    ensures
        c == hex_digit(d as int),
{
    if d < 10 {
        ((0x30u8 + d) as char)
    } else {
        ((0x41u8 + d - 10) as char)
    }
}

/// Percent-encodes a query value: the UTF-8 bytes of `value`, each unreserved byte as it
/// is and every other byte as `%` and two upper-case hexadecimal digits.
pub fn encode(value: &str) -> (res: String)
    ensures
        res@ == spec_encode(value.spec_bytes()),
{
    let bytes = value.as_bytes();
    let mut out: Vec<char> = Vec::new();
    let mut i: usize = 0;
    while i < bytes.len()
        invariant
            i <= bytes@.len(),
            bytes@ == value.spec_bytes(),
            out@ == spec_encode(bytes@.take(i as int)),
        decreases bytes@.len() - i,
    {
        assert(bytes@.take(i + 1).drop_last() =~= bytes@.take(i as int));
        let b = bytes[i];
        let ghost before = out@;
        if (b >= 0x30 && b <= 0x39) || (b >= 0x41 && b <= 0x5a) || (b >= 0x61 && b <= 0x7a) || b == 0x2d || b == 0x5f
            || b == 0x2e || b == 0x7e {
            out.push(b as char);
            assert(out@ =~= before + seq![(b as u32) as char]);
        } else {
            out.push('%');
            out.push(hex(b / 16));
            out.push(hex(b % 16));
            assert(out@ =~= before + seq!['%', hex_digit((b / 16) as int), hex_digit((b % 16) as int)]);
        }
        i = i + 1;
    }
    assert(bytes@.take(bytes@.len() as int) =~= bytes@);
    string_of(&out)
}

// ---------------------------------------------------------------------------
// The request to the WindBot service
// ---------------------------------------------------------------------------

/// `true` or `false`.
pub open spec fn bool_text(b: bool) -> Seq<char> {
    if b { seq!['t', 'r', 'u', 'e'] } else { seq!['f', 'a', 'l', 's', 'e'] }
}

/// The characters of `s`.
pub open spec fn chars(s: &str) -> Seq<char> {
    s@
}

/// `key=value` with the value percent-encoded.
pub open spec fn pair(key: Seq<char>, value: Seq<char>) -> Seq<char> {
    key + seq!['='] + spec_encode(vstd::utf8::encode_utf8(value))
}

/// The fixed part of a bot request's query: name, deck, host, port, password, debug and
/// chat.
pub open spec fn base_query(bot: Bot) -> Seq<char> {
    pair(seq!['n', 'a', 'm', 'e'], bot.name@) + seq!['&'] + pair(seq!['d', 'e', 'c', 'k'], bot.deck@) + seq!['&']
        + pair(seq!['h', 'o', 's', 't'], bot.host@) + seq!['&'] + pair(seq!['p', 'o', 'r', 't'], decimal(bot.port as nat))
        + seq!['&'] + pair(seq!['p', 'a', 's', 's', 'w', 'o', 'r', 'd'], bot.password@) + seq!['&'] + pair(
        seq!['d', 'e', 'b', 'u', 'g'],
        bool_text(bot.debug),
    ) + seq!['&'] + pair(seq!['c', 'h', 'a', 't'], bool_text(bot.chat))
}

/// The optional part of a bot request's query: the dialog, version and hand where the
/// request has them, each after `&`.
pub open spec fn extra_query(bot: Bot) -> Seq<char> {
    let dialog = match bot.dialog {
        Some(d) => seq!['&'] + pair(seq!['d', 'i', 'a', 'l', 'o', 'g'], d@),
        None => Seq::empty(),
    };
    let version = match bot.version {
        Some(v) => seq!['&'] + pair(seq!['v', 'e', 'r', 's', 'i', 'o', 'n'], decimal(v as nat)),
        None => Seq::empty(),
    };
    let hand = match bot.hand {
        Some(h) => seq!['&'] + pair(seq!['h', 'a', 'n', 'd'], decimal(h as nat)),
        None => Seq::empty(),
    };
    dialog + version + hand
}

/// The query of a bot request: the fixed part, then the optional part.
pub open spec fn query(bot: Bot) -> Seq<char> {
    base_query(bot) + extra_query(bot)
}

/// `127.0.0.1:<port>`, the address of the local WindBot service.
pub open spec fn service_address(port: u16) -> Seq<char> {
    seq!['1', '2', '7', '.', '0', '.', '0', '.', '1', ':'] + decimal(port as nat)
}

/// The HTTP request that asks the service at `address` for the bot.
pub open spec fn http_request(bot: Bot, address: Seq<char>) -> Seq<char> {
    request_text(query(bot), address)
}

/// `GET /?<query> HTTP/1.1`, a `Host` header with `address`, and `Connection: close`.
pub open spec fn request_text(query: Seq<char>, address: Seq<char>) -> Seq<char> {
    seq!['G', 'E', 'T', ' ', '/', '?'] + query + seq![' ', 'H', 'T', 'T', 'P', '/', '1', '.', '1', '\r', '\n']
        + seq!['H', 'o', 's', 't', ':', ' '] + address + seq!['\r', '\n'] + seq![
        'C', 'o', 'n', 'n', 'e', 'c', 't', 'i', 'o', 'n', ':', ' ', 'c', 'l', 'o', 's', 'e', '\r', '\n', '\r', '\n',
    ]
}

/// Why a bot request cannot be made, if it cannot: the service is off (no path or no
/// port), or the bot has no name, no room address or a zero room port.
pub open spec fn request_error(bot: Bot, path: Seq<char>, port: u16) -> Option<WindbotError> {
    if is_blank(path) || port == 0 {
        Some(WindbotError::Disabled)
    } else if bot.name@.len() == 0 {
        Some(WindbotError::EmptyName)
    } else if bot.host@.len() == 0 {
        Some(WindbotError::EmptyHost)
    } else if bot.port == 0 {
        Some(WindbotError::ZeroPort)
    } else {
        None
    }
}

fn push_str(out: &mut Vec<char>, s: &str)
    ensures
        final(out)@ == old(out)@ + s@,
{
    let c = chars_of(s);
    let mut i: usize = 0;
    while i < c.len()
        invariant
            i <= c@.len(),
            c@ == s@,
            out@ == old(out)@ + c@.take(i as int),
        decreases c@.len() - i,
    {
        out.push(c[i]);
        i = i + 1;
        assert(out@ =~= old(out)@ + c@.take(i as int));
    }
    assert(c@.take(c@.len() as int) =~= c@);
}

fn push_seq(out: &mut Vec<char>, c: &Vec<char>)
    ensures
        final(out)@ == old(out)@ + c@,
{
    let mut i: usize = 0;
    while i < c.len()
        invariant
            i <= c@.len(),
            out@ == old(out)@ + c@.take(i as int),
        decreases c@.len() - i,
    {
        out.push(c[i]);
        i = i + 1;
        assert(out@ =~= old(out)@ + c@.take(i as int));
    }
    assert(c@.take(c@.len() as int) =~= c@);
}

fn push_pair(out: &mut Vec<char>, key: &str, value: &str)
    ensures
        final(out)@ == old(out)@ + pair(key@, value@),
{
    push_str(out, key);
    out.push('=');
    let e = encode(value);
    push_str(out, e.as_str());
    assert(out@ =~= old(out)@ + pair(key@, value@));
}

fn number_text(n: u64) -> (res: String)
    ensures
        res@ == decimal(n as nat),
{
    let mut s = String::new();
    push_decimal(&mut s, n);
    assert(Seq::<char>::empty() + decimal(n as nat) =~= decimal(n as nat));
    s
}

fn bool_string(b: bool) -> (res: String)
    ensures
        res@ == bool_text(b),
{
    let r = if b { "true" } else { "false" };
    proof {
        reveal_strlit("true");
        reveal_strlit("false");
    }
    let s = r.to_owned();
    assert(s@ =~= bool_text(b));
    s
}

#[verifier::rlimit(40)]
fn push_base(q: &mut Vec<char>, bot: &Bot)
    ensures
        final(q)@ == old(q)@ + base_query(*bot),
{
    proof {
        reveal_strlit("name");
        reveal_strlit("deck");
        reveal_strlit("host");
        reveal_strlit("port");
    }
    push_pair(q, "name", bot.name.as_str());
    q.push('&');
    push_pair(q, "deck", bot.deck.as_str());
    q.push('&');
    push_pair(q, "host", bot.host.as_str());
    q.push('&');
    push_pair(q, "port", number_text(bot.port as u64).as_str());
    let ghost mid = q@;
    proof {
        reveal_strlit("password");
        reveal_strlit("debug");
        reveal_strlit("chat");
    }
    q.push('&');
    push_pair(q, "password", bot.password.as_str());
    q.push('&');
    push_pair(q, "debug", bool_string(bot.debug).as_str());
    q.push('&');
    push_pair(q, "chat", bool_string(bot.chat).as_str());
    assert(q@ =~= old(q)@ + base_query(*bot));
}

fn push_extra(q: &mut Vec<char>, bot: &Bot)
    ensures
        final(q)@ == old(q)@ + extra_query(*bot),
{
    proof {
        reveal_strlit("dialog");
        reveal_strlit("version");
        reveal_strlit("hand");
    }
    let ghost start = q@;
    match &bot.dialog {
        Some(d) => {
            q.push('&');
            push_pair(q, "dialog", d.as_str());
        },
        None => {},
    }
    let ghost after_dialog = q@;
    match bot.version {
        Some(v) => {
            q.push('&');
            push_pair(q, "version", number_text(v as u64).as_str());
        },
        None => {},
    }
    let ghost after_version = q@;
    match bot.hand {
        Some(h) => {
            q.push('&');
            push_pair(q, "hand", number_text(h as u64).as_str());
        },
        None => {},
    }
    assert(q@ =~= start + extra_query(*bot));
}

fn address_text(port: u16) -> (res: Vec<char>)
    ensures
        res@ == service_address(port),
{
    let mut address: Vec<char> = Vec::new();
    push_str(&mut address, "127.0.0.1:");
    push_str(&mut address, number_text(port as u64).as_str());
    proof {
        reveal_strlit("127.0.0.1:");
    }
    assert(address@ =~= service_address(port));
    address
}

fn request_chars(q: &Vec<char>, address: &Vec<char>) -> (res: Vec<char>)
    ensures
        res@ == request_text(q@, address@),
{
    let mut text: Vec<char> = Vec::new();
    push_str(&mut text, "GET /?");
    push_seq(&mut text, q);
    push_str(&mut text, " HTTP/1.1\r\n");
    push_str(&mut text, "Host: ");
    push_seq(&mut text, address);
    push_str(&mut text, "\r\n");
    push_str(&mut text, "Connection: close\r\n\r\n");
    proof {
        reveal_strlit("GET /?");
        reveal_strlit(" HTTP/1.1\r\n");
        reveal_strlit("Host: ");
        reveal_strlit("\r\n");
        reveal_strlit("Connection: close\r\n\r\n");
    }
    assert(text@ =~= request_text(q@, address@));
    text
}

/// The address of the WindBot service and the HTTP request asking it for `bot`, or why no
/// request can be made (see `request_error`). The service listens on the local host at
/// the configured `port`.
pub fn request(bot: &Bot, path: &str, port: u16) -> (res: Result<(String, String), WindbotError>)
    ensures
        match request_error(*bot, path@, port) {
            Some(e) => res matches Err(r) && r == e,
            None => res matches Ok((address, text)) && address@ == service_address(port) && text@ == http_request(
                *bot,
                service_address(port),
            ),
        },
{
    if blank(&chars_of(path)) || port == 0 {
        return Err(WindbotError::Disabled);
    }
    if bot.name.as_str().unicode_len() == 0 {
        return Err(WindbotError::EmptyName);
    }
    if bot.host.as_str().unicode_len() == 0 {
        return Err(WindbotError::EmptyHost);
    }
    if bot.port == 0 {
        return Err(WindbotError::ZeroPort);
    }
    let mut q: Vec<char> = Vec::new();
    push_base(&mut q, bot);
    push_extra(&mut q, bot);
    assert(q@ =~= query(*bot));
    let address = address_text(port);
    let text = request_chars(&q, &address);
    Ok((string_of(&address), string_of(&text)))
}

/// The response starts with `HTTP/1.1 200` or `HTTP/1.0 200`.
pub open spec fn accepted(response: Seq<u8>) -> bool {
    &&& response.len() >= 12
    &&& response[0] == 0x48 && response[1] == 0x54 && response[2] == 0x54 && response[3] == 0x50
    &&& response[4] == 0x2f && response[5] == 0x31 && response[6] == 0x2e
    &&& (response[7] == 0x31 || response[7] == 0x30)
    &&& response[8] == 0x20 && response[9] == 0x32 && response[10] == 0x30 && response[11] == 0x30
}

/// What `String::from_utf8_lossy` makes of bytes: their UTF-8 text, each invalid
/// sequence replaced with U+FFFD.
pub uninterp spec fn lossy_text(bytes: Seq<u8>) -> Seq<char>;

/// Decodes bytes as UTF-8, replacing each invalid sequence with U+FFFD
/// (`String::from_utf8_lossy`). The result is named by `lossy_text`; valid text comes back
/// as it is.
#[verifier::external_body]
fn lossy(bytes: &[u8]) -> (res: String)
    ensures
        res@ == lossy_text(bytes@),
        vstd::utf8::valid_utf8(bytes@) ==> res@ == vstd::utf8::decode_utf8(bytes@),
{
    String::from_utf8_lossy(bytes).into_owned()
}

/// The first line of a text (up to the first `\n`, without a `\r` before it).
pub open spec fn first_line(text: Seq<char>) -> Seq<char> {
    let parts = split_by2(text, '\n', '\n');
    let line = parts[0];
    if parts.len() > 1 && line.len() > 0 && line.last() == '\r' { line.drop_last() } else { line }
}

/// Whether the WindBot service accepted the request: its response starts with
/// `HTTP/1.1 200` or `HTTP/1.0 200`. A refusal carries the response's first line, or
/// `无响应` for an empty response.
pub fn check_response(response: &[u8]) -> (res: Result<(), WindbotError>)
    ensures
        res is Ok <==> accepted(response@),
        match res {
            Ok(_) => true,
            Err(e) => {
                &&& e matches WindbotError::Rejected(line)
                &&& response@.len() == 0 ==> line@ == seq!['无', '响', '应']
                &&& response@.len() > 0 ==> line@ == first_line(lossy_text(response@))
                &&& response@.len() > 0 && vstd::utf8::valid_utf8(response@) ==> line@ == first_line(
                    vstd::utf8::decode_utf8(response@),
                )
            },
        },
{
    let n = response.len();
    if n >= 12 && response[0] == 0x48 && response[1] == 0x54 && response[2] == 0x54 && response[3] == 0x50
        && response[4] == 0x2f && response[5] == 0x31 && response[6] == 0x2e && (response[7] == 0x31 || response[7]
        == 0x30) && response[8] == 0x20 && response[9] == 0x32 && response[10] == 0x30 && response[11] == 0x30 {
        return Ok(());
    }
    if n == 0 {
        let none = "无响应".to_owned();
        proof {
            reveal_strlit("无响应");
        }
        assert(none@ =~= seq!['无', '响', '应']);
        return Err(WindbotError::Rejected(none));
    }
    let text = chars_of(lossy(response).as_str());
    let parts = split_chars(&text, '\n', '\n');
    assert(views(parts@)[0] == parts@[0]@);
    let line = trim_cr(&parts[0], parts.len() > 1);
    Err(WindbotError::Rejected(string_of(&line)))
}

fn trim_cr(line: &Vec<char>, ended: bool) -> (res: Vec<char>)
    ensures
        res@ == if ended && line@.len() > 0 && line@.last() == '\r' { line@.drop_last() } else { line@ },
{
    let mut res: Vec<char> = Vec::new();
    let keep = if ended && line.len() > 0 && line[line.len() - 1] == '\r' { line.len() - 1 } else { line.len() };
    let mut i: usize = 0;
    while i < keep
        invariant
            keep <= line@.len(),
            i <= keep,
            res@ == line@.take(i as int),
        decreases keep - i,
    {
        res.push(line[i]);
        i = i + 1;
        assert(res@ =~= line@.take(i as int));
    }
    assert(line@.take(keep as int) =~= if ended && line@.len() > 0 && line@.last() == '\r' { line@.drop_last() } else { line@ });
    res
}

// ---------------------------------------------------------------------------
// Choosing a bot
// ---------------------------------------------------------------------------

/// One of the bots, drawn at random.
pub fn random_from(bots: Vec<BotInfo>) -> (res: BotInfo)
    requires
        bots@.len() > 0,
    ensures
        bots@.contains(res),
{
    let mut bots = bots;
    let ghost all = bots@;
    let index = random_below(bots.len());
    let res = bots.swap_remove(index);
    assert(all[index as int] == res);
    res
}

/// Not the bot whose AI is `Lucky`.
pub open spec fn not_lucky(bot: BotInfo) -> bool {
    bot.ai_name@ != seq!['L', 'u', 'c', 'k', 'y']
}

fn is_lucky(bot: &BotInfo) -> (res: bool)
    ensures
        res == !not_lucky(*bot),
{
    let a = chars_of(bot.ai_name.as_str());
    let res = a.len() == 5 && a[0] == 'L' && a[1] == 'u' && a[2] == 'c' && a[3] == 'k' && a[4] == 'y';
    proof {
        if res {
            assert(a@ =~= seq!['L', 'u', 'c', 'k', 'y']);
        }
    }
    res
}

/// A bot drawn at random among those whose AI is not `Lucky`.
pub fn random(bots: Vec<BotInfo>) -> (res: Result<BotInfo, WindbotError>)
    ensures
        match res {
            Ok(bot) => bots@.contains(bot) && not_lucky(bot),
            Err(e) => e is NoRandomBot && forall|i: int| 0 <= i < bots@.len() ==> !not_lucky(#[trigger] bots@[i]),
        },
{
    let ghost all = bots@;
    let mut kept: Vec<BotInfo> = Vec::new();
    let mut rest = bots;
    let n = rest.len();
    let mut i: usize = 0;
    let mut pool: Vec<BotInfo> = Vec::new();
    while rest.len() > 0
        invariant
            all.len() == n,
            rest@.len() + i == n,
            rest@ == all.take(n - i as int).reverse().reverse(),
            forall|j: int| 0 <= j < pool@.len() ==> all.contains(#[trigger] pool@[j]) && not_lucky(pool@[j]),
            forall|j: int| n - i <= j < n && not_lucky(#[trigger] all[j]) ==> pool@.contains(all[j]),
        decreases rest@.len(),
    {
        let ghost before = rest@;
        let bot = rest.pop().unwrap();
        assert(before.last() == bot);
        assert(all.take(n - i as int).reverse().reverse() =~= all.take(n - i as int));
        assert(bot == all[n - i - 1]);
        assert(rest@ =~= all.take(n - i - 1 as int).reverse().reverse());
        if !is_lucky(&bot) {
            let ghost p = pool@;
            pool.push(bot);
            proof {
                assert forall|j: int| n - i - 1 <= j < n && not_lucky(#[trigger] all[j]) implies pool@.contains(all[j]) by {
                    if j == n - i - 1 {
                        assert(pool@[p.len() as int] == all[j]);
                    } else {
                        let k = choose|k: int| 0 <= k < p.len() && p[k] == all[j];
                        assert(pool@[k] == all[j]);
                    }
                }
            }
        }
        i = i + 1;
    }
    if pool.len() == 0 {
        proof {
            assert forall|j: int| 0 <= j < all.len() implies !not_lucky(#[trigger] all[j]) by {
                if not_lucky(all[j]) {
                    assert(pool@.contains(all[j]));
                }
            }
        }
        return Err(WindbotError::NoRandomBot);
    }
    let bot = random_from(pool);
    Ok(bot)
}

/// ASCII lower case of a character.
pub open spec fn ascii_lower(c: char) -> char {
    if 'A' <= c <= 'Z' { ((c as u32) + 32) as char } else { c }
}

/// The strings are equal when ASCII letters are compared without case
/// (`str::eq_ignore_ascii_case`).
pub open spec fn eq_ignore_case(a: Seq<char>, b: Seq<char>) -> bool {
    a.len() == b.len() && forall|i: int| 0 <= i < a.len() ==> ascii_lower(#[trigger] a[i]) == ascii_lower(b[i])
}

/// A bot answers to `name` (already trimmed): by its whole name, white space around it
/// ignored; by its AI name, without ASCII case; or by one of the `-`-separated parts of
/// its name, white space around the part ignored.
pub open spec fn answers_to(bot: BotInfo, name: Seq<char>) -> bool {
    ||| trimmed(bot.name@) == name
    ||| eq_ignore_case(bot.ai_name@, name)
    ||| exists|k: int| 0 <= k < split_by2(bot.name@, '-', '-').len() && trimmed(
        #[trigger] split_by2(bot.name@, '-', '-')[k],
    ) == name
}

fn lower_char(c: char) -> (res: char)
    ensures
        res == ascii_lower(c),
{
    if c >= 'A' && c <= 'Z' {
        ((c as u8) + 32) as char
    } else {
        c
    }
}

fn same_chars(a: &Vec<char>, b: &Vec<char>) -> (res: bool)
    ensures
        res == (a@ == b@),
{
    if a.len() != b.len() {
        return false;
    }
    let mut i: usize = 0;
    while i < a.len()
        invariant
            a@.len() == b@.len(),
            i <= a@.len(),
            forall|j: int| 0 <= j < i ==> a@[j] == b@[j],
        decreases a@.len() - i,
    {
        if a[i] != b[i] {
            return false;
        }
        i = i + 1;
    }
    assert(a@ =~= b@);
    true
}

fn same_ignoring_case(a: &Vec<char>, b: &Vec<char>) -> (res: bool)
    ensures
        res == eq_ignore_case(a@, b@),
{
    if a.len() != b.len() {
        return false;
    }
    let mut i: usize = 0;
    while i < a.len()
        invariant
            a@.len() == b@.len(),
            i <= a@.len(),
            forall|j: int| 0 <= j < i ==> ascii_lower(#[trigger] a@[j]) == ascii_lower(b@[j]),
        decreases a@.len() - i,
    {
        if lower_char(a[i]) != lower_char(b[i]) {
            return false;
        }
        i = i + 1;
    }
    true
}

fn bot_answers(bot: &BotInfo, name: &Vec<char>) -> (res: bool)
    ensures
        res == answers_to(*bot, name@),
{
    let whole = chars_of(bot.name.as_str());
    if same_chars(&trim(&whole), name) {
        return true;
    }
    if same_ignoring_case(&chars_of(bot.ai_name.as_str()), name) {
        return true;
    }
    let parts = split_chars(&whole, '-', '-');
    let mut k: usize = 0;
    while k < parts.len()
        invariant
            k <= parts@.len(),
            views(parts@) == split_by2(whole@, '-', '-'),
            whole@ == bot.name@,
            forall|j: int| 0 <= j < k ==> trimmed(#[trigger] split_by2(whole@, '-', '-')[j]) != name@,
        decreases parts@.len() - k,
    {
        assert(views(parts@)[k as int] == parts@[k as int]@);
        if same_chars(&trim(&parts[k]), name) {
            return true;
        }
        k = k + 1;
    }
    false
}

/// The bot asked for by `name`: any bot but `Lucky` for a blank name, else one of the
/// bots that answer to the trimmed name (see `answers_to`), drawn at random.
pub fn select(name: &str, bots: Vec<BotInfo>) -> (res: Result<BotInfo, WindbotError>)
    ensures
        is_blank(name@) ==> match res {
            Ok(bot) => bots@.contains(bot) && not_lucky(bot),
            Err(e) => e is NoRandomBot && forall|i: int| 0 <= i < bots@.len() ==> !not_lucky(#[trigger] bots@[i]),
        },
        !is_blank(name@) ==> match res {
            Ok(bot) => bots@.contains(bot) && answers_to(bot, trimmed(name@)),
            Err(e) => e matches WindbotError::NotFound(n) && n@ == trimmed(name@) && forall|i: int|
                0 <= i < bots@.len() ==> !answers_to(#[trigger] bots@[i], trimmed(name@)),
        },
{
    let all_chars = chars_of(name);
    let wanted = trim(&all_chars);
    if blank(&all_chars) {
        return random(bots);
    }
    let ghost all = bots@;
    let mut rest = bots;
    let n = rest.len();
    let mut i: usize = 0;
    let mut pool: Vec<BotInfo> = Vec::new();
    while rest.len() > 0
        invariant
            all.len() == n,
            rest@.len() + i == n,
            rest@ == all.take(n - i as int),
            forall|j: int| 0 <= j < pool@.len() ==> all.contains(#[trigger] pool@[j]) && answers_to(pool@[j], wanted@),
            forall|j: int| n - i <= j < n && answers_to(#[trigger] all[j], wanted@) ==> pool@.contains(all[j]),
        decreases rest@.len(),
    {
        let ghost before = rest@;
        let bot = rest.pop().unwrap();
        assert(bot == all[n - i - 1]);
        assert(rest@ =~= all.take(n - i - 1 as int));
        if bot_answers(&bot, &wanted) {
            let ghost p = pool@;
            pool.push(bot);
            proof {
                assert forall|j: int| n - i - 1 <= j < n && answers_to(#[trigger] all[j], wanted@) implies pool@.contains(all[j]) by {
                    if j == n - i - 1 {
                        assert(pool@[p.len() as int] == all[j]);
                    } else {
                        let k = choose|k: int| 0 <= k < p.len() && p[k] == all[j];
                        assert(pool@[k] == all[j]);
                    }
                }
            }
        }
        i = i + 1;
    }
    if pool.len() == 0 {
        proof {
            assert forall|j: int| 0 <= j < all.len() implies !answers_to(#[trigger] all[j], wanted@) by {
                if answers_to(all[j], wanted@) {
                    assert(pool@.contains(all[j]));
                }
            }
        }
        return Err(WindbotError::NotFound(string_of(&wanted)));
    }
    let bot = random_from(pool);
    Ok(bot)
}

// ---------------------------------------------------------------------------
// The WindBot library
// ---------------------------------------------------------------------------

/// The systems with a WindBot library build.
#[derive(Clone, Copy, Debug, PartialEq, Eq, Structural)]
pub enum Platform {
    Windows,
    Linux,
    MacOs,
}

/// The file name of the WindBot library on a platform.
pub open spec fn library_name(platform: Platform) -> Seq<char> {
    match platform {
        Platform::Windows => seq!['W', 'i', 'n', 'd', 'B', 'o', 't', '.', 'd', 'l', 'l'],
        Platform::Linux => seq!['W', 'i', 'n', 'd', 'B', 'o', 't', '.', 's', 'o'],
        Platform::MacOs => seq!['W', 'i', 'n', 'd', 'B', 'o', 't', '.', 'd', 'y', 'l', 'i', 'b'],
    }
}

/// A path separator of the platform.
pub open spec fn separator(platform: Platform, c: char) -> bool {
    c == '/' || (platform == Platform::Windows && c == '\\')
}

/// `file` in the directory `dir` (`Path::join` with a relative file name): the file alone
/// for an empty directory, else after the directory and a separator unless the directory
/// ends with one.
pub open spec fn joined(dir: Seq<char>, file: Seq<char>, platform: Platform) -> Seq<char> {
    if dir.len() == 0 {
        file
    } else if separator(platform, dir.last()) {
        dir + file
    } else {
        dir + seq![if platform == Platform::Windows { '\\' } else { '/' }] + file
    }
}

/// `file` in the directory `path` (see `joined`).
pub fn join_path(path: &str, file: &str, platform: Platform) -> (res: String)
    ensures
        res@ == joined(path@, file@, platform),
{
    let dir = chars_of(path);
    let mut out: Vec<char> = Vec::new();
    push_seq(&mut out, &dir);
    if dir.len() > 0 {
        let last = dir[dir.len() - 1];
        let sep = last == '/' || (platform == Platform::Windows && last == '\\');
        if !sep {
            out.push(if platform == Platform::Windows { '\\' } else { '/' });
        }
    }
    push_str(&mut out, file);
    assert(out@ =~= joined(path@, file@, platform));
    string_of(&out)
}

/// The path of the WindBot library in the directory `path`.
pub fn library_path(path: &str, platform: Platform) -> (res: String)
    ensures
        res@ == joined(path@, library_name(platform), platform),
{
    let name = match platform {
        Platform::Windows => "WindBot.dll",
        Platform::Linux => "WindBot.so",
        Platform::MacOs => "WindBot.dylib",
    };
    proof {
        reveal_strlit("WindBot.dll");
        reveal_strlit("WindBot.so");
        reveal_strlit("WindBot.dylib");
    }
    join_path(path, name, platform)
}

// ---------------------------------------------------------------------------
// The bot list of the WindBot library
// ---------------------------------------------------------------------------

/// What `serde_json::from_str` reads from the text as a list of string triples
/// (`Vec<[String; 3]>`); `None` where it reports an error.
pub uninterp spec fn bot_triples(text: Seq<char>) -> Option<Seq<(String, String, String)>>;

/// Reads a JSON list of string triples with `serde_json::from_str`. The result is named by
/// `bot_triples`.
#[verifier::external_body]
fn read_bot_triples(text: &str) -> (res: Option<Vec<(String, String, String)>>)
    ensures
        match res {
            Some(v) => bot_triples(text@) == Some(v@),
            None => bot_triples(text@) is None,
        },
{
    serde_json::from_str::<Vec<[String; 3]>>(text).ok().map(|v| v.into_iter().map(|[a, b, c]| (a, b, c)).collect())
}

/// The bots of the list the WindBot library gives: each triple is a bot's name, AI name
/// and dialog, in order.
pub fn parse_bot_list(text: &str) -> (res: Result<Vec<BotInfo>, WindbotError>)
    ensures
        match bot_triples(text@) {
            None => res matches Err(e) && e is BadList,
            Some(t) => res matches Ok(bots) && bots@.len() == t.len() && forall|i: int| 0 <= i < t.len() ==> (
            #[trigger] bots@[i]).name == t[i].0 && bots@[i].ai_name == t[i].1 && bots@[i].dialog == t[i].2,
        },
{
    let triples = match read_bot_triples(text) {
        None => {
            return Err(WindbotError::BadList);
        },
        Some(t) => t,
    };
    let mut bots: Vec<BotInfo> = Vec::new();
    let mut i: usize = 0;
    while i < triples.len()
        invariant
            i <= triples@.len(),
            bots@.len() == i,
            forall|j: int| 0 <= j < i ==> (#[trigger] bots@[j]).name == triples@[j].0 && bots@[j].ai_name
                == triples@[j].1 && bots@[j].dialog == triples@[j].2,
        decreases triples@.len() - i,
    {
        let (name, ai_name, dialog) = &triples[i];
        bots.push(BotInfo { name: name.clone(), ai_name: ai_name.clone(), dialog: dialog.clone() });
        i = i + 1;
    }
    Ok(bots)
}

} // verus!

