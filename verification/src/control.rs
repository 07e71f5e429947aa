use vstd::prelude::*;
use crate::text::{blank, chars_of, decimal, is_blank, push_chars, push_decimal, string_of, sub_chars};
use crate::windbot::{Platform, join_path, joined};

verus! {

// ---------------------------------------------------------------------------
// Starting, reloading and stopping the services.
// ---------------------------------------------------------------------------

/// What a reload does with the duel server.
#[derive(Clone, Copy, Debug, PartialEq, Eq, Structural)]
pub enum ServerReload {
    /// It runs on the configured ports: leave it.
    Keep,
    /// None runs: start one.
    Start,
    /// It runs on other ports or has stopped: stop it and start a new one.
    Restart,
}

/// The reload of the duel server, given the running one (its TCP, UDP and WebSocket ports
/// and whether its task has finished) and the configured ports.
pub fn server_reload(running: Option<(u16, u16, u16, bool)>, tcp: u16, udp: u16, ws: u16) -> (res: ServerReload)
    ensures
        match running {
            None => res == ServerReload::Start,
            Some((t, u, w, finished)) => res == if t == tcp && u == udp && w == ws && !finished {
                ServerReload::Keep
            } else {
                ServerReload::Restart
            },
        },
{
    match running {
        None => ServerReload::Start,
        Some((t, u, w, finished)) => if t == tcp && u == udp && w == ws && !finished {
            ServerReload::Keep
        } else {
            ServerReload::Restart
        },
    }
}

/// What a reload does with the WindBot service.
#[derive(Clone, Copy, Debug, PartialEq, Eq, Structural)]
pub enum WindbotReload {
    /// WindBot is not configured: stop the running service, if any.
    Disable,
    /// It runs on the configured port: leave it.
    Keep,
    /// Stop the running service, if any, and start it on the configured port.
    Restart,
}

/// The reload of the WindBot service, given its configured directory and port and the
/// running service (its port and whether it has stopped).
pub fn windbot_reload(path: &str, port: u16, running: Option<(u16, bool)>) -> (res: WindbotReload)
    ensures
        is_blank(path@) || port == 0 ==> res == WindbotReload::Disable,
        !(is_blank(path@) || port == 0) ==> res == if running matches Some((p, finished)) && p == port && !finished {
            WindbotReload::Keep
        } else {
            WindbotReload::Restart
        },
{
    if blank(&chars_of(path)) || port == 0 {
        return WindbotReload::Disable;
    }
    match running {
        Some((p, finished)) => if p == port && !finished {
            WindbotReload::Keep
        } else {
            WindbotReload::Restart
        },
        None => WindbotReload::Restart,
    }
}

/// `s` with each `"` written `\\"`.
pub open spec fn escape_quotes(s: Seq<char>) -> Seq<char>
    decreases s.len(),
{
    if s.len() == 0 {
        Seq::empty()
    } else {
        escape_quotes(s.drop_last()) + if s.last() == '"' { seq!['\\', '"'] } else { seq![s.last()] }
    }
}

fn escaped(s: &Vec<char>) -> (res: Vec<char>)
    ensures
        res@ == escape_quotes(s@),
{
    let mut res: Vec<char> = Vec::new();
    let mut i: usize = 0;
    while i < s.len()
        invariant
            i <= s@.len(),
            res@ == escape_quotes(s@.take(i as int)),
        decreases s@.len() - i,
    {
        assert(s@.take(i + 1).drop_last() =~= s@.take(i as int));
        let ghost before = res@;
        if s[i] == '"' {
            res.push('\\');
            res.push('"');
            assert(res@ =~= before + seq!['\\', '"']);
        } else {
            res.push(s[i]);
            assert(res@ =~= before + seq![s@[i as int]]);
        }
        i = i + 1;
    }
    assert(s@.take(s@.len() as int) =~= s@);
    res
}

/// The start arguments of the WindBot service in directory `path` on `port`: server mode
/// on the local host, the directory as its SQLite path and its `cards.cdb` (quotes
/// escaped) as the card database, without console log.
pub open spec fn windbot_arguments_text(path: Seq<char>, port: u16, platform: Platform) -> Seq<char> {
    seq!['S', 'e', 'r', 'v', 'e', 'r', 'M', 'o', 'd', 'e', '=', 't', 'r', 'u', 'e', ' ', 'S', 'e', 'r', 'v', 'e', 'r', 'P',
        'o', 'r', 't', '='] + decimal(port as nat) + seq![' ', 'S', 'e', 'r', 'v', 'e', 'r', 'U', 'R', 'L', '=', '1', '2',
        '7', '.', '0', '.', '0', '.', '1', ' ', 'S', 'Q', 'L', 'i', 't', 'e', 'P', 'a', 't', 'h', '=', '"'] + path + seq![
        '"', ' ', 'D', 'b', 'P', 'a', 't', 'h', '=', '"'] + escape_quotes(
        joined(path, seq!['c', 'a', 'r', 'd', 's', '.', 'c', 'd', 'b'], platform),
    ) + seq!['"', ' ', 'C', 'o', 'n', 's', 'o', 'l', 'e', 'L', 'o', 'g', '=', 'f', 'a', 'l', 's', 'e']
}

fn push_text(out: &mut Vec<char>, s: &str)
    ensures
        final(out)@ == old(out)@ + s@,
{
    let c = chars_of(s);
    let mut i: usize = 0;
    while i < c.len()
        invariant
            i <= c@.len(),
            c@ == s@,
            out@ == old(out)@ + c@.take(i as int),
        decreases c@.len() - i,
    {
        out.push(c[i]);
        i = i + 1;
        assert(out@ =~= old(out)@ + c@.take(i as int));
    }
    assert(c@.take(c@.len() as int) =~= c@);
}

/// The start arguments of the WindBot service (see `windbot_arguments_text`).
pub fn windbot_arguments(path: &str, port: u16, platform: Platform) -> (res: String)
    ensures
        res@ == windbot_arguments_text(path@, port, platform),
{
    proof {
        reveal_strlit("ServerMode=true ServerPort=");
        reveal_strlit(" ServerURL=127.0.0.1 SQLitePath=\"");
        reveal_strlit("\" DbPath=\"");
        reveal_strlit("\" ConsoleLog=false");
        reveal_strlit("cards.cdb");
    }
    let mut out: Vec<char> = Vec::new();
    push_text(&mut out, "ServerMode=true ServerPort=");
    let mut digits = String::new();
    push_decimal(&mut digits, port as u64);
    assert(Seq::<char>::empty() + decimal(port as nat) =~= decimal(port as nat));
    push_text(&mut out, digits.as_str());
    push_text(&mut out, " ServerURL=127.0.0.1 SQLitePath=\"");
    push_text(&mut out, path);
    push_text(&mut out, "\" DbPath=\"");
    let ghost head = out@;
    let db = join_path(path, "cards.cdb", platform);
    assert(db@ == joined(path@, seq!['c', 'a', 'r', 'd', 's', '.', 'c', 'd', 'b'], platform));
    let db_escaped = escaped(&chars_of(db.as_str()));
    let mut i: usize = 0;
    while i < db_escaped.len()
        invariant
            i <= db_escaped@.len(),
            out@ == head + db_escaped@.take(i as int),
        decreases db_escaped@.len() - i,
    {
        out.push(db_escaped[i]);
        i = i + 1;
        assert(out@ =~= head + db_escaped@.take(i as int));
    }
    assert(db_escaped@.take(db_escaped@.len() as int) =~= db_escaped@);
    let ghost body = out@;
    push_text(&mut out, "\" ConsoleLog=false");
    assert(out@ =~= body + seq!['"', ' ', 'C', 'o', 'n', 's', 'o', 'l', 'e', 'L', 'o', 'g', '=', 'f', 'a', 'l', 's', 'e']);
    assert(out@ =~= windbot_arguments_text(path@, port, platform));
    string_of(&out)
}

/// Where the duel core's script comes from.
pub enum ScriptSource {
    /// The card collection, by this name.
    Cards(String),
    /// A file at this path.
    File(String),
}

/// Card scripts (`./script...`) come from the card collection under the path without its
/// leading `./`; other paths are read as files.
pub fn script_source(path: &str) -> (res: ScriptSource)
    ensures
        match res {
            ScriptSource::Cards(name) => path@.len() >= 8 && path@.take(8) == seq!['.', '/', 's', 'c', 'r', 'i', 'p', 't']
                && name@ == path@.skip(2),
            ScriptSource::File(p) => !(path@.len() >= 8 && path@.take(8) == seq!['.', '/', 's', 'c', 'r', 'i', 'p', 't'])
                && p@ == path@,
        },
{
    let c = chars_of(path);
    let script = c.len() >= 8 && c[0] == '.' && c[1] == '/' && c[2] == 's' && c[3] == 'c' && c[4] == 'r' && c[5] == 'i'
        && c[6] == 'p' && c[7] == 't';
    proof {
        if script {
            assert(c@.take(8) =~= seq!['.', '/', 's', 'c', 'r', 'i', 'p', 't']);
        } else if c@.len() >= 8 && c@.take(8) == seq!['.', '/', 's', 'c', 'r', 'i', 'p', 't'] {
            assert(c@.take(8)[0] == c@[0]);
            assert(c@.take(8)[7] == c@[7]);
            assert(c@.take(8)[3] == c@[3]);
            assert(c@.take(8)[5] == c@[5]);
        }
    }
    if script {
        let name = sub_chars(&c, 2, c.len());
        assert(name@ =~= path@.skip(2));
        ScriptSource::Cards(string_of(&name))
    } else {
        ScriptSource::File(string_of(&c))
    }
}

/// Size of the buffer the duel core reads a script from: 1 MiB.
pub const SCRIPT_BUFFER: usize = 1048576;

/// A script fits the core's buffer when it is shorter than it.
pub fn script_fits(len: usize) -> (res: bool)
    ensures
        res == (len < SCRIPT_BUFFER),
{
    len < SCRIPT_BUFFER
}

/// Most UDP clients served at once.
pub const MAX_CLIENTS: usize = 1024;

/// Whether the UDP listener takes another client while `clients` are served.
pub fn accepts_client(clients: usize) -> (res: bool)
    ensures
        res == (clients < MAX_CLIENTS),
{
    clients < MAX_CLIENTS
}

} // verus!
