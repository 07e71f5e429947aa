use vstd::prelude::*;
use crate::duel::{HostInfo, Mode, default_host_info, spec_mode_number};
use crate::text::{
    all_digits, chars_of, decimal, digit_char, digits_value, is_digit, lemma_decimal_digits, parse_digits, push_char, push_chars,
    push_decimal, split_by2, split_chars, string_of, sub_chars, views,
};

verus! {

/// What Rust's `str::to_uppercase` gives for a string (full Unicode case mapping).
pub uninterp spec fn uppercase(s: Seq<char>) -> Seq<char>;

/// The ASCII upper case of a character: `a` to `z` become `A` to `Z`, anything else stays.
pub open spec fn ascii_upper_char(c: char) -> char {
    if 'a' <= c && c <= 'z' {
        ((c as int) - 32) as char
    } else {
        c
    }
}

/// The ASCII upper case of a text, character by character.
pub open spec fn ascii_upper(s: Seq<char>) -> Seq<char> {
    s.map_values(|c: char| ascii_upper_char(c))
}

/// Maps a string to upper case with `str::to_uppercase`; the Unicode mapping is named
/// by `uppercase`, not restated. Besides, on ASCII text it is the ASCII mapping: `a` to
/// `z` become `A` to `Z` and every other character stays.
#[verifier::external_body]
fn to_uppercase(s: &str) -> (res: String)
    ensures
        res@ == uppercase(s@),
        vstd::utf8::is_ascii_chars(s@) ==> res@ == ascii_upper(s@),
{
    s.to_uppercase()
}

/// Why a room password was refused.
#[derive(Clone, Copy, Debug, PartialEq, Eq, Structural)]
pub enum PasswordError {
    /// `BO` followed by digits that are not an odd number from 1 to 253.
    BadBestOf,
    /// A tag room cannot play several duels.
    TagBestOf,
}

/// The options a room password asks for.
#[derive(Clone, Debug)]
pub struct Password {
    /// The room to join or create; `None` asks for a random room.
    pub room_key: Option<String>,
    pub host_info: HostInfo,
    pub best_of: u8,
}

/// Index of the last `#` in `s`, or -1.
pub open spec fn last_hash(s: Seq<char>) -> int
    decreases s.len(),
{
    if s.len() == 0 {
        -1
    } else if s.last() == '#' {
        s.len() - 1
    } else {
        last_hash(s.drop_last())
    }
}

/// The password split at its last `#` into the mode prefix and the room name
/// (no prefix when there is no `#`).
pub open spec fn split_pass(pass: Seq<char>) -> (Seq<char>, Seq<char>) {
    let k = last_hash(pass);
    if k < 0 {
        (Seq::empty(), pass)
    } else {
        (pass.subrange(0, k), pass.subrange(k + 1, pass.len() as int))
    }
}

/// The prefix split into modes at every ASCII or full-width comma.
pub open spec fn split_modes(s: Seq<char>) -> Seq<Seq<char>> {
    split_by2(s, ',', '，')
}

/// `M` or `MATCH`.
pub open spec fn is_match_word(mode: Seq<char>) -> bool {
    mode == seq!['M'] || mode == seq!['M', 'A', 'T', 'C', 'H']
}

/// `T` or `TAG`.
pub open spec fn is_tag_word(mode: Seq<char>) -> bool {
    mode == seq!['T'] || mode == seq!['T', 'A', 'G']
}

/// The digits after `BO` when the mode is `BO` followed by one or more ASCII digits.
pub open spec fn bo_digits(mode: Seq<char>) -> Option<Seq<char>> {
    if mode.len() > 2 && mode[0] == 'B' && mode[1] == 'O' && all_digits(mode.skip(2)) {
        Some(mode.skip(2))
    } else {
        None
    }
}

/// The digits of the first `BO<n>` mode.
pub open spec fn first_bo(modes: Seq<Seq<char>>) -> Option<Seq<char>>
    decreases modes.len(),
{
    if modes.len() == 0 {
        None
    } else if bo_digits(modes[0]) is Some {
        bo_digits(modes[0])
    } else {
        first_bo(modes.drop_first())
    }
}

/// Some mode satisfies `p`.
pub open spec fn any_mode(modes: Seq<Seq<char>>, p: spec_fn(Seq<char>) -> bool) -> bool {
    exists|i: int| 0 <= i < modes.len() && p(#[trigger] modes[i])
}

/// The number of duels the modes ask for: the first `BO<n>` decides, else three for a match
/// and one otherwise; `n` must be an odd number below 255.
pub open spec fn spec_best_of(modes: Seq<Seq<char>>) -> Result<u8, PasswordError> {
    match first_bo(modes) {
        None => Ok(if any_mode(modes, |m: Seq<char>| is_match_word(m)) { 3u8 } else { 1u8 }),
        Some(digits) => {
            let v = digits_value(digits);
            if 0 < v < 255 && v % 2 == 1 {
                Ok(v as u8)
            } else {
                Err(PasswordError::BadBestOf)
            }
        },
    }
}

/// What a password asks for: the room key, the mode, the starting life points and the
/// number of duels; every other rule keeps its default.
pub open spec fn spec_parse(pass: Seq<char>) -> Result<
    (Option<Seq<char>>, Mode, u32, u8),
    PasswordError,
> {
    let (raw_prefix, name) = split_pass(pass);
    let prefix = uppercase(raw_prefix);
    let modes = split_modes(prefix);
    let tag = any_mode(modes, |m: Seq<char>| is_tag_word(m));
    let room_key = if name.len() == 0 {
        None
    } else if last_hash(pass) >= 0 {
        Some(prefix + seq!['#'] + name)
    } else {
        Some(name)
    };
    match spec_best_of(modes) {
        Err(e) => Err(e),
        Ok(best_of) => if tag {
            if best_of != 1 {
                Err(PasswordError::TagBestOf)
            } else {
                Ok((room_key, Mode::Tag, (2 * default_host_info().start_lp) as u32, best_of))
            }
        } else if best_of > 1 {
            Ok((room_key, Mode::Match, default_host_info().start_lp, best_of))
        } else {
            Ok((room_key, Mode::Single, default_host_info().start_lp, best_of))
        },
    }
}

/// The room key of a parsed password as characters.
pub open spec fn key_view(key: Option<String>) -> Option<Seq<char>> {
    match key {
        Some(k) => Some(k@),
        None => None,
    }
}

fn last_hash_index(s: &Vec<char>) -> (k: Option<usize>)
    ensures
        match k {
            Some(k) => k == last_hash(s@) && k < s@.len(),
            None => last_hash(s@) == -1,
        },
{
    let mut i: usize = s.len();
    assert(s@.subrange(0, i as int) =~= s@);
    while i > 0
        invariant
            i <= s@.len(),
            last_hash(s@) == last_hash(s@.subrange(0, i as int)),
        decreases i,
    {
        assert(s@.subrange(0, i as int).drop_last() =~= s@.subrange(0, i - 1));
        if s[i - 1] == '#' {
            return Some(i - 1);
        }
        i = i - 1;
    }
    None
}

fn is_match(mode: &Vec<char>) -> (res: bool)
    ensures
        res == is_match_word(mode@),
{
    let short = mode.len() == 1 && mode[0] == 'M';
    let long = mode.len() == 5 && mode[0] == 'M' && mode[1] == 'A' && mode[2] == 'T' && mode[3] == 'C'
        && mode[4] == 'H';
    proof {
        if short {
            assert(mode@ =~= seq!['M']);
        }
        if long {
            assert(mode@ =~= seq!['M', 'A', 'T', 'C', 'H']);
        }
        if mode@ == seq!['M'] {
            assert(mode@[0] == 'M');
        }
        if mode@ == seq!['M', 'A', 'T', 'C', 'H'] {
            assert(mode@[0] == 'M' && mode@[1] == 'A' && mode@[2] == 'T' && mode@[3] == 'C'
                && mode@[4] == 'H');
        }
    }
    short || long
}

fn is_tag(mode: &Vec<char>) -> (res: bool)
    ensures
        res == is_tag_word(mode@),
{
    let short = mode.len() == 1 && mode[0] == 'T';
    let long = mode.len() == 3 && mode[0] == 'T' && mode[1] == 'A' && mode[2] == 'G';
    proof {
        if short {
            assert(mode@ =~= seq!['T']);
        }
        if long {
            assert(mode@ =~= seq!['T', 'A', 'G']);
        }
        if mode@ == seq!['T'] {
            assert(mode@[0] == 'T');
        }
        if mode@ == seq!['T', 'A', 'G'] {
            assert(mode@[0] == 'T' && mode@[1] == 'A' && mode@[2] == 'G');
        }
    }
    short || long
}

fn bo_digits_exec(mode: &Vec<char>) -> (res: Option<Vec<char>>)
    ensures
        match res {
            Some(d) => bo_digits(mode@) == Some(d@),
            None => bo_digits(mode@) is None,
        },
{
    if mode.len() > 2 && mode[0] == 'B' && mode[1] == 'O' {
        let digits = sub_chars(mode, 2, mode.len());
        assert(digits@ =~= mode@.skip(2));
        let mut i: usize = 0;
        while i < digits.len()
            invariant
                i <= digits@.len(),
                digits@ == mode@.skip(2),
                forall|j: int| 0 <= j < i ==> is_digit(#[trigger] digits@[j]),
            decreases digits.len() - i,
        {
            if !(digits[i] >= '0' && digits[i] <= '9') {
                assert(!is_digit(mode@.skip(2)[i as int]));
                return None;
            }
            i = i + 1;
        }
        Some(digits)
    } else {
        None
    }
}

fn any_exec(modes: &Vec<Vec<char>>, tag: bool) -> (res: bool)
    ensures
        tag ==> res == any_mode(views(modes@), |m: Seq<char>| is_tag_word(m)),
        !tag ==> res == any_mode(views(modes@), |m: Seq<char>| is_match_word(m)),
{
    let mut i: usize = 0;
    while i < modes.len()
        invariant
            i <= modes@.len(),
            tag ==> forall|j: int| 0 <= j < i ==> !is_tag_word(#[trigger] modes@[j]@),
            !tag ==> forall|j: int| 0 <= j < i ==> !is_match_word(#[trigger] modes@[j]@),
        decreases modes.len() - i,
    {
        let hit = if tag { is_tag(&modes[i]) } else { is_match(&modes[i]) };
        if hit {
            assert(views(modes@)[i as int] == modes@[i as int]@);
            return true;
        }
        i = i + 1;
    }
    proof {
        if tag {
            assert forall|j: int| 0 <= j < views(modes@).len() implies !is_tag_word(
                #[trigger] views(modes@)[j],
            ) by {
                assert(views(modes@)[j] == modes@[j]@);
            }
        } else {
            assert forall|j: int| 0 <= j < views(modes@).len() implies !is_match_word(
                #[trigger] views(modes@)[j],
            ) by {
                assert(views(modes@)[j] == modes@[j]@);
            }
        }
    }
    false
}

proof fn lemma_first_bo_digits(modes: Seq<Seq<char>>)
    ensures
        first_bo(modes) matches Some(d) ==> all_digits(d),
    decreases modes.len(),
{
    if modes.len() > 0 && bo_digits(modes[0]) is None {
        lemma_first_bo_digits(modes.drop_first());
    }
}

fn first_bo_exec(modes: &Vec<Vec<char>>) -> (res: Option<Vec<char>>)
    ensures
        match res {
            Some(d) => first_bo(views(modes@)) == Some(d@),
            None => first_bo(views(modes@)) is None,
        },
{
    let mut i: usize = 0;
    assert(views(modes@).skip(0) =~= views(modes@));
    while i < modes.len()
        invariant
            i <= modes@.len(),
            first_bo(views(modes@)) == first_bo(views(modes@).skip(i as int)),
        decreases modes.len() - i,
    {
        let ghost rest = views(modes@).skip(i as int);
        assert(rest[0] == modes@[i as int]@);
        assert(rest.drop_first() =~= views(modes@).skip(i + 1));
        match bo_digits_exec(&modes[i]) {
            Some(d) => {
                return Some(d);
            },
            None => {},
        }
        i = i + 1;
    }
    assert(views(modes@).skip(modes@.len() as int).len() == 0);
    None
}

/// Where `last_hash` points: at a `#` with none after it, or nowhere when there is none.
proof fn lemma_last_hash(s: Seq<char>)
    ensures
        -1 <= last_hash(s) < s.len(),
        last_hash(s) >= 0 ==> s[last_hash(s)] == '#',
        forall|i: int| last_hash(s) < i < s.len() ==> s[i] != '#',
    decreases s.len(),
{
    if s.len() > 0 && s.last() != '#' {
        lemma_last_hash(s.drop_last());
        assert forall|i: int| last_hash(s) < i < s.len() implies s[i] != '#' by {
            if i < s.len() - 1 {
                assert(s.drop_last()[i] == s[i]);
            }
        }
    }
}

/// The last `#` of `a#b` is the one after `a` when `b` holds none.
proof fn lemma_last_hash_join(a: Seq<char>, b: Seq<char>)
    requires
        forall|i: int| 0 <= i < b.len() ==> b[i] != '#',
    ensures
        last_hash(a + seq!['#'] + b) == a.len(),
    decreases b.len(),
{
    let s = a + seq!['#'] + b;
    if b.len() > 0 {
        assert(s.last() == b.last());
        assert(s.drop_last() =~= a + seq!['#'] + b.drop_last());
        lemma_last_hash_join(a, b.drop_last());
    } else {
        assert(s.last() == '#');
    }
}

/// ASCII upper case changes nothing the second time.
proof fn lemma_ascii_upper_twice(s: Seq<char>)
    ensures
        ascii_upper(ascii_upper(s)) == ascii_upper(s),
{
    assert forall|i: int| 0 <= i < s.len() implies ascii_upper_char(ascii_upper_char(s[i])) == ascii_upper_char(
        s[i],
    ) by {
        let c = s[i];
        if 'a' <= c && c <= 'z' {
            assert((((c as int) - 32) as char) as int == (c as int) - 32);
        }
    }
    assert(ascii_upper(ascii_upper(s)) =~= ascii_upper(s));
}

/// `str::to_uppercase` maps `s` as ASCII text (its contract states this of every ASCII
/// text it is given).
pub open spec fn upper_as_ascii(s: Seq<char>) -> bool {
    uppercase(s) == ascii_upper(s)
}

/// A room key read from a password is itself a password for the same room and rules:
/// parsing the key again gives the same key, mode, life points and number of duels. This
/// is stated where the mode prefix is upper-cased as ASCII text, before and after.
pub proof fn lemma_key_parses_again(pass: Seq<char>, key: Seq<char>)
    requires
        spec_parse(pass) matches Ok(r) && r.0 == Some(key),
        upper_as_ascii(split_pass(pass).0),
        upper_as_ascii(uppercase(split_pass(pass).0)),
    ensures
        spec_parse(key) == spec_parse(pass),
{
    lemma_last_hash(pass);
    let h = last_hash(pass);
    if h >= 0 {
        let (raw, name) = split_pass(pass);
        let up = uppercase(raw);
        assert(key == up + seq!['#'] + name);
        assert forall|i: int| 0 <= i < name.len() implies name[i] != '#' by {
            assert(name[i] == pass[h + 1 + i]);
        }
        lemma_last_hash_join(up, name);
        assert(key.subrange(0, up.len() as int) =~= up);
        assert(key.subrange(up.len() as int + 1, key.len() as int) =~= name);
        assert(split_pass(key) == (up, name));
        lemma_ascii_upper_twice(raw);
        assert(uppercase(up) == up);
    }
}

/// No mode starts with `BO`, so none asks for a number of duels.
proof fn lemma_no_bo(modes: Seq<Seq<char>>)
    requires
        forall|i: int| 0 <= i < modes.len() ==> !((#[trigger] modes[i]).len() >= 2 && modes[i][0] == 'B' && modes[i][1]
            == 'O'),
    ensures
        first_bo(modes) is None,
    decreases modes.len(),
{
    if modes.len() > 0 {
        assert(!(modes[0].len() >= 2 && modes[0][0] == 'B' && modes[0][1] == 'O'));
        assert forall|i: int| 0 <= i < modes.drop_first().len() implies !((#[trigger] modes.drop_first()[i]).len()
            >= 2 && modes.drop_first()[i][0] == 'B' && modes.drop_first()[i][1] == 'O') by {
            assert(modes.drop_first()[i] == modes[i + 1]);
        }
        lemma_no_bo(modes.drop_first());
    }
}

/// A password whose upper-cased modes include `MATCH` or `M`, with no tag mode and no
/// mode starting with `BO`, opens a match room: three duels, the default life points,
/// and a room key kept as for any password.
pub proof fn lemma_match_word_plays_three(pass: Seq<char>)
    requires
        ({
            let modes = split_modes(uppercase(split_pass(pass).0));
            &&& exists|i: int| 0 <= i < modes.len() && (#[trigger] modes[i] == seq!['M', 'A', 'T', 'C', 'H'] || modes[i]
                == seq!['M'])
            &&& forall|i: int| 0 <= i < modes.len() ==> #[trigger] modes[i] != seq!['T'] && modes[i] != seq!['T', 'A', 'G']
            &&& forall|i: int| 0 <= i < modes.len() ==> !((#[trigger] modes[i]).len() >= 2 && modes[i][0] == 'B'
                && modes[i][1] == 'O')
        }),
    ensures
        spec_parse(pass) matches Ok(r) && r.1 == Mode::Match && r.3 == 3 && r.2 == 8000,
{
    let modes = split_modes(uppercase(split_pass(pass).0));
    lemma_no_bo(modes);
    let i = choose|i: int| 0 <= i < modes.len() && (#[trigger] modes[i] == seq!['M', 'A', 'T', 'C', 'H'] || modes[i]
        == seq!['M']);
    assert(is_match_word(modes[i]));
    assert(any_mode(modes, |m: Seq<char>| is_match_word(m)));
    assert(!any_mode(modes, |m: Seq<char>| is_tag_word(m))) by {
        if any_mode(modes, |m: Seq<char>| is_tag_word(m)) {
            let j = choose|j: int| 0 <= j < modes.len() && (|m: Seq<char>| is_tag_word(m))(#[trigger] modes[j]);
            assert(modes[j] != seq!['T'] && modes[j] != seq!['T', 'A', 'G']);
        }
    }
}

/// Seats a room of these options holds: four for tag, two otherwise.
pub open spec fn capacity_of(p: Password) -> usize {
    if p.host_info.mode == Mode::Tag { 4usize } else { 2usize }
}

/// The prefix of random room keys for these options: `R#<mode>-<best of>#`.
pub open spec fn random_prefix_of(p: Password) -> Seq<char> {
    seq!['R', '#'] + decimal(spec_mode_number(p.host_info.mode) as nat) + seq!['-'] + decimal(p.best_of as nat)
        + seq!['#']
}

/// Random rooms are shared only by the same rules: two passwords whose random rooms have
/// the same key prefix play the same mode and the same number of duels.
pub proof fn lemma_random_prefix_rules(a: Password, b: Password)
    requires
        random_prefix_of(a) == random_prefix_of(b),
    ensures
        a.host_info.mode == b.host_info.mode,
        a.best_of == b.best_of,
{
    let pa = random_prefix_of(a);
    let pb = random_prefix_of(b);
    let ma = spec_mode_number(a.host_info.mode) as nat;
    let mb = spec_mode_number(b.host_info.mode) as nat;
    assert(decimal(ma) == seq![digit_char(ma as int)]);
    assert(decimal(mb) == seq![digit_char(mb as int)]);
    assert(pa[2] == digit_char(ma as int));
    assert(pb[2] == digit_char(mb as int));
    let da = decimal(a.best_of as nat);
    let db = decimal(b.best_of as nat);
    assert(pa.subrange(4, pa.len() - 1) =~= da);
    assert(pb.subrange(4, pb.len() - 1) =~= db);
    lemma_decimal_digits(a.best_of as nat);
    lemma_decimal_digits(b.best_of as nat);
}

impl Password {
    /// The password's meaning as plain values: room key, mode, starting life points and
    /// number of duels.
    pub open spec fn view_parts(&self) -> (Option<Seq<char>>, Mode, u32, u8) {
        (key_view(self.room_key), self.host_info.mode, self.host_info.start_lp, self.best_of)
    }

    /// Reads a room password `[modes#]name`. Modes are separated by commas: `M`/`MATCH`
    /// plays three duels, `BO<n>` plays `n` (odd, below 255), `T`/`TAG` plays two against
    /// two with doubled life points. The room key keeps the upper-cased modes so that rooms
    /// with different rules never share a key.
    pub fn parse(pass: &str) -> (res: Result<Password, PasswordError>)
        ensures
            match res {
                Ok(p) => spec_parse(pass@) == Ok::<_, PasswordError>(p.view_parts()) && p.host_info
                    == (HostInfo {
                    mode: p.host_info.mode,
                    start_lp: p.host_info.start_lp,
                    ..default_host_info()
                }),
                Err(e) => spec_parse(pass@) == Err::<(Option<Seq<char>>, Mode, u32, u8), _>(e),
            },
            vstd::utf8::is_ascii_chars(split_pass(pass@).0) ==> upper_as_ascii(split_pass(pass@).0),
    {
        let chars = chars_of(pass);
        let n = chars.len();
        let hash = last_hash_index(&chars);
        let (raw_prefix, name) = match hash {
            Some(k) => (sub_chars(&chars, 0, k), sub_chars(&chars, k + 1, n)),
            None => (Vec::new(), sub_chars(&chars, 0, chars.len())),
        };
        assert(chars@.subrange(0, chars@.len() as int) =~= chars@);
        assert((raw_prefix@, name@) == split_pass(pass@));
        let raw_prefix_string = string_of(&raw_prefix);
        let prefix = to_uppercase(raw_prefix_string.as_str());
        let prefix_chars = chars_of(prefix.as_str());
            let modes = split_chars(&prefix_chars, ',', '，');
        let is_match_room = any_exec(&modes, false);
        let mut best_of: u8 = if is_match_room { 3 } else { 1 };
        match first_bo_exec(&modes) {
            Some(digits) => {
                proof {
                    lemma_first_bo_digits(views(modes@));
                }
                match parse_digits(&digits, 255) {
                    Some(v) => {
                        if !(v > 0 && v < 255 && v % 2 == 1) {
                            return Err(PasswordError::BadBestOf);
                        }
                        best_of = v as u8;
                    },
                    None => {
                        return Err(PasswordError::BadBestOf);
                    },
                }
            },
            None => {},
        }
        assert(spec_best_of(views(modes@)) == Ok::<u8, PasswordError>(best_of));
        let tag = any_exec(&modes, true);
        let mut host_info = HostInfo::new();
        if tag {
            if best_of != 1 {
                return Err(PasswordError::TagBestOf);
            }
            host_info.mode = Mode::Tag;
            host_info.start_lp = host_info.start_lp * 2;
        } else if best_of > 1 {
            host_info.mode = Mode::Match;
        }
        let room_key = if name.len() == 0 {
            None
        } else if hash.is_some() {
            let mut key = String::new();
            push_chars(&mut key, &prefix_chars);
            push_char(&mut key, '#');
            push_chars(&mut key, &name);
            assert(key@ =~= prefix@ + seq!['#'] + name@);
            Some(key)
        } else {
            Some(string_of(&name))
        };
        Ok(Password { room_key, host_info, best_of })
    }

    /// Seats a room of these options holds: four for tag, two otherwise.
    pub fn capacity(&self) -> (n: usize)
        ensures
            n == capacity_of(*self),
    {
        if self.host_info.mode == Mode::Tag { 4 } else { 2 }
    }

    /// The prefix of random room keys for these options: `R#<mode>-<best of>#`, so that a
    /// random match only joins rooms with the same rules.
    pub fn random_prefix(&self) -> (res: String)
        ensures
            res@ == random_prefix_of(*self),
    {
        let mut res = String::new();
        push_char(&mut res, 'R');
        push_char(&mut res, '#');
        push_decimal(&mut res, self.host_info.mode.number() as u64);
        push_char(&mut res, '-');
        push_decimal(&mut res, self.best_of as u64);
        push_char(&mut res, '#');
        assert(res@ =~= seq!['R', '#'] + decimal(spec_mode_number(self.host_info.mode) as nat)
            + seq!['-'] + decimal(self.best_of as nat) + seq!['#']);
        res
    }

    /// The best-of override the engine's match plugin needs: set only for non-tag rooms
    /// playing more than three duels (three is the engine's own match length).
    pub fn configure(&self) -> (res: Option<u8>)
        ensures
            res == if self.host_info.mode != Mode::Tag && self.best_of > 3 {
                Some(self.best_of)
            } else {
                None::<u8>
            },
    {
        if self.host_info.mode != Mode::Tag && self.best_of > 3 {
            Some(self.best_of)
        } else {
            None
        }
    }
}

} // verus!
