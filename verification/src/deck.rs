use vstd::prelude::*;
use vstd::slice::{slice_subrange, slice_to_vec};
use base64::Engine;
use vstd::string::StringSliceAdditionalSpecFns;

verus! {

/// A deck as the client submits it: card codes of the main, extra and side decks.
#[derive(Clone, Debug, PartialEq, Eq)]
pub struct Deck {
    pub main: Vec<u32>,
    pub extra: Vec<u32>,
    pub side: Vec<u32>,
}

/// Number of times `card` occurs in `cards`.
pub open spec fn count(cards: Seq<u32>, card: u32) -> nat
    decreases cards.len(),
{
    if cards.len() == 0 {
        0
    } else {
        count(cards.drop_last(), card) + if cards.last() == card { 1nat } else { 0nat }
    }
}

/// Two decks hold the same cards: the main and extra decks taken together (the client
/// sends them as one list) and the side deck each hold every card as often, in any order.
pub open spec fn spec_same_deck(
    left_main: Seq<u32>,
    left_side: Seq<u32>,
    right_main: Seq<u32>,
    right_side: Seq<u32>,
) -> bool {
    same_counts_spec(left_main, right_main) && same_counts_spec(left_side, right_side)
}

/// Every card occurs as often in `a` as in `b`.
pub open spec fn same_counts_spec(a: Seq<u32>, b: Seq<u32>) -> bool {
    forall|card: u32| #![trigger count(a, card)] #![trigger count(b, card)] count(a, card) == count(b, card)
}

fn copy_cards(v: &Vec<u32>) -> (r: Vec<u32>)
    ensures
        r@ == v@,
{
    let mut r: Vec<u32> = Vec::new();
    let mut i: usize = 0;
    while i < v.len()
        invariant
            i <= v@.len(),
            r@ == v@.subrange(0, i as int),
        decreases v.len() - i,
    {
        r.push(v[i]);
        i = i + 1;
        assert(r@ =~= v@.subrange(0, i as int));
    }
    assert(v@.subrange(0, v@.len() as int) =~= v@);
    r
}

/// The cards of a deck as plain sequences: main, extra, side.
pub open spec fn deck_view(d: Deck) -> (Seq<u32>, Seq<u32>, Seq<u32>) {
    (d.main@, d.extra@, d.side@)
}

/// The cards of an optional deck.
pub open spec fn opt_deck_view(d: Option<Deck>) -> Option<(Seq<u32>, Seq<u32>, Seq<u32>)> {
    match d {
        Some(d) => Some(deck_view(d)),
        None => None,
    }
}

impl Deck {
    /// A copy holding the same cards.
    pub fn duplicate(&self) -> (r: Deck)
        ensures
            deck_view(r) == deck_view(*self),
    {
        Deck { main: copy_cards(&self.main), extra: copy_cards(&self.extra), side: copy_cards(&self.side) }
    }

    /// The main and extra decks as one list, as the client transmits them.
    pub open spec fn combined(&self) -> Seq<u32> {
        self.main@ + self.extra@
    }
}

/// A copy of an optional deck holding the same cards.
pub fn copy_deck(d: &Option<Deck>) -> (r: Option<Deck>)
    ensures
        opt_deck_view(r) == opt_deck_view(*d),
{
    match d {
        Some(d) => Some(d.duplicate()),
        None => None,
    }
}

/// Whether two decks hold the same cards (see `spec_same_deck`).
pub open spec fn same_deck_spec(left: Deck, right: Deck) -> bool {
    spec_same_deck(left.combined(), left.side@, right.combined(), right.side@)
}

fn count_of(cards: &Vec<u32>, card: u32) -> (n: usize)
    ensures
        n == count(cards@, card),
{
    let mut n: usize = 0;
    let mut i: usize = 0;
    while i < cards.len()
        invariant
            i <= cards@.len(),
            n == count(cards@.subrange(0, i as int), card),
            n <= i,
        decreases cards.len() - i,
    {
        assert(cards@.subrange(0, i + 1).drop_last() == cards@.subrange(0, i as int));
        if cards[i] == card {
            n = n + 1;
        }
        i = i + 1;
    }
    assert(cards@.subrange(0, cards@.len() as int) == cards@);
    n
}

/// Whether every card that occurs in `a` or `b` occurs as often in both.
fn same_counts(a: &Vec<u32>, b: &Vec<u32>) -> (res: bool)
    ensures
        res == same_counts_spec(a@, b@),
{
    let mut i: usize = 0;
    while i < a.len()
        invariant
            i <= a@.len(),
            forall|j: int| 0 <= j < i ==> count(a@, #[trigger] a@[j]) == count(b@, a@[j]),
        decreases a.len() - i,
    {
        if count_of(a, a[i]) != count_of(b, a[i]) {
            return false;
        }
        i = i + 1;
    }
    let mut k: usize = 0;
    while k < b.len()
        invariant
            k <= b@.len(),
            forall|j: int| 0 <= j < a@.len() ==> count(a@, #[trigger] a@[j]) == count(b@, a@[j]),
            forall|j: int| 0 <= j < k ==> count(a@, #[trigger] b@[j]) == count(b@, b@[j]),
        decreases b.len() - k,
    {
        if count_of(a, b[k]) != count_of(b, b[k]) {
            return false;
        }
        k = k + 1;
    }
    assert forall|card: u32| count(a@, card) == #[trigger] count(b@, card) by {
        if !a@.contains(card) && !b@.contains(card) {
            lemma_count_absent(a@, card);
            lemma_count_absent(b@, card);
        } else if a@.contains(card) {
            let j = choose|j: int| 0 <= j < a@.len() && a@[j] == card;
            assert(count(a@, a@[j]) == count(b@, a@[j]));
        } else {
            let j = choose|j: int| 0 <= j < b@.len() && b@[j] == card;
            assert(count(a@, b@[j]) == count(b@, b@[j]));
        }
    }
    true
}

proof fn lemma_count_absent(cards: Seq<u32>, card: u32)
    requires
        !cards.contains(card),
    ensures
        count(cards, card) == 0,
    decreases cards.len(),
{
    if cards.len() > 0 {
        assert(!cards.drop_last().contains(card)) by {
            if cards.drop_last().contains(card) {
                let j = choose|j: int| 0 <= j < cards.drop_last().len() && cards.drop_last()[j] == card;
                assert(cards[j] == card);
            }
        }
        assert(cards[cards.len() - 1] == cards.last());
        lemma_count_absent(cards.drop_last(), card);
    }
}

fn concat(a: &Vec<u32>, b: &Vec<u32>) -> (res: Vec<u32>)
    ensures
        res@ == a@ + b@,
{
    let mut res = a.clone();
    let mut i: usize = 0;
    while i < b.len()
        invariant
            i <= b@.len(),
            res@ == a@ + b@.subrange(0, i as int),
        decreases b.len() - i,
    {
        res.push(b[i]);
        i = i + 1;
        assert(a@ + b@.subrange(0, i as int) == (a@ + b@.subrange(0, i - 1)).push(b@[i - 1]));
    }
    assert(b@.subrange(0, b@.len() as int) == b@);
    res
}

/// Whether two decks hold the same cards. The main and extra decks are compared as one
/// list, because the client transmits them together; the side deck keeps its boundary;
/// the order of the cards does not matter.
pub fn same_deck(left: &Deck, right: &Deck) -> (res: bool)
    ensures
        res == same_deck_spec(*left, *right),
{
    let left_main = concat(&left.main, &left.extra);
    let right_main = concat(&right.main, &right.extra);
    let main_same = same_counts(&left_main, &right_main);
    let side_same = same_counts(&left.side, &right.side);
    main_same && side_same
}

/// Deck comparison is an equivalence: every deck matches itself, the comparison is
/// symmetric, and it is transitive.
pub proof fn lemma_same_deck_equivalence(a: Deck, b: Deck, c: Deck)
    ensures
        same_deck_spec(a, a),
        same_deck_spec(a, b) ==> same_deck_spec(b, a),
        same_deck_spec(a, b) && same_deck_spec(b, c) ==> same_deck_spec(a, c),
{
}

/// Reordering the cards of a deck, or moving cards between its main and extra decks,
/// does not change what it matches.
pub proof fn lemma_same_deck_ignores_order(a: Deck, b: Deck)
    requires
        same_counts_spec(a.combined(), b.combined()),
        same_counts_spec(a.side@, b.side@),
    ensures
        same_deck_spec(a, b),
{
}

// ---------------------------------------------------------------------------
// Registered decks
// ---------------------------------------------------------------------------

/// What `base64`'s standard engine (`base64::engine::general_purpose::STANDARD`)
/// decodes the given text to, or `None` where it reports an error.
pub uninterp spec fn base64_decode(input: Seq<u8>) -> Option<Seq<u8>>;

/// Decodes standard, padded base64 with `base64::engine::general_purpose::STANDARD.decode`.
/// The result is named by `base64_decode`; the decoder is not restated here.
#[verifier::external_body]
pub(crate) fn decode_base64(input: &[u8]) -> (res: Option<Vec<u8>>)
    ensures
        match res {
            Some(bytes) => base64_decode(input@) == Some(bytes@),
            None => base64_decode(input@) is None,
        },
{
    base64::engine::general_purpose::STANDARD.decode(input).ok()
}

/// Why a registered deck could not be read.
#[derive(Clone, Copy, Debug, PartialEq, Eq, Structural)]
pub enum DeckError {
    /// The registered text is longer than 4096 bytes.
    TooLarge,
    /// The registered text is not valid base64.
    NotBase64,
    /// The decoded data is shorter than two words or not a whole number of words.
    NotUpdateDeck,
    /// The card counts are out of range or do not match the data.
    BadCounts,
}

/// The little-endian 32-bit word at word index `i`.
pub open spec fn le_word(bytes: Seq<u8>, i: int) -> int {
    bytes[4 * i] as int + 256 * (bytes[4 * i + 1] as int) + 65536 * (bytes[4 * i + 2] as int)
        + 16777216 * (bytes[4 * i + 3] as int)
}

/// The little-endian 32-bit words of `bytes`.
pub open spec fn le_words(bytes: Seq<u8>) -> Seq<u32> {
    Seq::new(bytes.len() / 4, |i: int| le_word(bytes, i) as u32)
}

/// The deck held by decoded UpdateDeck data: a main count, a side count, then the main
/// cards followed by the side cards; `None` where the data is malformed.
pub open spec fn spec_parse_update_deck(bytes: Seq<u8>) -> Result<(Seq<u32>, Seq<u32>), DeckError> {
    if bytes.len() < 8 || bytes.len() % 4 != 0 {
        Err(DeckError::NotUpdateDeck)
    } else {
        let words = le_words(bytes);
        let main = words[0] as int;
        let side = words[1] as int;
        if !(main > 0 && main <= 512 && side <= 512 && words.len() == main + side + 2) {
            Err(DeckError::BadCounts)
        } else {
            Ok((words.subrange(2, main + 2), words.subrange(main + 2, words.len() as int)))
        }
    }
}

/// What `decode_deck` returns for registered text whose bytes are `text`.
pub open spec fn spec_decode_deck(text: Seq<u8>) -> Result<(Seq<u32>, Seq<u32>), DeckError> {
    if text.len() > 4096 {
        Err(DeckError::TooLarge)
    } else {
        match base64_decode(text) {
            None => Err(DeckError::NotBase64),
            Some(bytes) => spec_parse_update_deck(bytes),
        }
    }
}

fn word_at(bytes: &Vec<u8>, i: usize) -> (w: u32)
    requires
        4 * i + 3 < bytes@.len(),
    ensures
        w == le_word(bytes@, i as int),
{
    let n = bytes.len();
    assert(4 * i + 3 < n);
    let b0 = bytes[4 * i] as u32;
    let b1 = bytes[4 * i + 1] as u32;
    let b2 = bytes[4 * i + 2] as u32;
    let b3 = bytes[4 * i + 3] as u32;
    b0 + 256 * b1 + 65536 * b2 + 16777216 * b3
}

/// Reads decoded UpdateDeck data into a deck; the extra deck stays empty because the
/// registration does not separate it from the main deck.
pub fn parse_update_deck(bytes: &Vec<u8>) -> (res: Result<Deck, DeckError>)
    ensures
        match res {
            Ok(deck) => spec_parse_update_deck(bytes@) == Ok::<(Seq<u32>, Seq<u32>), DeckError>(
                (deck.main@, deck.side@),
            ) && deck.extra@.len() == 0,
            Err(e) => spec_parse_update_deck(bytes@) == Err::<(Seq<u32>, Seq<u32>), DeckError>(e),
        },
{
    if bytes.len() < 8 || bytes.len() % 4 != 0 {
        return Err(DeckError::NotUpdateDeck);
    }
    let n = bytes.len() / 4;
    let mut words: Vec<u32> = Vec::new();
    let mut i: usize = 0;
    while i < n
        invariant
            n == bytes@.len() / 4,
            i <= n,
            words@ == le_words(bytes@).subrange(0, i as int),
        decreases n - i,
    {
        let w = word_at(bytes, i);
        words.push(w);
        i = i + 1;
        assert(words@ =~= le_words(bytes@).subrange(0, i as int));
    }
    assert(words@ =~= le_words(bytes@));
    let main = words[0] as usize;
    let side = words[1] as usize;
    if !(main > 0 && main <= 512 && side <= 512 && n == main + side + 2) {
        return Err(DeckError::BadCounts);
    }
    let main_cards = slice_to_vec(slice_subrange(words.as_slice(), 2, main + 2));
    let side_cards = slice_to_vec(slice_subrange(words.as_slice(), main + 2, n));
    Ok(Deck { main: main_cards, extra: Vec::new(), side: side_cards })
}

/// Reads the deck a participant registered: base64 of UpdateDeck data, at most 4096 bytes.
pub fn decode_deck(value: &str) -> (res: Result<Deck, DeckError>)
    ensures
        match res {
            Ok(deck) => spec_decode_deck(value.spec_bytes()) == Ok::<
                (Seq<u32>, Seq<u32>),
                DeckError,
            >((deck.main@, deck.side@)) && deck.extra@.len() == 0,
            Err(e) => spec_decode_deck(value.spec_bytes()) == Err::<(Seq<u32>, Seq<u32>), DeckError>(
                e,
            ),
        },
{
    let text = value.as_bytes();
    if text.len() > 4096 {
        return Err(DeckError::TooLarge);
    }
    let bytes = match decode_base64(text) {
        Some(bytes) => bytes,
        None => {
            return Err(DeckError::NotBase64);
        },
    };
    parse_update_deck(&bytes)
}

} // verus!
