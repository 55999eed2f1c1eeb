use vstd::prelude::*;
use crate::cards::{ClassicPlayingCard, CARDS};
use crate::encoded::{distinct, find, values, CardToken};
use crate::errors::GameErrors;

verus! {

/// The number of cards of a deck laid out in `m` rows of `n` columns.
pub fn setup_protocol(m: u32, n: u32) -> (r: u32)
    requires
        m * n <= u32::MAX,
    ensures
        r == m * n,
{
    m * n
}

/// The agreed table between card tokens and plaintext cards: the token at
/// place `i` stands for the card at place `i` of the deck's enumeration.
#[derive(Debug)]
pub struct CardMapping {
    tokens: Vec<CardToken>,
}

impl View for CardMapping {
    type V = Seq<Seq<u8>>;

    closed spec fn view(&self) -> Seq<Seq<u8>> {
        values(self.tokens@)
    }
}

/// The tokens that a mapping is built from: the first 52 of those offered.
pub open spec fn used(plaintexts: Seq<Seq<u8>>) -> Seq<Seq<u8>> {
    if plaintexts.len() <= CARDS {
        plaintexts
    } else {
        plaintexts.take(CARDS as int)
    }
}

/// The card that `token` stands for in the table `tokens`, if it is there.
pub open spec fn decoded(tokens: Seq<Seq<u8>>, token: Seq<u8>) -> Option<ClassicPlayingCard> {
    if tokens.contains(token) {
        Some(ClassicPlayingCard::at(tokens.index_of(token) as nat))
    } else {
        None
    }
}

/// The token that stands for `card` in the table `tokens`, if the table
/// reaches the card's place.
pub open spec fn encoded(tokens: Seq<Seq<u8>>, card: ClassicPlayingCard) -> Option<Seq<u8>> {
    if card.ordinal() < tokens.len() {
        Some(tokens[card.ordinal() as int])
    } else {
        None
    }
}

impl CardMapping {
    /// The table is a bijection: it holds at most one token for each card,
    /// and no token twice.
    pub open spec fn wf(&self) -> bool {
        &&& self@.len() <= CARDS
        &&& distinct(self@)
    }

    /// How many cards the table holds.
    pub fn len(&self) -> (r: usize)
        ensures
            r == self@.len(),
    {
        self.tokens.len()
    }

    /// The token that stands for `card`, if the table reaches its place.
    pub fn encode(&self, card: &ClassicPlayingCard) -> (r: Option<&CardToken>)
        ensures
            match r {
                Some(token) => encoded(self@, *card) == Some(token@),
                None => encoded(self@, *card).is_none(),
            },
    {
        let i: usize = card.index();
        if i < self.tokens.len() {
            Some(&self.tokens[i])
        } else {
            None
        }
    }

    /// The card that `token` stands for. A token that the table does not hold
    /// is refused as an invalid card.
    pub fn decode(&self, token: &CardToken) -> (r: Result<ClassicPlayingCard, GameErrors>)
        requires
            self.wf(),
        ensures
            match decoded(self@, token@) {
                Some(card) => r == Ok::<ClassicPlayingCard, GameErrors>(card),
                None => r == Err::<ClassicPlayingCard, GameErrors>(GameErrors::InvalidCard),
            },
    {
        match find(&self.tokens, token) {
            Some(i) => {
                proof {
                    assert(self@[i as int] == token@);
                    assert(self@.contains(token@));
                    let j = self@.index_of(token@);
                    assert(self@[j] == token@);
                    assert(j == i);
                }
                match ClassicPlayingCard::from_index(i) {
                    Some(card) => Ok(card),
                    None => Err(GameErrors::InvalidCard),
                }
            },
            None => Err(GameErrors::InvalidCard),
        }
    }
}

/// Builds the table from freshly sampled tokens, assigning them to the cards
/// in the order of the deck's enumeration. Tokens beyond the 52nd are not
/// used. The table is refused when two of the tokens used are the same.
pub fn encode_cards(plaintexts: Vec<CardToken>) -> (r: Option<CardMapping>)
    ensures
        match r {
            Some(mapping) => {
                &&& mapping.wf()
                &&& mapping@ == used(values(plaintexts@))
            },
            None => !distinct(used(values(plaintexts@))),
        },
{
    let mut tokens = plaintexts;
    if tokens.len() > CARDS {
        tokens.truncate(CARDS);
    }
    assert(values(tokens@) =~= used(values(plaintexts@)));
    let n: usize = tokens.len();
    let mut i: usize = 0;
    while i < n
        invariant
            n == tokens@.len(),
            i <= n,
            values(tokens@) == used(values(plaintexts@)),
            forall|a: int, b: int|
                0 <= a < i && 0 <= b < i && a != b ==> tokens@[a]@ != tokens@[b]@,
        decreases n - i,
    {
        let mut j: usize = 0;
        while j < i
            invariant
                n == tokens@.len(),
                i < n,
                j <= i,
                values(tokens@) == used(values(plaintexts@)),
                forall|a: int| 0 <= a < j ==> tokens@[a]@ != tokens@[i as int]@,
            decreases i - j,
        {
            if tokens[j].same(&tokens[i]) {
                proof {
                    let v = values(tokens@);
                    assert(v[j as int] == v[i as int]);
                }
                return None;
            }
            j += 1;
        }
        i += 1;
    }
    proof {
        let v = values(tokens@);
        assert forall|a: int, b: int|
            0 <= a < v.len() && 0 <= b < v.len() && a != b implies v[a] != v[b] by {
            assert(v[a] == tokens@[a]@);
            assert(v[b] == tokens@[b]@);
        }
    }
    Some(CardMapping { tokens })
}

/// Decoding the token of a card that the table holds gives that card back.
pub proof fn lemma_decode_encode(mapping: CardMapping, card: ClassicPlayingCard)
    requires
        mapping.wf(),
        card.ordinal() < mapping@.len(),
    ensures
        encoded(mapping@, card).is_some(),
        decoded(mapping@, encoded(mapping@, card).unwrap()) == Some(card),
{
    let tokens = mapping@;
    let token = tokens[card.ordinal() as int];
    assert(tokens.contains(token));
    let j = tokens.index_of(token);
    assert(tokens[j] == token);
    assert(j == card.ordinal());
    crate::cards::lemma_at_ordinal(card);
}

/// Encoding the card of a token that the table holds gives that token back.
pub proof fn lemma_encode_decode(mapping: CardMapping, token: Seq<u8>)
    requires
        mapping.wf(),
        mapping@.contains(token),
    ensures
        decoded(mapping@, token).is_some(),
        encoded(mapping@, decoded(mapping@, token).unwrap()) == Some(token),
{
    let tokens = mapping@;
    let j = tokens.index_of(token);
    assert(tokens[j] == token);
    crate::cards::lemma_ordinal_at(j as nat);
}

/// A token that the table does not hold stands for no card.
pub proof fn lemma_decode_outside(mapping: CardMapping, token: Seq<u8>)
    requires
        !mapping@.contains(token),
    ensures
        decoded(mapping@, token).is_none(),
{
}

/// Two tokens of the table that stand for the same card are one token.
pub proof fn lemma_decode_injective(mapping: CardMapping, a: Seq<u8>, b: Seq<u8>)
    requires
        mapping.wf(),
        mapping@.contains(a),
        mapping@.contains(b),
        decoded(mapping@, a) == decoded(mapping@, b),
    ensures
        a == b,
{
    lemma_encode_decode(mapping, a);
    lemma_encode_decode(mapping, b);
}

} // verus!
