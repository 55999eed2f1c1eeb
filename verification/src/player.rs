use vstd::prelude::*;
use crate::cards::ClassicPlayingCard;
use crate::deal::Dealt;
use crate::deck::CardMapping;
use crate::encoded::{
    distinct, find, lemma_values_push, values, CardToken, KeyProof, MaskedCard, PublicKey,
    RevealProof, RevealToken, SecretKey,
};
use crate::errors::GameErrors;
use crate::keys::{Contributors, Registration};
use crate::shares::{
    has_share, lemma_key_has_first, open_card, opened, views, RevealShare, ShareView,
};

verus! {

/// One player, as the player's own process holds it: the name, the key pair
/// with the proof of its ownership, the masked cards of the hand, and beside
/// each card what the player has privately seen of it.
#[derive(Debug)]
pub struct Player {
    name: Vec<u8>,
    sk: SecretKey,
    pk: PublicKey,
    proof_key: KeyProof,
    cards: Vec<MaskedCard>,
    opened_cards: Vec<Option<ClassicPlayingCard>>,
}

impl Player {
    /// The player's name.
    pub closed spec fn name(&self) -> Seq<u8> {
        self.name@
    }

    /// The player's public key.
    pub closed spec fn key(&self) -> Seq<u8> {
        self.pk@
    }

    /// The player's secret key.
    pub closed spec fn secret(&self) -> Seq<u8> {
        self.sk@
    }

    /// The proof that the player knows the secret key.
    pub closed spec fn proof_key(&self) -> Seq<u8> {
        self.proof_key@
    }

    /// The masked cards of the hand, in the order in which they came.
    pub closed spec fn cards(&self) -> Seq<Seq<u8>> {
        values(self.cards@)
    }

    /// Beside each card of the hand, what the player has seen of it.
    pub closed spec fn opened_cards(&self) -> Seq<Option<ClassicPlayingCard>> {
        self.opened_cards@
    }

    /// Each card of the hand has its place for what was seen of it, and the
    /// hand holds no card twice.
    pub open spec fn wf(&self) -> bool {
        &&& self.opened_cards().len() == self.cards().len()
        &&& distinct(self.cards())
    }

    /// The same player with the same hand.
    pub open spec fn same_hand(&self, other: &Player) -> bool {
        &&& self.name() == other.name()
        &&& self.key() == other.key()
        &&& self.secret() == other.secret()
        &&& self.proof_key() == other.proof_key()
        &&& self.cards() == other.cards()
    }

    /// A player with a freshly generated key pair and the proof of its
    /// ownership, and with no cards.
    pub fn new(name: &Vec<u8>, pk: PublicKey, sk: SecretKey, proof_key: KeyProof) -> (r: Self)
        ensures
            r.wf(),
            r.name() == name@,
            r.key() == pk@,
            r.secret() == sk@,
            r.proof_key() == proof_key@,
            r.cards().len() == 0,
    {
        let copy = name.clone();
        assert(copy@ =~= name@);
        Player { name: copy, sk, pk, proof_key, cards: Vec::new(), opened_cards: Vec::new() }
    }

    /// The player's name.
    pub fn get_name(&self) -> (r: &Vec<u8>)
        ensures
            r@ == self.name(),
    {
        &self.name
    }

    /// The player's public key.
    pub fn public_key(&self) -> (r: &PublicKey)
        ensures
            r@ == self.key(),
    {
        &self.pk
    }

    /// The player's secret key, for the player's own computations.
    pub fn secret_key(&self) -> (r: &SecretKey)
        ensures
            r@ == self.secret(),
    {
        &self.sk
    }

    /// What the player publishes to join a game.
    pub fn registration(&self) -> (r: Registration)
        ensures
            r.name@ == self.name(),
            r.pk@ == self.key(),
            r.proof_key@ == self.proof_key(),
    {
        Registration::new(self.name.clone(), self.pk.clone(), self.proof_key.clone())
    }

    /// The masked cards of the hand.
    pub fn hand(&self) -> (r: &Vec<MaskedCard>)
        ensures
            values(r@) == self.cards(),
    {
        &self.cards
    }

    /// What the player has seen of each card of the hand.
    pub fn seen(&self) -> (r: &Vec<Option<ClassicPlayingCard>>)
        ensures
            r@ == self.opened_cards(),
    {
        &self.opened_cards
    }

    /// Takes a dealt card into the hand, behind the others and unseen. A card
    /// that the hand already holds is not assigned a second time: it is
    /// refused as a slot conflict and the hand stays as it was.
    pub fn receive_card(&mut self, card: MaskedCard) -> (r: Result<(), GameErrors>)
        requires
            old(self).wf(),
        ensures
            final(self).wf(),
            final(self).name() == old(self).name(),
            final(self).key() == old(self).key(),
            final(self).secret() == old(self).secret(),
            final(self).proof_key() == old(self).proof_key(),
            r.is_ok() <==> !old(self).cards().contains(card@),
            r.is_ok() ==> {
                &&& final(self).cards() == old(self).cards().push(card@)
                &&& final(self).opened_cards() == old(self).opened_cards().push(
                    None::<ClassicPlayingCard>,
                )
            },
            r.is_err() ==> {
                &&& r == Err::<(), GameErrors>(GameErrors::SlotConflict)
                &&& final(self).cards() == old(self).cards()
                &&& final(self).opened_cards() == old(self).opened_cards()
            },
    {
        if find(&self.cards, &card).is_some() {
            return Err(GameErrors::SlotConflict);
        }
        proof {
            lemma_values_push(self.cards@, card);
        }
        self.cards.push(card);
        self.opened_cards.push(None);
        Ok(())
    }

    /// Takes the cards that a deal has set apart for the hand at place
    /// `seat`, in their order and unseen. All of them are taken or none: the
    /// hand is refused as a slot conflict, and the player's cards stay as they
    /// were, where the deal has no such hand or where a card would then be
    /// held twice.
    pub fn receive_hand(&mut self, dealt: &Dealt, seat: usize) -> (r: Result<(), GameErrors>)
        requires
            old(self).wf(),
        ensures
            final(self).wf(),
            final(self).name() == old(self).name(),
            final(self).key() == old(self).key(),
            final(self).secret() == old(self).secret(),
            final(self).proof_key() == old(self).proof_key(),
            r.is_ok() <==> seat < dealt.hands@.len() && distinct(
                old(self).cards() + values(dealt.hands@[seat as int]@),
            ),
            r.is_ok() ==> {
                &&& final(self).cards() == old(self).cards() + values(dealt.hands@[seat as int]@)
                &&& final(self).opened_cards() == old(self).opened_cards() + unseen(
                    dealt.hands@[seat as int]@.len(),
                )
            },
            r.is_err() ==> {
                &&& r == Err::<(), GameErrors>(GameErrors::SlotConflict)
                &&& final(self).cards() == old(self).cards()
                &&& final(self).opened_cards() == old(self).opened_cards()
            },
    {
        if seat >= dealt.hands.len() {
            return Err(GameErrors::SlotConflict);
        }
        let hand = &dealt.hands[seat];
        let n: usize = hand.len();
        let ghost held = self.cards();
        let ghost offered = values(hand@);
        let mut i: usize = 0;
        while i < n
            invariant
                n == hand@.len(),
                i <= n,
                seat < dealt.hands@.len(),
                hand@ == dealt.hands@[seat as int]@,
                held == self.cards(),
                offered == values(hand@),
                distinct(held + offered.take(i as int)),
                self.wf(),
                self.name() == old(self).name(),
                self.key() == old(self).key(),
                self.secret() == old(self).secret(),
                self.proof_key() == old(self).proof_key(),
                self.cards() == old(self).cards(),
                self.opened_cards() == old(self).opened_cards(),
            decreases n - i,
        {
            let ghost so_far = held + offered.take(i as int);
            let ghost next = held + offered.take(i + 1);
            assert(next =~= so_far.push(offered[i as int]));
            let held_at = find(&self.cards, &hand[i]);
            let offered_at = find(hand, &hand[i]);
            assert(offered[i as int] == hand@[i as int]@);
            assert(offered.contains(offered[i as int]));
            if held_at.is_some() || offered_at != Some(i) {
                proof {
                    let all = held + offered;
                    assert(all[held.len() + i] == offered[i as int]);
                    if held.contains(offered[i as int]) {
                        let k = held.index_of(offered[i as int]);
                        assert(all[k] == held[k]);
                    } else {
                        let k = offered.index_of_first(offered[i as int]).unwrap();
                        offered.index_of_first_ensures(offered[i as int]);
                        assert(all[held.len() + k] == offered[k]);
                        assert(k != i);
                    }
                    assert(!distinct(all));
                }
                return Err(GameErrors::SlotConflict);
            }
            proof {
                offered.index_of_first_ensures(offered[i as int]);
                assert forall|a: int, b: int|
                    0 <= a < next.len() && 0 <= b < next.len() && a != b implies next[a]
                    != next[b] by {
                    if a < so_far.len() && b < so_far.len() {
                        assert(so_far[a] != so_far[b]);
                    } else {
                        let c = if a < b {
                            a
                        } else {
                            b
                        };
                        if c < held.len() {
                            assert(held[c] == next[c]);
                            assert(held.contains(held[c]));
                        } else {
                            assert(offered[c - held.len()] == next[c]);
                        }
                    }
                }
            }
            i += 1;
        }
        assert(offered.take(n as int) =~= offered);
        let mut i: usize = 0;
        while i < n
            invariant
                n == hand@.len(),
                i <= n,
                seat < dealt.hands@.len(),
                hand@ == dealt.hands@[seat as int]@,
                offered == values(hand@),
                held == old(self).cards(),
                distinct(held + offered),
                self.wf(),
                self.name() == old(self).name(),
                self.key() == old(self).key(),
                self.secret() == old(self).secret(),
                self.proof_key() == old(self).proof_key(),
                self.cards() == held + offered.take(i as int),
                self.opened_cards() == old(self).opened_cards() + unseen(i as nat),
            decreases n - i,
        {
            let ghost all = held + offered;
            let ghost so_far = held + offered.take(i as int);
            let card = hand[i].clone();
            proof {
                if so_far.contains(card@) {
                    let k = so_far.index_of(card@);
                    assert(all[k] == so_far[k]);
                    assert(all[held.len() + i] == card@);
                }
            }
            let taken = self.receive_card(card);
            assert(taken.is_ok());
            assert(self.cards() =~= held + offered.take(i + 1));
            assert(self.opened_cards() =~= old(self).opened_cards() + unseen((i + 1) as nat));
            i += 1;
        }
        assert(offered.take(n as int) =~= offered);
        Ok(())
    }

    /// The place of the hand that holds `card`. A card that the hand does not
    /// hold is not found.
    pub fn find_card(&self, card: &MaskedCard) -> (r: Result<usize, GameErrors>)
        ensures
            r.is_ok() <==> self.cards().contains(card@),
            match r {
                Ok(i) => self.cards().index_of_first(card@) == Some(i as int) && i
                    < self.cards().len() && self.cards()[i as int] == card@,
                Err(e) => e == GameErrors::CardNotFound && self.cards().index_of_first(
                    card@,
                ).is_none(),
            },
    {
        match find(&self.cards, card) {
            Some(i) => Ok(i),
            None => Err(GameErrors::CardNotFound),
        }
    }

    /// The first step of a private opening: the player's own share joins
    /// the shares that the other players have sent, behind them. The reveal
    /// token and its proof are those that the player has computed for `card`.
    /// The card must be one of the hand; for any other card no share is
    /// added.
    pub fn add_own_share(
        &self,
        reveal_tokens: &mut Vec<RevealShare>,
        card: &MaskedCard,
        reveal_token: RevealToken,
        reveal_proof: RevealProof,
    ) -> (r: Result<(), GameErrors>)
        ensures
            r.is_ok() <==> self.cards().contains(card@),
            r.is_ok() ==> {
                &&& views(final(reveal_tokens)@) == views(old(reveal_tokens)@).push(
                    ShareView { token: reveal_token@, proof: reveal_proof@, key: self.key() },
                )
                &&& has_share(views(final(reveal_tokens)@), self.key())
            },
            r.is_err() ==> {
                &&& r == Err::<(), GameErrors>(GameErrors::CardNotFound)
                &&& views(final(reveal_tokens)@) == views(old(reveal_tokens)@)
            },
    {
        if find(&self.cards, card).is_none() {
            return Err(GameErrors::CardNotFound);
        }
        let own = self.compute_reveal_token(reveal_token, reveal_proof);
        let ghost before = views(reveal_tokens@);
        reveal_tokens.push(own);
        proof {
            let after = views(reveal_tokens@);
            assert(after =~= before.push(own@));
            lemma_key_has_first(after, self.key(), before.len() as int);
        }
        Ok(())
    }

    /// Opens a card of the hand for the player alone. `reveal_tokens` holds
    /// the shares of the other players and the player's own; `unmasked` is
    /// what unmasking the card with them gave. The card must be one of the
    /// hand; it is then opened as it would be opened for everyone, and what
    /// it shows is noted beside its place in the hand. The masked cards stay
    /// as they are, and a failure changes nothing.
    pub fn peek_at_card(
        &mut self,
        contributors: &Contributors,
        reveal_tokens: &Vec<RevealShare>,
        card_mappings: &CardMapping,
        card: &MaskedCard,
        unmasked: Option<&CardToken>,
    ) -> (r: Result<(), GameErrors>)
        requires
            old(self).wf(),
            card_mappings.wf(),
        ensures
            final(self).wf(),
            final(self).same_hand(old(self)),
            r == peeked(
                old(self).cards(),
                card@,
                opened(
                    contributors.keys(),
                    views(reveal_tokens@),
                    card_mappings@,
                    match unmasked {
                        Some(token) => Some(token@),
                        None => None,
                    },
                ),
            ),
            final(self).opened_cards() == noted(
                old(self).cards(),
                old(self).opened_cards(),
                card@,
                opened(
                    contributors.keys(),
                    views(reveal_tokens@),
                    card_mappings@,
                    match unmasked {
                        Some(token) => Some(token@),
                        None => None,
                    },
                ),
            ),
    {
        let i = match self.find_card(card) {
            Ok(i) => i,
            Err(e) => {
                return Err(e);
            },
        };
        let opened_card = match open_card(contributors, reveal_tokens, card_mappings, unmasked) {
            Ok(opened_card) => opened_card,
            Err(e) => {
                return Err(e);
            },
        };
        self.opened_cards.set(i, Some(opened_card));
        Ok(())
    }

    /// The player's share in the opening of a card: the reveal token and its
    /// proof, computed with the player's secret key, under the player's
    /// public key.
    pub fn compute_reveal_token(&self, reveal_token: RevealToken, reveal_proof: RevealProof) -> (r:
        RevealShare)
        ensures
            r@ == (ShareView { token: reveal_token@, proof: reveal_proof@, key: self.key() }),
    {
        RevealShare::new(reveal_token, reveal_proof, self.pk.clone())
    }
}

/// Nothing seen yet, beside each of `count` cards.
pub open spec fn unseen(count: nat) -> Seq<Option<ClassicPlayingCard>> {
    Seq::new(count, |i: int| None::<ClassicPlayingCard>)
}

/// What a private opening answers: the card must be in the hand, and then
/// the answer is that of the opening.
pub open spec fn peeked(
    cards: Seq<Seq<u8>>,
    card: Seq<u8>,
    outcome: Result<ClassicPlayingCard, GameErrors>,
) -> Result<(), GameErrors> {
    match cards.index_of_first(card) {
        None => Err(GameErrors::CardNotFound),
        Some(_) => match outcome {
            Ok(_) => Ok(()),
            Err(e) => Err(e),
        },
    }
}

/// What a private opening leaves of the notes beside the hand: the card that
/// was opened stands beside the place of the masked card, and all else is as
/// before.
pub open spec fn noted(
    cards: Seq<Seq<u8>>,
    notes: Seq<Option<ClassicPlayingCard>>,
    card: Seq<u8>,
    outcome: Result<ClassicPlayingCard, GameErrors>,
) -> Seq<Option<ClassicPlayingCard>> {
    match (cards.index_of_first(card), outcome) {
        (Some(i), Ok(opened_card)) => notes.update(i, Some(opened_card)),
        _ => notes,
    }
}

/// A card that a player has privately opened and that is later opened for
/// everyone shows the same card both times: where both unmaskings give the
/// same token and both openings succeed, the card noted in the hand is the
/// card that everyone sees.
pub proof fn lemma_peek_agrees_with_open(
    keys: Seq<Seq<u8>>,
    private_shares: Seq<ShareView>,
    public_shares: Seq<ShareView>,
    tokens: Seq<Seq<u8>>,
    unmasked: Seq<u8>,
    cards: Seq<Seq<u8>>,
    notes: Seq<Option<ClassicPlayingCard>>,
    card: Seq<u8>,
)
    requires
        notes.len() == cards.len(),
        cards.contains(card),
        opened(keys, private_shares, tokens, Some(unmasked)).is_ok(),
        opened(keys, public_shares, tokens, Some(unmasked)).is_ok(),
    ensures
        cards.index_of_first(card).is_some(),
        noted(
            cards,
            notes,
            card,
            opened(keys, private_shares, tokens, Some(unmasked)),
        )[cards.index_of_first(card).unwrap()] == Some(
            opened(keys, public_shares, tokens, Some(unmasked)).unwrap(),
        ),
{
    cards.index_of_first_ensures(card);
}

/// A private opening of a card of the hand succeeds exactly when the card
/// can be opened, and then notes the opened card beside the card's place.
pub proof fn lemma_peek_notes_the_opened_card(
    cards: Seq<Seq<u8>>,
    notes: Seq<Option<ClassicPlayingCard>>,
    card: Seq<u8>,
    outcome: Result<ClassicPlayingCard, GameErrors>,
)
    requires
        notes.len() == cards.len(),
        cards.contains(card),
    ensures
        peeked(cards, card, outcome).is_ok() <==> outcome.is_ok(),
        cards.index_of_first(card).is_some(),
        outcome.is_ok() ==> noted(cards, notes, card, outcome)[cards.index_of_first(
            card,
        ).unwrap()] == Some(outcome.unwrap()),
        !outcome.is_ok() ==> noted(cards, notes, card, outcome) == notes,
{
    cards.index_of_first_ensures(card);
}

/// A private opening never changes the masked cards of the hand, nor what
/// was noted beside any other place of it.
pub proof fn lemma_peek_touches_one_note(
    cards: Seq<Seq<u8>>,
    notes: Seq<Option<ClassicPlayingCard>>,
    card: Seq<u8>,
    outcome: Result<ClassicPlayingCard, GameErrors>,
    place: int,
)
    requires
        notes.len() == cards.len(),
        0 <= place < cards.len(),
        cards.index_of_first(card) != Some(place),
    ensures
        noted(cards, notes, card, outcome).len() == notes.len(),
        noted(cards, notes, card, outcome)[place] == notes[place],
{
    cards.index_of_first_ensures(card);
}

} // verus!
