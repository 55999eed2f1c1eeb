use vstd::prelude::*;
use crate::cards::ClassicPlayingCard;
use crate::deck::CardMapping;
use crate::encoded::{CardToken, MaskedCard};
use crate::errors::GameErrors;
use crate::keys::Contributors;
use crate::shares::{
    complete, find_share, has_share, keys_of, lemma_has_share_iff_key, missing, open_card, opened,
    views, RevealShare, ShareView,
};

verus! {

/// How far the opening of one masked card has come.
#[derive(Debug, Clone, Copy, PartialEq, Eq, Structural)]
pub enum RevealState {
    /// No share has arrived.
    Masked,
    /// Shares are arriving.
    Collecting,
    /// The card is open.
    Opened(ClassicPlayingCard),
    /// The opening failed for good.
    Failed(GameErrors),
}

/// The opening of one masked card, as one participant sees it: the shares
/// that have arrived, and how far the opening has come. The masked card
/// itself is never changed by it.
#[derive(Debug)]
pub struct CardReveal {
    card: MaskedCard,
    shares: Vec<RevealShare>,
    state: RevealState,
}

/// What becomes of the state when the card is asked for with `outcome`.
pub open spec fn settled(state: RevealState, outcome: Result<ClassicPlayingCard, GameErrors>)
    -> RevealState {
    match outcome {
        Ok(card) => RevealState::Opened(card),
        Err(GameErrors::MissingShares) => state,
        Err(e) => RevealState::Failed(e),
    }
}

impl CardReveal {
    /// The masked card.
    pub closed spec fn card(&self) -> Seq<u8> {
        self.card@
    }

    /// The shares that have arrived, in the order of their arrival.
    pub closed spec fn shares(&self) -> Seq<ShareView> {
        views(self.shares@)
    }

    /// How far the opening has come.
    pub closed spec fn state(&self) -> RevealState {
        self.state
    }

    /// Whether shares are still taken.
    pub open spec fn open_for_shares(&self) -> bool {
        self.state() == RevealState::Masked || self.state() == RevealState::Collecting
    }

    /// No player has two shares in it, and a card without shares is masked.
    pub open spec fn wf(&self) -> bool {
        &&& keys_of(self.shares()).no_duplicates()
        &&& self.state() == RevealState::Masked ==> self.shares().len() == 0
    }

    /// The opening of `card`, before any share has arrived.
    pub fn new(card: MaskedCard) -> (r: Self)
        ensures
            r.wf(),
            r.card() == card@,
            r.shares().len() == 0,
            r.state() == RevealState::Masked,
    {
        CardReveal { card, shares: Vec::new(), state: RevealState::Masked }
    }

    /// The masked card.
    pub fn masked_card(&self) -> (r: &MaskedCard)
        ensures
            r@ == self.card(),
    {
        &self.card
    }

    /// The shares that have arrived.
    pub fn arrived(&self) -> (r: &Vec<RevealShare>)
        ensures
            views(r@) == self.shares(),
    {
        &self.shares
    }

    /// How far the opening has come.
    pub fn current_state(&self) -> (r: RevealState)
        ensures
            r == self.state(),
    {
        self.state
    }

    /// Takes a share that has arrived. It is kept, behind those already
    /// there, exactly when shares are still taken and its player has none
    /// yet; a player's second share changes nothing.
    pub fn add_share(&mut self, share: RevealShare) -> (taken: bool)
        requires
            old(self).wf(),
        ensures
            final(self).wf(),
            final(self).card() == old(self).card(),
            taken <==> old(self).open_for_shares() && !has_share(old(self).shares(), share@.key),
            taken ==> {
                &&& final(self).shares() == old(self).shares().push(share@)
                &&& final(self).state() == RevealState::Collecting
            },
            !taken ==> {
                &&& final(self).shares() == old(self).shares()
                &&& final(self).state() == old(self).state()
            },
    {
        match self.state {
            RevealState::Opened(_) => {
                return false;
            },
            RevealState::Failed(_) => {
                return false;
            },
            _ => {},
        }
        if find_share(&self.shares, &share.pk).is_some() {
            return false;
        }
        let ghost before = self.shares();
        self.shares.push(share);
        self.state = RevealState::Collecting;
        proof {
            assert(self.shares() =~= before.push(share@));
            let keys = keys_of(self.shares());
            assert forall|i: int, j: int|
                0 <= i < keys.len() && 0 <= j < keys.len() && i != j implies keys[i]
                != keys[j] by {
                lemma_has_share_iff_key(before, share@.key);
                if i < before.len() {
                    assert(keys[i] == keys_of(before)[i]);
                }
                if j < before.len() {
                    assert(keys[j] == keys_of(before)[j]);
                }
            }
        }
        true
    }

    /// The first contributor whose share has not arrived; none where the
    /// card can be unmasked.
    pub fn pending(&self, contributors: &Contributors) -> (r: Option<usize>)
        ensures
            match r {
                Some(k) => {
                    &&& k < contributors.keys().len()
                    &&& !has_share(self.shares(), contributors.keys()[k as int])
                    &&& forall|j: int|
                        0 <= j < k ==> has_share(self.shares(), #[trigger] contributors.keys()[j])
                },
                None => complete(contributors.keys(), self.shares()),
            },
    {
        missing(contributors, &self.shares)
    }

    /// Asks for the card. `unmasked` is what unmasking the card with the
    /// shares gave. A card that is open stays open and one that failed stays
    /// failed. Otherwise the card is opened with the shares that have
    /// arrived: where shares are missing the state stays as it is, so that
    /// the card can be asked for again; any other failure is for good.
    pub fn collect(
        &mut self,
        contributors: &Contributors,
        card_mappings: &CardMapping,
        unmasked: Option<&CardToken>,
    ) -> (r: Result<ClassicPlayingCard, GameErrors>)
        requires
            old(self).wf(),
            card_mappings.wf(),
        ensures
            final(self).wf(),
            final(self).card() == old(self).card(),
            final(self).shares() == old(self).shares(),
            match old(self).state() {
                RevealState::Opened(card) => r == Ok::<ClassicPlayingCard, GameErrors>(card)
                    && final(self).state() == old(self).state(),
                RevealState::Failed(e) => r == Err::<ClassicPlayingCard, GameErrors>(e)
                    && final(self).state() == old(self).state(),
                _ => {
                    &&& r == opened(
                        contributors.keys(),
                        old(self).shares(),
                        card_mappings@,
                        match unmasked {
                            Some(token) => Some(token@),
                            None => None,
                        },
                    )
                    &&& final(self).state() == settled(old(self).state(), r)
                },
            },
    {
        match self.state {
            RevealState::Opened(card) => Ok(card),
            RevealState::Failed(e) => Err(e),
            _ => {
                let outcome = open_card(contributors, &self.shares, card_mappings, unmasked);
                match outcome {
                    Ok(card) => {
                        self.state = RevealState::Opened(card);
                    },
                    Err(GameErrors::MissingShares) => {},
                    Err(e) => {
                        self.state = RevealState::Failed(e);
                    },
                }
                outcome
            },
        }
    }
}

} // verus!
