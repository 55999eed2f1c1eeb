use vstd::prelude::*;
use crate::encoded::{values, MaskedCard};
use crate::errors::GameErrors;

verus! {

/// Where a chain of shuffles stands.
#[derive(Debug, Clone, Copy, PartialEq, Eq, Structural)]
pub enum ChainStatus {
    /// The player at this place of the turn order is to shuffle next.
    Awaiting(usize),
    /// Every player has shuffled and every shuffle was accepted.
    Complete,
    /// A shuffle was refused; the game run is over.
    Aborted,
}

/// The chain of shuffles of one game: each player in turn shuffles and
/// remasks the deck that the player before left, and the new deck replaces
/// the old one once the proof of the shuffle was verified.
#[derive(Debug)]
pub struct ShuffleChain {
    deck: Vec<MaskedCard>,
    players: usize,
    turn: usize,
    aborted: bool,
}

impl ShuffleChain {
    /// The current deck.
    pub closed spec fn deck(&self) -> Seq<Seq<u8>> {
        values(self.deck@)
    }

    /// How many players take a turn.
    pub closed spec fn players(&self) -> usize {
        self.players
    }

    /// How many shuffles were accepted.
    pub closed spec fn turn(&self) -> usize {
        self.turn
    }

    /// Whether a shuffle was refused.
    pub closed spec fn aborted(&self) -> bool {
        self.aborted
    }

    /// No more shuffles were accepted than there are players.
    pub open spec fn wf(&self) -> bool {
        self.turn() <= self.players()
    }

    /// Where the chain stands.
    pub open spec fn status(&self) -> ChainStatus {
        if self.aborted() {
            ChainStatus::Aborted
        } else if self.turn() < self.players() {
            ChainStatus::Awaiting(self.turn())
        } else {
            ChainStatus::Complete
        }
    }

    /// Whether `verdict` and `length` let a new deck replace the current one:
    /// a player is awaited, the proof was verified, and the new deck has as
    /// many cards as the current one.
    pub open spec fn accepts(&self, verified: bool, length: nat) -> bool {
        &&& self.status() is Awaiting
        &&& verified
        &&& length == self.deck().len()
    }

    /// A chain that starts from the freshly masked deck, for `players`
    /// players.
    pub fn new(deck: Vec<MaskedCard>, players: usize) -> (r: Self)
        ensures
            r.wf(),
            r.deck() == values(deck@),
            r.players() == players,
            r.turn() == 0,
            !r.aborted(),
    {
        ShuffleChain { deck, players, turn: 0, aborted: false }
    }

    /// Where the chain stands.
    pub fn current_status(&self) -> (r: ChainStatus)
        requires
            self.wf(),
        ensures
            r == self.status(),
    {
        if self.aborted {
            ChainStatus::Aborted
        } else if self.turn < self.players {
            ChainStatus::Awaiting(self.turn)
        } else {
            ChainStatus::Complete
        }
    }

    /// The current deck: the input of the next shuffle.
    pub fn current_deck(&self) -> (r: &Vec<MaskedCard>)
        ensures
            values(r@) == self.deck(),
    {
        &self.deck
    }

    /// Takes the shuffle of the player awaited. `verified` is the verdict on
    /// the proof that `new_deck` is a shuffle of the current deck. Where the
    /// shuffle is accepted, `new_deck` becomes the current deck and the turn
    /// passes on. Where a player is awaited and the shuffle is not accepted,
    /// the chain is aborted and keeps its deck. A chain that awaits no player
    /// refuses every shuffle and does not change.
    pub fn accept(&mut self, new_deck: Vec<MaskedCard>, verified: bool) -> (r: Result<
        (),
        GameErrors,
    >)
        requires
            old(self).wf(),
        ensures
            final(self).wf(),
            final(self).players() == old(self).players(),
            final(self).deck().len() == old(self).deck().len(),
            r.is_ok() <==> old(self).accepts(verified, new_deck@.len()),
            r.is_err() ==> r == Err::<(), GameErrors>(GameErrors::VerificationFailed),
            r.is_ok() ==> {
                &&& final(self).deck() == values(new_deck@)
                &&& final(self).turn() == old(self).turn() + 1
                &&& !final(self).aborted()
            },
            r.is_err() ==> {
                &&& final(self).deck() == old(self).deck()
                &&& final(self).turn() == old(self).turn()
                &&& final(self).aborted() == (old(self).aborted() || old(self).status() is Awaiting)
            },
    {
        if self.aborted || self.turn >= self.players {
            return Err(GameErrors::VerificationFailed);
        }
        if !verified || new_deck.len() != self.deck.len() {
            self.aborted = true;
            return Err(GameErrors::VerificationFailed);
        }
        self.deck = new_deck;
        self.turn = self.turn + 1;
        Ok(())
    }

    /// The deck to deal from: the current deck, once the chain is complete.
    pub fn canonical_deck(&self) -> (r: Option<&Vec<MaskedCard>>)
        requires
            self.wf(),
        ensures
            match r {
                Some(deck) => self.status() == ChainStatus::Complete && values(deck@)
                    == self.deck(),
                None => self.status() != ChainStatus::Complete,
            },
    {
        if !self.aborted && self.turn >= self.players {
            Some(&self.deck)
        } else {
            None
        }
    }
}

/// Whether every verifier has accepted: the verdict on a shuffle that
/// several players have checked, each for themselves.
pub fn unanimous(verdicts: &Vec<bool>) -> (r: bool)
    ensures
        r == (forall|i: int| 0 <= i < verdicts@.len() ==> verdicts@[i]),
{
    let mut i: usize = 0;
    while i < verdicts.len()
        invariant
            i <= verdicts@.len(),
            forall|k: int| 0 <= k < i ==> verdicts@[k],
        decreases verdicts@.len() - i,
    {
        if !verdicts[i] {
            return false;
        }
        i += 1;
    }
    true
}

/// Once a shuffle was refused, the chain accepts no other: it does not
/// proceed, whatever the verdict on a later shuffle.
pub proof fn lemma_refusal_is_final(chain: ShuffleChain, verified: bool, length: nat)
    requires
        chain.aborted(),
    ensures
        chain.status() == ChainStatus::Aborted,
        !chain.accepts(verified, length),
{
}

/// A chain is complete exactly when it was never refused and as many
/// shuffles were accepted as there are players.
pub proof fn lemma_complete_after_all_turns(chain: ShuffleChain)
    requires
        chain.wf(),
    ensures
        chain.status() == ChainStatus::Complete <==> !chain.aborted() && chain.turn()
            == chain.players(),
{
}

} // verus!
