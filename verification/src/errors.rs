use vstd::prelude::*;
use vstd::string::*;

verus! {

/// The ways in which a step of a game run is refused.
#[derive(Debug, Clone, Copy, PartialEq, Eq, Structural)]
pub enum GameErrors {
    /// The card is not among those the player holds.
    CardNotFound,
    /// An unmasked token is not a key of the agreed card mapping.
    InvalidCard,
    /// A proof of key ownership, of a shuffle or of a reveal share was refused.
    VerificationFailed,
    /// Some key-contributing player has not yet sent a reveal share.
    MissingShares,
    /// A dealing plan leaves the deck or uses a position twice.
    SlotConflict,
}

impl GameErrors {
    /// The sentence that reports the error.
    pub open spec fn text(self) -> Seq<char> {
        match self {
            GameErrors::CardNotFound => "No such card in hand"@,
            GameErrors::InvalidCard => "Invalid card"@,
            GameErrors::VerificationFailed => "Proof verification failed"@,
            GameErrors::MissingShares => "Reveal shares are missing"@,
            GameErrors::SlotConflict => "Dealing plan does not fit the deck"@,
        }
    }

    /// The sentence that reports the error.
    pub fn message(&self) -> (r: String)
        ensures
            r@ == self.text(),
    {
        match self {
            GameErrors::CardNotFound => String::from_str("No such card in hand"),
            GameErrors::InvalidCard => String::from_str("Invalid card"),
            GameErrors::VerificationFailed => String::from_str("Proof verification failed"),
            GameErrors::MissingShares => String::from_str("Reveal shares are missing"),
            GameErrors::SlotConflict => String::from_str("Dealing plan does not fit the deck"),
        }
    }

    /// Whether the game run can go on after the error: only missing shares
    /// can still arrive; every other error ends the run.
    pub fn is_recoverable(&self) -> (r: bool)
        ensures
            r == (*self == GameErrors::MissingShares),
    {
        match self {
            GameErrors::MissingShares => true,
            _ => false,
        }
    }
}

} // verus!
