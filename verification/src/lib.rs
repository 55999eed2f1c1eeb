//! Orchestration of a mental-poker game: deck encoding, key registration,
//! the verifiable shuffle chain, dealing, and the collection of reveal shares.
//!
//! The cryptography itself (key generation, masking, the proofs and their
//! verification) is not part of this library. Its values cross the library
//! in their canonical byte encoding, and its verdicts as booleans.

pub mod cards;
pub mod deal;
pub mod deck;
pub mod encoded;
pub mod errors;
pub mod keys;
pub mod opening;
pub mod player;
pub mod shares;
pub mod shuffle;

pub use cards::{ClassicPlayingCard, Suite, Value};
pub use deal::{deal, Dealt, Slot, SlotPlan};
pub use deck::{encode_cards, setup_protocol, CardMapping};
pub use encoded::{
    CardToken, Encoded, JointKey, KeyProof, MaskedCard, PublicKey, RevealProof, RevealToken,
    SecretKey,
};
pub use errors::GameErrors;
pub use keys::{Contributors, Registration, Roster};
pub use opening::{CardReveal, RevealState};
pub use player::Player;
pub use shares::{collect, missing, open_card, RevealShare};
pub use shuffle::{unanimous, ChainStatus, ShuffleChain};
