use vstd::prelude::*;
use crate::encoded::{
    copy_range, distinct, find, lemma_values_push, values, JointKey, KeyProof, PublicKey,
};
use crate::errors::GameErrors;

verus! {

/// What a player publishes to join a game: a name, a public key, and the
/// proof that the player knows the key's secret.
#[derive(Debug)]
pub struct Registration {
    pub name: Vec<u8>,
    pub pk: PublicKey,
    pub proof_key: KeyProof,
}

impl Registration {
    /// The registration of `name` under `pk`.
    pub fn new(name: Vec<u8>, pk: PublicKey, proof_key: KeyProof) -> (r: Self)
        ensures
            r.name@ == name@,
            r.pk@ == pk@,
            r.proof_key@ == proof_key@,
    {
        Registration { name, pk, proof_key }
    }
}

/// The players enrolled in a game so far, in the order of their enrolment.
/// Only registrations whose proof of key ownership was verified are in it.
#[derive(Debug)]
pub struct Roster {
    keys: Vec<PublicKey>,
    names: Vec<Vec<u8>>,
    proofs: Vec<KeyProof>,
}

impl Roster {
    /// The public keys of the players enrolled, in the order of enrolment.
    pub closed spec fn keys(&self) -> Seq<Seq<u8>> {
        values(self.keys@)
    }

    /// The names of the players enrolled, in the order of enrolment.
    pub closed spec fn names(&self) -> Seq<Seq<u8>> {
        Seq::new(self.names@.len(), |i: int| self.names@[i]@)
    }

    /// The proofs of the players enrolled, in the order of enrolment.
    pub closed spec fn proofs(&self) -> Seq<Seq<u8>> {
        values(self.proofs@)
    }

    /// Every player has a name, a key and a proof, and no key occurs twice.
    pub open spec fn wf(&self) -> bool {
        &&& self.names().len() == self.keys().len()
        &&& self.proofs().len() == self.keys().len()
        &&& distinct(self.keys())
    }

    /// A roster without players.
    pub fn new() -> (r: Self)
        ensures
            r.wf(),
            r.keys().len() == 0,
    {
        Roster { keys: Vec::new(), names: Vec::new(), proofs: Vec::new() }
    }

    /// How many players were enrolled.
    pub fn len(&self) -> (r: usize)
        ensures
            r == self.keys().len(),
    {
        self.keys.len()
    }

    /// The public key of the player enrolled as the `i`-th.
    pub fn key(&self, i: usize) -> (r: &PublicKey)
        requires
            i < self.keys().len(),
        ensures
            r@ == self.keys()[i as int],
    {
        &self.keys[i]
    }

    /// The name of the player enrolled as the `i`-th.
    pub fn name(&self, i: usize) -> (r: &Vec<u8>)
        requires
            i < self.names().len(),
        ensures
            r@ == self.names()[i as int],
    {
        &self.names[i]
    }

    /// The proof of key ownership of the player enrolled as the `i`-th.
    pub fn proof_key(&self, i: usize) -> (r: &KeyProof)
        requires
            i < self.proofs().len(),
        ensures
            r@ == self.proofs()[i as int],
    {
        &self.proofs[i]
    }

    /// Enrolls a player. `verified` is the verdict on the registration's proof
    /// of key ownership. The player joins the roster, behind those already
    /// there, exactly when the proof was verified and no player of the roster
    /// has the same key; otherwise the roster stays as it was.
    pub fn enroll(&mut self, registration: Registration, verified: bool) -> (r: Result<
        (),
        GameErrors,
    >)
        requires
            old(self).wf(),
        ensures
            final(self).wf(),
            r.is_ok() <==> verified && !old(self).keys().contains(registration.pk@),
            r.is_ok() ==> {
                &&& final(self).keys() == old(self).keys().push(registration.pk@)
                &&& final(self).names() == old(self).names().push(registration.name@)
                &&& final(self).proofs() == old(self).proofs().push(registration.proof_key@)
            },
            r.is_err() ==> {
                &&& r == Err::<(), GameErrors>(GameErrors::VerificationFailed)
                &&& final(self).keys() == old(self).keys()
                &&& final(self).names() == old(self).names()
                &&& final(self).proofs() == old(self).proofs()
            },
    {
        if !verified {
            return Err(GameErrors::VerificationFailed);
        }
        if find(&self.keys, &registration.pk).is_some() {
            return Err(GameErrors::VerificationFailed);
        }
        let ghost before = *self;
        proof {
            lemma_values_push(self.keys@, registration.pk);
            lemma_values_push(self.proofs@, registration.proof_key);
        }
        self.keys.push(registration.pk);
        self.names.push(registration.name);
        self.proofs.push(registration.proof_key);
        assert(self.names() =~= before.names().push(registration.name@));
        Ok(())
    }

    /// Closes the registration. `computed` is what the aggregation of the
    /// roster's keys gave: the joint key, or nothing where it was refused.
    /// The contributors are the roster's players, in the same order.
    pub fn aggregate(&self, computed: Option<JointKey>) -> (r: Result<Contributors, GameErrors>)
        requires
            self.wf(),
        ensures
            match r {
                Ok(contributors) => {
                    &&& computed.is_some()
                    &&& contributors.wf()
                    &&& contributors.keys() == self.keys()
                    &&& contributors.joint() == computed.unwrap()@
                },
                Err(e) => e == GameErrors::VerificationFailed && computed.is_none(),
            },
    {
        match computed {
            None => Err(GameErrors::VerificationFailed),
            Some(joint) => {
                let keys = copy_range(&self.keys, 0, self.keys.len());
                assert(values(keys@) =~= values(self.keys@));
                Ok(Contributors { keys, joint })
            },
        }
    }
}

/// The players whose keys make up the joint key of a game, in the order of
/// their enrolment, and that joint key.
#[derive(Debug)]
pub struct Contributors {
    keys: Vec<PublicKey>,
    joint: JointKey,
}

impl Contributors {
    /// The contributors' public keys, in the order of enrolment.
    pub closed spec fn keys(&self) -> Seq<Seq<u8>> {
        values(self.keys@)
    }

    /// The joint key.
    pub closed spec fn joint(&self) -> Seq<u8> {
        self.joint@
    }

    /// No key occurs twice.
    pub open spec fn wf(&self) -> bool {
        distinct(self.keys())
    }

    /// How many players contributed.
    pub fn len(&self) -> (r: usize)
        ensures
            r == self.keys().len(),
    {
        self.keys.len()
    }

    /// The public key of the `i`-th contributor.
    pub fn key(&self, i: usize) -> (r: &PublicKey)
        requires
            i < self.keys().len(),
        ensures
            r@ == self.keys()[i as int],
    {
        &self.keys[i]
    }

    /// The joint key under which the deck is masked.
    pub fn joint_key(&self) -> (r: &JointKey)
        ensures
            r@ == self.joint(),
    {
        &self.joint
    }

    /// The place of the contributor who holds `pk`, if there is one.
    pub fn position(&self, pk: &PublicKey) -> (r: Option<usize>)
        ensures
            match r {
                Some(i) => i < self.keys().len() && self.keys()[i as int] == pk@,
                None => !self.keys().contains(pk@),
            },
    {
        find(&self.keys, pk)
    }
}

} // verus!
