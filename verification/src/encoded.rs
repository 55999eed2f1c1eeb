use vstd::prelude::*;

verus! {

/// A protocol value (a key, a card token, a masked card, a reveal token or a
/// proof) in its canonical byte encoding. Two values are the same value
/// exactly when their encodings are the same bytes.
#[derive(Debug)]
pub struct Encoded {
    bytes: Vec<u8>,
}

/// A player's public key.
pub type PublicKey = Encoded;

/// A player's secret key; it never leaves its owner.
pub type SecretKey = Encoded;

/// The joint public key under which every card of the deck is masked.
pub type JointKey = Encoded;

/// The group element that stands for one plaintext card.
pub type CardToken = Encoded;

/// A card token masked under the joint key.
pub type MaskedCard = Encoded;

/// One player's partial decryption of a masked card.
pub type RevealToken = Encoded;

/// A proof that a key's owner knows its secret.
pub type KeyProof = Encoded;

/// A proof that a reveal token was computed under its player's key.
pub type RevealProof = Encoded;

impl View for Encoded {
    type V = Seq<u8>;

    closed spec fn view(&self) -> Seq<u8> {
        self.bytes@
    }
}

impl Encoded {
    /// Wraps an encoding.
    pub fn new(bytes: Vec<u8>) -> (r: Self)
        ensures
            r@ == bytes@,
    {
        Encoded { bytes }
    }

    /// The encoding.
    pub fn as_bytes(&self) -> (r: &Vec<u8>)
        ensures
            r@ == self@,
    {
        &self.bytes
    }

    /// Whether both are the same value.
    pub fn same(&self, other: &Encoded) -> (r: bool)
        ensures
            r == (self@ == other@),
    {
        let n: usize = self.bytes.len();
        if other.bytes.len() != n {
            return false;
        }
        let mut i: usize = 0;
        while i < n
            invariant
                n == self.bytes@.len(),
                n == other.bytes@.len(),
                i <= n,
                forall|k: int| 0 <= k < i ==> self.bytes@[k] == other.bytes@[k],
            decreases n - i,
        {
            if self.bytes[i] != other.bytes[i] {
                return false;
            }
            i += 1;
        }
        assert(self.bytes@ =~= other.bytes@);
        true
    }
}

/// The values that a sequence of encodings holds, each as its bytes.
pub open spec fn values(items: Seq<Encoded>) -> Seq<Seq<u8>> {
    Seq::new(items.len(), |i: int| items[i]@)
}

/// Appending an encoding appends its value.
pub proof fn lemma_values_push(items: Seq<Encoded>, last: Encoded)
    ensures
        values(items.push(last)) == values(items).push(last@),
{
    assert(values(items.push(last)) =~= values(items).push(last@));
}

/// No value occurs twice.
pub open spec fn distinct(items: Seq<Seq<u8>>) -> bool {
    items.no_duplicates()
}

/// The first place at which `items` holds the value `needle`, if any does.
pub fn find(items: &Vec<Encoded>, needle: &Encoded) -> (r: Option<usize>)
    ensures
        match r {
            Some(i) => {
                &&& i < items@.len()
                &&& items@[i as int]@ == needle@
                &&& values(items@).contains(needle@)
                &&& values(items@).index_of_first(needle@) == Some(i as int)
            },
            None => {
                &&& !values(items@).contains(needle@)
                &&& values(items@).index_of_first(needle@).is_none()
            },
        },
{
    let mut i: usize = 0;
    while i < items.len()
        invariant
            i <= items@.len(),
            forall|k: int| 0 <= k < i ==> values(items@)[k] != needle@,
        decreases items@.len() - i,
    {
        if items[i].same(needle) {
            proof {
                let all = values(items@);
                assert(all[i as int] == needle@);
                all.index_of_first_ensures(needle@);
                let first = all.index_of_first(needle@).unwrap();
                assert(all[first] == needle@);
                assert(first == i);
            }
            return Some(i);
        }
        i += 1;
    }
    proof {
        values(items@).index_of_first_ensures(needle@);
    }
    None
}

/// A copy of the values that `items` holds from place `start` up to, and
/// without, place `end`.
pub fn copy_range(items: &Vec<Encoded>, start: usize, end: usize) -> (r: Vec<Encoded>)
    requires
        start <= end <= items@.len(),
    ensures
        values(r@) == values(items@).subrange(start as int, end as int),
{
    let mut copy: Vec<Encoded> = Vec::with_capacity(end - start);
    let mut i: usize = start;
    while i < end
        invariant
            start <= i <= end <= items@.len(),
            values(copy@) == values(items@).subrange(start as int, i as int),
        decreases end - i,
    {
        let item = items[i].clone();
        proof {
            lemma_values_push(copy@, item);
        }
        copy.push(item);
        assert(values(copy@) =~= values(items@).subrange(start as int, i + 1));
        i += 1;
    }
    copy
}

impl Clone for Encoded {
    fn clone(&self) -> (r: Self)
        ensures
            r@ == self@,
    {
        let bytes = self.bytes.clone();
        assert(bytes@ =~= self.bytes@);
        Encoded { bytes }
    }
}

impl PartialEq for Encoded {
    fn eq(&self, other: &Self) -> (r: bool) {
        self.same(other)
    }
}

impl Eq for Encoded {}

impl vstd::std_specs::cmp::PartialEqSpecImpl for Encoded {
    open spec fn obeys_eq_spec() -> bool {
        true
    }

    open spec fn eq_spec(&self, other: &Self) -> bool {
        self@ == other@
    }
}

} // verus!
