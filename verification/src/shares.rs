use vstd::prelude::*;
use crate::cards::ClassicPlayingCard;
use crate::deck::{decoded, CardMapping};
use crate::encoded::{CardToken, MaskedCard, PublicKey, RevealProof, RevealToken};
use crate::errors::GameErrors;
use crate::keys::Contributors;

verus! {

/// One player's contribution to the opening of one masked card: the reveal
/// token, the proof that it was computed under the player's key, and that
/// key.
#[derive(Debug)]
pub struct RevealShare {
    pub token: RevealToken,
    pub proof: RevealProof,
    pub pk: PublicKey,
}

/// What a reveal share holds, as values.
pub struct ShareView {
    pub token: Seq<u8>,
    pub proof: Seq<u8>,
    pub key: Seq<u8>,
}

impl View for RevealShare {
    type V = ShareView;

    open spec fn view(&self) -> ShareView {
        ShareView { token: self.token@, proof: self.proof@, key: self.pk@ }
    }
}

impl Clone for RevealShare {
    fn clone(&self) -> (r: Self)
        ensures
            r@ == self@,
    {
        RevealShare { token: self.token.clone(), proof: self.proof.clone(), pk: self.pk.clone() }
    }
}

impl RevealShare {
    /// The share of the player who holds `pk`.
    pub fn new(token: RevealToken, proof: RevealProof, pk: PublicKey) -> (r: Self)
        ensures
            r@ == (ShareView { token: token@, proof: proof@, key: pk@ }),
    {
        RevealShare { token, proof, pk }
    }
}

/// What a sequence of reveal shares holds, as values.
pub open spec fn views(shares: Seq<RevealShare>) -> Seq<ShareView> {
    Seq::new(shares.len(), |i: int| shares[i]@)
}

/// The keys under which the shares were computed, in the shares' order.
pub open spec fn keys_of(shares: Seq<ShareView>) -> Seq<Seq<u8>> {
    Seq::new(shares.len(), |i: int| shares[i].key)
}

/// The share at place `i` is the first of the holder of `key`.
pub open spec fn is_first(shares: Seq<ShareView>, key: Seq<u8>, i: int) -> bool {
    &&& 0 <= i < shares.len()
    &&& shares[i].key == key
    &&& forall|k: int| 0 <= k < i ==> (#[trigger] shares[k]).key != key
}

/// The holder of `key` has a share among `shares`.
pub open spec fn has_share(shares: Seq<ShareView>, key: Seq<u8>) -> bool {
    exists|i: int| is_first(shares, key, i)
}

/// The place of the first share of the holder of `key`.
pub open spec fn first_place(shares: Seq<ShareView>, key: Seq<u8>) -> int {
    choose|i: int| is_first(shares, key, i)
}

/// Every holder of one of `keys` has a share among `shares`.
pub open spec fn complete(keys: Seq<Seq<u8>>, shares: Seq<ShareView>) -> bool {
    forall|k: int| 0 <= k < keys.len() ==> has_share(shares, #[trigger] keys[k])
}

/// One share for each of `keys`, in the order of the keys: the first that
/// its holder has among `shares`.
pub open spec fn selection(keys: Seq<Seq<u8>>, shares: Seq<ShareView>) -> Seq<ShareView> {
    Seq::new(keys.len(), |k: int| shares[first_place(shares, keys[k])])
}

/// What the opening of a card gives. `unmasked` is what unmasking the card
/// with the shares gave: the card token, or nothing where a share's proof was
/// refused. The card is opened only with a share of every holder of one of
/// `keys`, and only to a card of the table `tokens`.
pub open spec fn opened(
    keys: Seq<Seq<u8>>,
    shares: Seq<ShareView>,
    tokens: Seq<Seq<u8>>,
    unmasked: Option<Seq<u8>>,
) -> Result<ClassicPlayingCard, GameErrors> {
    if !complete(keys, shares) {
        Err(GameErrors::MissingShares)
    } else {
        match unmasked {
            None => Err(GameErrors::VerificationFailed),
            Some(token) => match decoded(tokens, token) {
                Some(card) => Ok(card),
                None => Err(GameErrors::InvalidCard),
            },
        }
    }
}

/// The place of the first share of the holder of `pk`, if there is one.
pub fn find_share(shares: &Vec<RevealShare>, pk: &PublicKey) -> (r: Option<usize>)
    ensures
        match r {
            Some(i) => is_first(views(shares@), pk@, i as int) && first_place(views(shares@), pk@)
                == i,
            None => !has_share(views(shares@), pk@),
        },
{
    let mut i: usize = 0;
    while i < shares.len()
        invariant
            i <= shares@.len(),
            forall|k: int| 0 <= k < i ==> (#[trigger] views(shares@)[k]).key != pk@,
        decreases shares@.len() - i,
    {
        if shares[i].pk.same(pk) {
            proof {
                lemma_first_is_unique(views(shares@), pk@, i as int);
            }
            return Some(i);
        }
        i += 1;
    }
    None
}

/// There is one first share at most.
pub proof fn lemma_first_is_unique(shares: Seq<ShareView>, key: Seq<u8>, i: int)
    requires
        is_first(shares, key, i),
    ensures
        has_share(shares, key),
        first_place(shares, key) == i,
{
    let j = first_place(shares, key);
    assert(is_first(shares, key, j));
    if j < i {
        assert(shares[j].key != key);
    }
    if i < j {
        assert(shares[i].key != key);
    }
}

/// A player has a share exactly when one of the shares' keys is the player's.
pub proof fn lemma_has_share_iff_key(shares: Seq<ShareView>, key: Seq<u8>)
    ensures
        has_share(shares, key) <==> keys_of(shares).contains(key),
{
    if has_share(shares, key) {
        let i = first_place(shares, key);
        assert(keys_of(shares)[i] == key);
    }
    if keys_of(shares).contains(key) {
        let i = keys_of(shares).index_of(key);
        assert(shares[i].key == key);
        lemma_key_has_first(shares, key, i);
    }
}

/// A player with a share at place `i` has a first share.
pub proof fn lemma_key_has_first(shares: Seq<ShareView>, key: Seq<u8>, i: int)
    requires
        0 <= i < shares.len(),
        shares[i].key == key,
    ensures
        has_share(shares, key),
        first_place(shares, key) <= i,
    decreases i,
{
    if exists|k: int| 0 <= k < i && (#[trigger] shares[k]).key == key {
        let k = choose|k: int| 0 <= k < i && (#[trigger] shares[k]).key == key;
        lemma_key_has_first(shares, key, k);
    } else {
        assert(is_first(shares, key, i));
        lemma_first_is_unique(shares, key, i);
    }
}

/// The first contributor, in the order of enrolment, of whom `shares` holds
/// no share; none where the shares are complete.
pub fn missing(contributors: &Contributors, shares: &Vec<RevealShare>) -> (r: Option<usize>)
    ensures
        match r {
            Some(k) => {
                &&& k < contributors.keys().len()
                &&& !has_share(views(shares@), contributors.keys()[k as int])
                &&& forall|j: int|
                    0 <= j < k ==> has_share(views(shares@), #[trigger] contributors.keys()[j])
            },
            None => complete(contributors.keys(), views(shares@)),
        },
{
    let n: usize = contributors.len();
    let mut k: usize = 0;
    while k < n
        invariant
            n == contributors.keys().len(),
            k <= n,
            forall|j: int|
                0 <= j < k ==> has_share(views(shares@), #[trigger] contributors.keys()[j]),
        decreases n - k,
    {
        if find_share(shares, contributors.key(k)).is_none() {
            return Some(k);
        }
        k += 1;
    }
    None
}

/// Gathers the shares that open a card: one of each contributor, in the
/// order of enrolment, whatever the order in which the shares arrived. Where
/// a contributor has sent none, the shares are missing.
pub fn collect(contributors: &Contributors, shares: &Vec<RevealShare>) -> (r: Result<
    Vec<RevealShare>,
    GameErrors,
>)
    ensures
        match r {
            Ok(chosen) => {
                &&& complete(contributors.keys(), views(shares@))
                &&& views(chosen@) == selection(contributors.keys(), views(shares@))
            },
            Err(e) => e == GameErrors::MissingShares && !complete(
                contributors.keys(),
                views(shares@),
            ),
        },
{
    let n: usize = contributors.len();
    let mut chosen: Vec<RevealShare> = Vec::with_capacity(n);
    let mut k: usize = 0;
    while k < n
        invariant
            n == contributors.keys().len(),
            k <= n,
            chosen@.len() == k,
            forall|j: int|
                0 <= j < k ==> has_share(views(shares@), #[trigger] contributors.keys()[j]),
            forall|j: int|
                0 <= j < k ==> (#[trigger] chosen@[j])@ == views(shares@)[first_place(
                    views(shares@),
                    contributors.keys()[j],
                )],
        decreases n - k,
    {
        match find_share(shares, contributors.key(k)) {
            None => {
                return Err(GameErrors::MissingShares);
            },
            Some(i) => {
                chosen.push(shares[i].clone());
            },
        }
        k += 1;
    }
    assert(views(chosen@) =~= selection(contributors.keys(), views(shares@)));
    Ok(chosen)
}

/// Opens a card for everyone. `unmasked` is what unmasking the card with the
/// shares gave: the card token, or nothing where a share's proof was refused.
/// The card is opened only with a share of every contributor, and only to a
/// card of the mapping.
pub fn open_card(
    contributors: &Contributors,
    reveal_tokens: &Vec<RevealShare>,
    card_mappings: &CardMapping,
    unmasked: Option<&CardToken>,
) -> (r: Result<ClassicPlayingCard, GameErrors>)
    requires
        card_mappings.wf(),
    ensures
        r == opened(
            contributors.keys(),
            views(reveal_tokens@),
            card_mappings@,
            match unmasked {
                Some(token) => Some(token@),
                None => None,
            },
        ),
{
    if missing(contributors, reveal_tokens).is_some() {
        return Err(GameErrors::MissingShares);
    }
    match unmasked {
        None => Err(GameErrors::VerificationFailed),
        Some(token) => card_mappings.decode(token),
    }
}

/// Without a share of every contributor no card is opened, whatever the
/// unmasking gave.
pub proof fn lemma_missing_share_fails(
    keys: Seq<Seq<u8>>,
    shares: Seq<ShareView>,
    tokens: Seq<Seq<u8>>,
    unmasked: Option<Seq<u8>>,
)
    requires
        !complete(keys, shares),
    ensures
        opened(keys, shares, tokens, unmasked) == Err::<ClassicPlayingCard, GameErrors>(
            GameErrors::MissingShares,
        ),
{
}

/// Fewer shares than there are contributors are never complete.
pub proof fn lemma_fewer_shares_are_missing(keys: Seq<Seq<u8>>, shares: Seq<ShareView>)
    requires
        keys.no_duplicates(),
        shares.len() < keys.len(),
    ensures
        !complete(keys, shares),
{
    if complete(keys, shares) {
        let holders = keys_of(shares);
        assert forall|key: Seq<u8>| keys.to_set().contains(key) implies holders.to_set().contains(
            key,
        ) by {
            let k = keys.index_of(key);
            assert(has_share(shares, keys[k]));
            lemma_has_share_iff_key(shares, key);
        }
        keys.unique_seq_to_set();
        holders.lemma_cardinality_of_set();
        vstd::seq_lib::seq_to_set_is_finite(holders);
        vstd::set_lib::lemma_len_subset(keys.to_set(), holders.to_set());
    }
}

/// A player who has a share among `a` has one among every rearrangement of
/// `a`.
pub proof fn lemma_rearranged_has_share(a: Seq<ShareView>, b: Seq<ShareView>, key: Seq<u8>)
    requires
        a.to_multiset() == b.to_multiset(),
        has_share(a, key),
    ensures
        has_share(b, key),
{
    let i = first_place(a, key);
    assert(a.contains(a[i]));
    vstd::seq_lib::to_multiset_contains(a, a[i]);
    vstd::seq_lib::to_multiset_contains(b, a[i]);
    let j = b.index_of(a[i]);
    lemma_key_has_first(b, key, j);
}

/// The order in which the shares arrive does not matter: a rearrangement of
/// the shares is complete exactly when the shares are, and opens the card to
/// the same result.
pub proof fn lemma_arrival_order(
    keys: Seq<Seq<u8>>,
    a: Seq<ShareView>,
    b: Seq<ShareView>,
    tokens: Seq<Seq<u8>>,
    unmasked: Option<Seq<u8>>,
)
    requires
        a.to_multiset() == b.to_multiset(),
    ensures
        complete(keys, a) == complete(keys, b),
        opened(keys, a, tokens, unmasked) == opened(keys, b, tokens, unmasked),
{
    if complete(keys, a) {
        assert forall|k: int| 0 <= k < keys.len() implies has_share(b, #[trigger] keys[k]) by {
            lemma_rearranged_has_share(a, b, keys[k]);
        }
    }
    if complete(keys, b) {
        assert forall|k: int| 0 <= k < keys.len() implies has_share(a, #[trigger] keys[k]) by {
            lemma_rearranged_has_share(b, a, keys[k]);
        }
    }
}

/// Where no player has sent two shares, the shares gathered for the
/// unmasking are the same in whatever order the shares arrived.
pub proof fn lemma_selection_ignores_order(
    keys: Seq<Seq<u8>>,
    a: Seq<ShareView>,
    b: Seq<ShareView>,
)
    requires
        a.to_multiset() == b.to_multiset(),
        keys_of(a).no_duplicates(),
        complete(keys, a),
    ensures
        selection(keys, a) == selection(keys, b),
{
    assert forall|k: int| 0 <= k < keys.len() implies selection(keys, a)[k] == selection(
        keys,
        b,
    )[k] by {
        let key = keys[k];
        assert(has_share(a, key));
        lemma_rearranged_has_share(a, b, key);
        let i = first_place(a, key);
        let j = first_place(b, key);
        assert(b.contains(b[j]));
        vstd::seq_lib::to_multiset_contains(a, b[j]);
        vstd::seq_lib::to_multiset_contains(b, b[j]);
        let i2 = a.index_of(b[j]);
        assert(keys_of(a)[i2] == key);
        assert(keys_of(a)[i] == key);
        assert(i2 == i);
    }
    assert(selection(keys, a) =~= selection(keys, b));
}

/// With a share of every contributor, a card whose unmasking gives the token
/// of a card of the table is opened to that card.
pub proof fn lemma_opened_is_encoded(
    keys: Seq<Seq<u8>>,
    shares: Seq<ShareView>,
    mapping: CardMapping,
    card: ClassicPlayingCard,
)
    requires
        mapping.wf(),
        complete(keys, shares),
        card.ordinal() < mapping@.len(),
    ensures
        opened(keys, shares, mapping@, crate::deck::encoded(mapping@, card)) == Ok::<
            ClassicPlayingCard,
            GameErrors,
        >(card),
{
    crate::deck::lemma_decode_encode(mapping, card);
}

/// What the opening of each of several cards gives: the card at place `k`
/// is opened with the shares at place `k`, after its unmasking gave the
/// token at place `k`.
pub open spec fn opened_each(
    keys: Seq<Seq<u8>>,
    shares: Seq<Seq<ShareView>>,
    tokens: Seq<Seq<u8>>,
    unmasked: Seq<Seq<u8>>,
) -> Seq<Result<ClassicPlayingCard, GameErrors>> {
    Seq::new(unmasked.len(), |k: int| opened(keys, shares[k], tokens, Some(unmasked[k])))
}

/// Two cards whose unmaskings give two different tokens of the table are
/// opened to two different cards.
pub proof fn lemma_opened_cards_differ(
    keys: Seq<Seq<u8>>,
    first: Seq<ShareView>,
    second: Seq<ShareView>,
    mapping: CardMapping,
    a: Seq<u8>,
    b: Seq<u8>,
)
    requires
        mapping.wf(),
        complete(keys, first),
        complete(keys, second),
        mapping@.contains(a),
        mapping@.contains(b),
        a != b,
    ensures
        opened(keys, first, mapping@, Some(a)).is_ok(),
        opened(keys, second, mapping@, Some(b)).is_ok(),
        opened(keys, first, mapping@, Some(a)) != opened(keys, second, mapping@, Some(b)),
{
    crate::deck::lemma_encode_decode(mapping, a);
    crate::deck::lemma_encode_decode(mapping, b);
}

/// The cards of a round: where every contributor has sent a share for each
/// card, and the unmaskings give tokens of the table and no token twice,
/// every card is opened, each to the card that its token stands for, and no
/// two to the same card.
pub proof fn lemma_round_opens_apart(
    keys: Seq<Seq<u8>>,
    shares: Seq<Seq<ShareView>>,
    mapping: CardMapping,
    unmasked: Seq<Seq<u8>>,
)
    requires
        mapping.wf(),
        shares.len() == unmasked.len(),
        forall|k: int| 0 <= k < shares.len() ==> complete(keys, #[trigger] shares[k]),
        forall|k: int| 0 <= k < unmasked.len() ==> mapping@.contains(#[trigger] unmasked[k]),
        unmasked.no_duplicates(),
    ensures
        opened_each(keys, shares, mapping@, unmasked).len() == unmasked.len(),
        forall|k: int|
            0 <= k < unmasked.len() ==> {
                &&& (#[trigger] opened_each(keys, shares, mapping@, unmasked)[k]).is_ok()
                &&& crate::deck::encoded(
                    mapping@,
                    opened_each(keys, shares, mapping@, unmasked)[k].unwrap(),
                ) == Some(unmasked[k])
            },
        opened_each(keys, shares, mapping@, unmasked).no_duplicates(),
{
    let all = opened_each(keys, shares, mapping@, unmasked);
    assert forall|k: int| 0 <= k < unmasked.len() implies {
        &&& (#[trigger] all[k]).is_ok()
        &&& crate::deck::encoded(mapping@, all[k].unwrap()) == Some(unmasked[k])
    } by {
        assert(complete(keys, shares[k]));
        crate::deck::lemma_encode_decode(mapping, unmasked[k]);
    }
    assert forall|j: int, k: int| 0 <= j < all.len() && 0 <= k < all.len() && j != k implies all[j]
        != all[k] by {
        assert(complete(keys, shares[j]));
        assert(complete(keys, shares[k]));
        lemma_opened_cards_differ(keys, shares[j], shares[k], mapping, unmasked[j], unmasked[k]);
    }
}

/// The whole deck: where every contributor has sent a share for each card,
/// and the unmaskings give a rearrangement of the table's tokens, the deck
/// is opened to a rearrangement of the table's cards: every card is opened,
/// no two to the same card, and every card of the table is among them.
pub proof fn lemma_deck_opens_to_every_card(
    keys: Seq<Seq<u8>>,
    shares: Seq<Seq<ShareView>>,
    mapping: CardMapping,
    unmasked: Seq<Seq<u8>>,
)
    requires
        mapping.wf(),
        shares.len() == unmasked.len(),
        forall|k: int| 0 <= k < shares.len() ==> complete(keys, #[trigger] shares[k]),
        unmasked.to_multiset() == mapping@.to_multiset(),
    ensures
        opened_each(keys, shares, mapping@, unmasked).len() == mapping@.len(),
        forall|k: int|
            0 <= k < unmasked.len() ==> (#[trigger] opened_each(
                keys,
                shares,
                mapping@,
                unmasked,
            )[k]).is_ok(),
        opened_each(keys, shares, mapping@, unmasked).no_duplicates(),
        forall|card: ClassicPlayingCard|
            card.ordinal() < mapping@.len() ==> opened_each(
                keys,
                shares,
                mapping@,
                unmasked,
            ).contains(Ok::<ClassicPlayingCard, GameErrors>(card)),
{
    let table = mapping@;
    let all = opened_each(keys, shares, table, unmasked);
    vstd::seq_lib::to_multiset_len(unmasked);
    vstd::seq_lib::to_multiset_len(table);
    assert forall|k: int| 0 <= k < unmasked.len() implies table.contains(
        #[trigger] unmasked[k],
    ) by {
        assert(unmasked.contains(unmasked[k]));
        vstd::seq_lib::to_multiset_contains(unmasked, unmasked[k]);
        vstd::seq_lib::to_multiset_contains(table, unmasked[k]);
    }
    table.lemma_multiset_has_no_duplicates();
    unmasked.lemma_multiset_has_no_duplicates_conv();
    lemma_round_opens_apart(keys, shares, mapping, unmasked);
    assert forall|card: ClassicPlayingCard| card.ordinal() < table.len() implies all.contains(
        Ok::<ClassicPlayingCard, GameErrors>(card),
    ) by {
        let token = table[card.ordinal() as int];
        assert(table.contains(token));
        vstd::seq_lib::to_multiset_contains(table, token);
        vstd::seq_lib::to_multiset_contains(unmasked, token);
        let k = unmasked.index_of(token);
        assert(complete(keys, shares[k]));
        crate::deck::lemma_decode_encode(mapping, card);
        assert(all[k] == Ok::<ClassicPlayingCard, GameErrors>(card));
    }
}

} // verus!
