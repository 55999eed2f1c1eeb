use vstd::prelude::*;
use crate::encoded::{copy_range, values, MaskedCard};
use crate::errors::GameErrors;

verus! {

/// A run of deck positions: `count` of them, from `start` on.
#[derive(Debug, Clone, Copy, PartialEq, Eq, Structural)]
pub struct Slot {
    pub start: usize,
    pub count: usize,
}

impl Slot {
    /// The position behind the last one of the slot.
    pub open spec fn end(self) -> int {
        self.start + self.count
    }

    /// Every position of the slot is one of a deck of `cards` cards.
    pub open spec fn within(self, cards: nat) -> bool {
        self.end() <= cards
    }

    /// The position `p` is one of the slot.
    pub open spec fn holds(self, p: int) -> bool {
        self.start <= p < self.end()
    }

    /// The two slots share a position.
    pub open spec fn overlaps(self, other: Slot) -> bool {
        exists|p: int| #[trigger] self.holds(p) && other.holds(p)
    }

    /// Whether the two slots share no position, told from their bounds.
    pub open spec fn apart(self, other: Slot) -> bool {
        ||| self.count == 0
        ||| other.count == 0
        ||| self.end() <= other.start
        ||| other.end() <= self.start
    }

    /// The position behind the last one of the slot, if it is a number of
    /// the machine.
    pub fn checked_end(&self) -> (r: Option<usize>)
        ensures
            match r {
                Some(end) => end == self.end(),
                None => self.end() > usize::MAX,
            },
    {
        self.start.checked_add(self.count)
    }
}

/// Slots are apart exactly when they share no position.
pub proof fn lemma_apart_iff_disjoint(a: Slot, b: Slot)
    ensures
        a.apart(b) <==> !a.overlaps(b),
{
    if !a.apart(b) {
        let p = if a.start >= b.start {
            a.start as int
        } else {
            b.start as int
        };
        assert(a.holds(p) && b.holds(p));
    }
}

/// Which deck positions go to each hand and which to the community cards.
#[derive(Debug)]
pub struct SlotPlan {
    pub hands: Vec<Slot>,
    pub community: Slot,
}

/// The slots of a plan: those of the hands in order, then the community's.
pub open spec fn slots(hands: Seq<Slot>, community: Slot) -> Seq<Slot> {
    hands.push(community)
}

/// The slots can be dealt from a deck of `cards` cards: each lies within the
/// deck and no two share a position.
pub open spec fn fits(all: Seq<Slot>, cards: nat) -> bool {
    &&& forall|i: int| 0 <= i < all.len() ==> (#[trigger] all[i]).within(cards)
    &&& forall|i: int, j: int| 0 <= i < j < all.len() ==> !all[i].overlaps(all[j])
}

impl SlotPlan {
    /// The plan's slots: those of the hands in order, then the community's.
    pub open spec fn slots(&self) -> Seq<Slot> {
        slots(self.hands@, self.community)
    }

    /// The plan can be dealt from a deck of `cards` cards.
    pub open spec fn fits(&self, cards: nat) -> bool {
        fits(self.slots(), cards)
    }

    /// The plan deals the deck from its top: `per_hand` cards to each of
    /// `players` hands in turn, then `community` cards to the table.
    pub open spec fn deals_in_turn(&self, players: nat, per_hand: nat, community: nat) -> bool {
        &&& self.hands@.len() == players
        &&& forall|i: int|
            0 <= i < players ==> (#[trigger] self.hands@[i]).start == i * per_hand
                && self.hands@[i].count == per_hand
        &&& self.community.start == players * per_hand
        &&& self.community.count == community
    }

    /// The slot at place `i` of the plan's slots.
    fn slot(&self, i: usize) -> (r: Slot)
        requires
            i <= self.hands@.len(),
        ensures
            r == self.slots()[i as int],
    {
        if i < self.hands.len() {
            self.hands[i]
        } else {
            self.community
        }
    }

    /// Whether the plan can be dealt from a deck of `cards` cards.
    pub fn check(&self, cards: usize) -> (r: bool)
        ensures
            r == self.fits(cards as nat),
    {
        let n: usize = self.hands.len();
        let ghost all = self.slots();
        let mut i: usize = 0;
        while i <= n
            invariant
                n == self.hands@.len(),
                all == self.slots(),
                all.len() == n + 1,
                i <= n + 1,
                forall|a: int| 0 <= a < i ==> (#[trigger] all[a]).within(cards as nat),
                forall|a: int, b: int| 0 <= a < b < i ==> !all[a].overlaps(all[b]),
            decreases n + 1 - i,
        {
            let slot = self.slot(i);
            match slot.checked_end() {
                None => {
                    assert(!all[i as int].within(cards as nat));
                    return false;
                },
                Some(end) => {
                    if end > cards {
                        assert(!all[i as int].within(cards as nat));
                        return false;
                    }
                    let mut j: usize = 0;
                    while j < i
                        invariant
                            n == self.hands@.len(),
                            all == self.slots(),
                            all.len() == n + 1,
                            i <= n,
                            j <= i,
                            slot == all[i as int],
                            end == slot.end(),
                            forall|a: int| 0 <= a < i ==> (#[trigger] all[a]).within(cards as nat),
                            forall|a: int| 0 <= a < j ==> !all[a].overlaps(all[i as int]),
                        decreases i - j,
                    {
                        let other = self.slot(j);
                        proof {
                            lemma_apart_iff_disjoint(other, slot);
                        }
                        let apart = slot.count == 0 || other.count == 0 || end <= other.start
                            || other.start + other.count <= slot.start;
                        if !apart {
                            assert(all[j as int].overlaps(all[i as int]));
                            return false;
                        }
                        j += 1;
                    }
                },
            }
            if i == n {
                return true;
            }
            i += 1;
        }
        true
    }

    /// The plan that deals the deck from its top: `per_hand` cards to each of
    /// `players` hands in turn, then `community` cards to the table. There is
    /// no such plan where the positions are no numbers of the machine.
    pub fn in_turn(players: usize, per_hand: usize, community: usize) -> (r: Option<SlotPlan>)
        ensures
            match r {
                Some(plan) => {
                    &&& players * per_hand + community <= usize::MAX
                    &&& plan.deals_in_turn(players as nat, per_hand as nat, community as nat)
                },
                None => players * per_hand + community > usize::MAX,
            },
    {
        let dealt = match players.checked_mul(per_hand) {
            Some(dealt) => dealt,
            None => {
                return None;
            },
        };
        if dealt.checked_add(community).is_none() {
            return None;
        }
        let mut hands: Vec<Slot> = Vec::with_capacity(players);
        let mut i: usize = 0;
        while i < players
            invariant
                i <= players,
                dealt == players * per_hand,
                hands@.len() == i,
                forall|k: int|
                    0 <= k < i ==> (#[trigger] hands@[k]).start == k * per_hand
                        && hands@[k].count == per_hand,
            decreases players - i,
        {
            assert(i * per_hand <= players * per_hand) by (nonlinear_arith)
                requires
                    i <= players,
            ;
            hands.push(Slot { start: i * per_hand, count: per_hand });
            i += 1;
        }
        Some(SlotPlan { hands, community: Slot { start: dealt, count: community } })
    }
}

/// The cards dealt: one hand for each hand of the plan, and the community
/// cards.
#[derive(Debug)]
pub struct Dealt {
    pub hands: Vec<Vec<MaskedCard>>,
    pub community: Vec<MaskedCard>,
}

/// The cards of `deck` at the positions of `slot`.
pub open spec fn cards_of(deck: Seq<Seq<u8>>, slot: Slot) -> Seq<Seq<u8>> {
    deck.subrange(slot.start as int, slot.end())
}

/// Deals the deck by the plan: each hand and the community get the cards at
/// the positions of their slot, in the deck's order. A plan that leaves the
/// deck or uses a position twice is refused.
pub fn deal(deck: &Vec<MaskedCard>, plan: &SlotPlan) -> (r: Result<Dealt, GameErrors>)
    ensures
        match r {
            Ok(dealt) => {
                &&& plan.fits(deck@.len())
                &&& dealt.hands@.len() == plan.hands@.len()
                &&& forall|i: int|
                    0 <= i < plan.hands@.len() ==> values((#[trigger] dealt.hands@[i])@)
                        == cards_of(values(deck@), plan.hands@[i])
                &&& values(dealt.community@) == cards_of(values(deck@), plan.community)
            },
            Err(e) => e == GameErrors::SlotConflict && !plan.fits(deck@.len()),
        },
{
    let cards: usize = deck.len();
    if !plan.check(cards) {
        return Err(GameErrors::SlotConflict);
    }
    let n: usize = plan.hands.len();
    let ghost all = plan.slots();
    let mut hands: Vec<Vec<MaskedCard>> = Vec::with_capacity(n);
    let mut i: usize = 0;
    while i < n
        invariant
            n == plan.hands@.len(),
            cards == deck@.len(),
            all == plan.slots(),
            fits(all, cards as nat),
            i <= n,
            hands@.len() == i,
            forall|k: int|
                0 <= k < i ==> values((#[trigger] hands@[k])@) == cards_of(
                    values(deck@),
                    plan.hands@[k],
                ),
        decreases n - i,
    {
        let slot = plan.hands[i];
        assert(all[i as int] == slot);
        assert(all[i as int].within(cards as nat));
        let hand = copy_range(deck, slot.start, slot.start + slot.count);
        hands.push(hand);
        i += 1;
    }
    let slot = plan.community;
    assert(all[n as int] == slot);
    assert(all[n as int].within(cards as nat));
    let community = copy_range(deck, slot.start, slot.start + slot.count);
    Ok(Dealt { hands, community })
}

/// A plan that deals in turn can be dealt exactly from a deck that holds
/// all the cards it asks for.
pub proof fn lemma_in_turn_fits(
    plan: SlotPlan,
    players: nat,
    per_hand: nat,
    community: nat,
    cards: nat,
)
    requires
        plan.deals_in_turn(players, per_hand, community),
    ensures
        plan.fits(cards) <==> players * per_hand + community <= cards,
{
    let all = plan.slots();
    assert(all[players as int] == plan.community);
    if plan.fits(cards) {
        assert(all[players as int].within(cards));
    }
    if players * per_hand + community <= cards {
        assert forall|i: int| 0 <= i < all.len() implies (#[trigger] all[i]).within(cards) by {
            if i < players {
                assert(all[i] == plan.hands@[i]);
                assert(i * per_hand + per_hand <= players * per_hand) by (nonlinear_arith)
                    requires
                        0 <= i < players,
                ;
            }
        }
        assert forall|i: int, j: int| 0 <= i < j < all.len() implies !all[i].overlaps(
            all[j],
        ) by {
            assert(all[i] == plan.hands@[i]);
            assert(i * per_hand + per_hand <= j * per_hand) by (nonlinear_arith)
                requires
                    0 <= i < j,
            ;
            if j < players {
                assert(all[j] == plan.hands@[j]);
            }
            assert(j * per_hand <= players * per_hand) by (nonlinear_arith)
                requires
                    0 <= j <= players,
            ;
            assert(all[i].end() <= all[j].start);
            lemma_apart_iff_disjoint(all[i], all[j]);
        }
    }
}

/// No card is dealt twice: from a deck that holds no card twice, two slots
/// that share no position get no card in common.
pub proof fn lemma_dealt_cards_apart(deck: Seq<Seq<u8>>, a: Slot, b: Slot)
    requires
        deck.no_duplicates(),
        a.within(deck.len()),
        b.within(deck.len()),
        !a.overlaps(b),
    ensures
        cards_of(deck, a).disjoint(cards_of(deck, b)),
{
    assert forall|i: int, j: int|
        0 <= i < cards_of(deck, a).len() && 0 <= j < cards_of(deck, b).len() implies cards_of(
        deck,
        a,
    )[i] != cards_of(deck, b)[j] by {
        let p = a.start + i;
        let q = b.start + j;
        assert(a.holds(p));
        assert(b.holds(q));
        if p == q {
            assert(a.holds(p) && b.holds(p));
        }
    }
}

/// From a deck that holds no card twice, no hand is dealt a card twice.
pub proof fn lemma_dealt_hand_holds_no_card_twice(deck: Seq<Seq<u8>>, slot: Slot)
    requires
        deck.no_duplicates(),
        slot.within(deck.len()),
    ensures
        cards_of(deck, slot).no_duplicates(),
{
    let hand = cards_of(deck, slot);
    assert forall|i: int, j: int|
        0 <= i < hand.len() && 0 <= j < hand.len() && i != j implies hand[i] != hand[j] by {
        assert(hand[i] == deck[slot.start + i]);
        assert(hand[j] == deck[slot.start + j]);
    }
}

} // verus!
