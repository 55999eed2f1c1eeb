use vstd::prelude::*;
use vstd::string::*;

verus! {

/// The four suites, in the order in which a deck enumerates them.
#[derive(Debug, Clone, Copy, PartialEq, Eq, Structural)]
pub enum Suite {
    Club,
    Diamond,
    Heart,
    Spade,
}

/// The thirteen card values, from the lowest to the highest.
#[derive(Debug, Clone, Copy, PartialEq, Eq, PartialOrd, Structural)]
pub enum Value {
    Two,
    Three,
    Four,
    Five,
    Six,
    Seven,
    Eight,
    Nine,
    Ten,
    Jack,
    Queen,
    King,
    Ace,
}

/// How many suites there are.
pub const SUITES: usize = 4;

/// How many values there are.
pub const VALUES: usize = 13;

/// How many distinct cards there are.
pub const CARDS: usize = 52;

impl Suite {
    /// The place of the suite in the enumeration, from 0.
    pub open spec fn ordinal(self) -> nat {
        match self {
            Suite::Club => 0,
            Suite::Diamond => 1,
            Suite::Heart => 2,
            Suite::Spade => 3,
        }
    }

    /// The suite at a place of the enumeration.
    pub open spec fn at(i: nat) -> Suite
        recommends
            i < SUITES,
    {
        if i == 0 {
            Suite::Club
        } else if i == 1 {
            Suite::Diamond
        } else if i == 2 {
            Suite::Heart
        } else {
            Suite::Spade
        }
    }

    /// The sign that is printed for the suite.
    pub open spec fn symbol(self) -> Seq<char> {
        match self {
            Suite::Club => "♣"@,
            Suite::Diamond => "♦"@,
            Suite::Heart => "♥"@,
            Suite::Spade => "♠"@,
        }
    }

    /// The place of the suite in the enumeration, from 0.
    pub fn position(self) -> (r: usize)
        ensures
            r == self.ordinal(),
            r < SUITES,
    {
        match self {
            Suite::Club => 0,
            Suite::Diamond => 1,
            Suite::Heart => 2,
            Suite::Spade => 3,
        }
    }

    /// The suite at place `i`, if there is one.
    pub fn from_position(i: usize) -> (r: Option<Suite>)
        ensures
            i < SUITES ==> r == Some(Suite::at(i as nat)),
            i >= SUITES ==> r.is_none(),
    {
        if i == 0 {
            Some(Suite::Club)
        } else if i == 1 {
            Some(Suite::Diamond)
        } else if i == 2 {
            Some(Suite::Heart)
        } else if i == 3 {
            Some(Suite::Spade)
        } else {
            None
        }
    }

    /// The sign that is printed for the suite.
    pub fn sign(self) -> (r: &'static str)
        ensures
            r@ == self.symbol(),
    {
        match self {
            Suite::Club => "♣",
            Suite::Diamond => "♦",
            Suite::Heart => "♥",
            Suite::Spade => "♠",
        }
    }
}

impl Value {
    /// The place of the value in the enumeration, from 0.
    pub open spec fn ordinal(self) -> nat {
        match self {
            Value::Two => 0,
            Value::Three => 1,
            Value::Four => 2,
            Value::Five => 3,
            Value::Six => 4,
            Value::Seven => 5,
            Value::Eight => 6,
            Value::Nine => 7,
            Value::Ten => 8,
            Value::Jack => 9,
            Value::Queen => 10,
            Value::King => 11,
            Value::Ace => 12,
        }
    }

    /// The value at a place of the enumeration.
    pub open spec fn at(i: nat) -> Value
        recommends
            i < VALUES,
    {
        if i == 0 {
            Value::Two
        } else if i == 1 {
            Value::Three
        } else if i == 2 {
            Value::Four
        } else if i == 3 {
            Value::Five
        } else if i == 4 {
            Value::Six
        } else if i == 5 {
            Value::Seven
        } else if i == 6 {
            Value::Eight
        } else if i == 7 {
            Value::Nine
        } else if i == 8 {
            Value::Ten
        } else if i == 9 {
            Value::Jack
        } else if i == 10 {
            Value::Queen
        } else if i == 11 {
            Value::King
        } else {
            Value::Ace
        }
    }

    /// The text that is printed for the value.
    pub open spec fn text(self) -> Seq<char> {
        match self {
            Value::Two => "2"@,
            Value::Three => "3"@,
            Value::Four => "4"@,
            Value::Five => "5"@,
            Value::Six => "6"@,
            Value::Seven => "7"@,
            Value::Eight => "8"@,
            Value::Nine => "9"@,
            Value::Ten => "10"@,
            Value::Jack => "J"@,
            Value::Queen => "Q"@,
            Value::King => "K"@,
            Value::Ace => "A"@,
        }
    }

    /// The place of the value in the enumeration, from 0.
    pub fn position(self) -> (r: usize)
        ensures
            r == self.ordinal(),
            r < VALUES,
    {
        match self {
            Value::Two => 0,
            Value::Three => 1,
            Value::Four => 2,
            Value::Five => 3,
            Value::Six => 4,
            Value::Seven => 5,
            Value::Eight => 6,
            Value::Nine => 7,
            Value::Ten => 8,
            Value::Jack => 9,
            Value::Queen => 10,
            Value::King => 11,
            Value::Ace => 12,
        }
    }

    /// The value at place `i`, if there is one.
    pub fn from_position(i: usize) -> (r: Option<Value>)
        ensures
            i < VALUES ==> r == Some(Value::at(i as nat)),
            i >= VALUES ==> r.is_none(),
    {
        if i == 0 {
            Some(Value::Two)
        } else if i == 1 {
            Some(Value::Three)
        } else if i == 2 {
            Some(Value::Four)
        } else if i == 3 {
            Some(Value::Five)
        } else if i == 4 {
            Some(Value::Six)
        } else if i == 5 {
            Some(Value::Seven)
        } else if i == 6 {
            Some(Value::Eight)
        } else if i == 7 {
            Some(Value::Nine)
        } else if i == 8 {
            Some(Value::Ten)
        } else if i == 9 {
            Some(Value::Jack)
        } else if i == 10 {
            Some(Value::Queen)
        } else if i == 11 {
            Some(Value::King)
        } else if i == 12 {
            Some(Value::Ace)
        } else {
            None
        }
    }

    /// The text that is printed for the value.
    pub fn name(self) -> (r: &'static str)
        ensures
            r@ == self.text(),
    {
        match self {
            Value::Two => "2",
            Value::Three => "3",
            Value::Four => "4",
            Value::Five => "5",
            Value::Six => "6",
            Value::Seven => "7",
            Value::Eight => "8",
            Value::Nine => "9",
            Value::Ten => "10",
            Value::Jack => "J",
            Value::Queen => "Q",
            Value::King => "K",
            Value::Ace => "A",
        }
    }
}

/// A plaintext card: a value and a suite.
#[derive(Debug, Clone, Copy, PartialEq, Eq, Structural)]
pub struct ClassicPlayingCard {
    pub value: Value,
    pub suite: Suite,
}

impl ClassicPlayingCard {
    /// The place of the card in the deck's enumeration: all suites of the
    /// lowest value first, then those of the next value, and so on.
    pub open spec fn ordinal(self) -> nat {
        self.value.ordinal() * 4 + self.suite.ordinal()
    }

    /// The card at a place of the deck's enumeration.
    pub open spec fn at(i: nat) -> ClassicPlayingCard
        recommends
            i < CARDS,
    {
        ClassicPlayingCard { value: Value::at(i / 4), suite: Suite::at(i % 4) }
    }

    /// What is printed for the card: the value's text, then the suite's sign.
    pub open spec fn label(self) -> Seq<char> {
        self.value.text() + self.suite.symbol()
    }

    /// The card of a value and a suite.
    pub fn new(value: Value, suite: Suite) -> (r: Self)
        ensures
            r.value == value,
            r.suite == suite,
    {
        Self { value, suite }
    }

    /// The place of the card in the deck's enumeration.
    pub fn index(&self) -> (r: usize)
        ensures
            r == self.ordinal(),
            r < CARDS,
    {
        self.value.position() * 4 + self.suite.position()
    }

    /// The card at place `i` of the deck's enumeration, if there is one.
    pub fn from_index(i: usize) -> (r: Option<ClassicPlayingCard>)
        ensures
            i < CARDS ==> r == Some(ClassicPlayingCard::at(i as nat)),
            i >= CARDS ==> r.is_none(),
    {
        if i >= CARDS {
            return None;
        }
        let value = Value::from_position(i / 4);
        let suite = Suite::from_position(i % 4);
        match (value, suite) {
            (Some(value), Some(suite)) => Some(ClassicPlayingCard { value, suite }),
            _ => None,
        }
    }

    /// What is printed for the card: the value's text, then the suite's sign.
    pub fn to_text(&self) -> (r: String)
        ensures
            r@ == self.label(),
    {
        let mut text = String::from_str(self.value.name());
        text.append(self.suite.sign());
        text
    }
}

/// Every card stands at its own place of the enumeration.
pub proof fn lemma_at_ordinal(card: ClassicPlayingCard)
    ensures
        card.ordinal() < CARDS,
        ClassicPlayingCard::at(card.ordinal()) == card,
{
}

/// Every place of the enumeration holds a card that stands there.
pub proof fn lemma_ordinal_at(i: nat)
    requires
        i < CARDS,
    ensures
        ClassicPlayingCard::at(i).ordinal() == i,
{
}

/// Two cards at the same place of the enumeration are one card.
pub proof fn lemma_ordinal_injective(a: ClassicPlayingCard, b: ClassicPlayingCard)
    requires
        a.ordinal() == b.ordinal(),
    ensures
        a == b,
{
    lemma_at_ordinal(a);
    lemma_at_ordinal(b);
}

} // verus!
