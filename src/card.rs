use vstd::prelude::*;

use rand::seq::SliceRandom;

use crate::board::Mana;
use crate::Time;

verus! {

#[derive(Debug, Clone, Copy, PartialEq, Eq, Structural)]
pub enum Card {
    // Summons
    Knight,
    Rook,
    Warlock,
    // States of the board
    Ice,
    Fire,
    AttackDemonic,
    Invulnerability,
    Revive,
    MoreMana,
    // Utilities
    AddMovement,
    Mana,
}

/// Where a card lies.
#[derive(Debug, Clone, Copy, PartialEq, Eq, Structural)]
pub enum CardPlace {
    DiscardPile,
    OnBoard,
    Hand,
    Deck,
}

impl Card {
    pub open spec fn cost(self) -> usize {
        match self {
            Card::Knight => 2,
            Card::Rook => 0,
            Card::Warlock => 5,
            Card::Ice => 3,
            Card::Fire => 3,
            Card::AttackDemonic => 3,
            Card::Invulnerability => 5,
            Card::Revive => 4,
            Card::AddMovement => 1,
            Card::MoreMana => 2,
            Card::Mana => 1,
        }
    }

    pub fn get_cost(&self) -> (r: Mana)
        ensures
            r.0 == self.cost(),
    {
        Mana(
            match self {
                Card::Knight => 2,
                Card::Rook => 0,
                Card::Warlock => 5,
                Card::Ice => 3,
                Card::Fire => 3,
                Card::AttackDemonic => 3,
                Card::Invulnerability => 5,
                Card::Revive => 4,
                Card::AddMovement => 1,
                Card::MoreMana => 2,
                Card::Mana => 1,
            },
        )
    }

    /// Ages the card by `time` where it lies. No card changes with time yet:
    /// the extra mana that `MoreMana` should give on the board is still to be
    /// specified.
    pub fn tick(&mut self, time: &Time, place: &CardPlace)
        ensures
            *final(self) == *old(self),
    {
    }
}

/// Relies on rand's `SliceRandom::shuffle` with the thread's generator: the
/// same cards come out, in some order.
#[verifier::external_body]
fn shuffle_cards(cards: &mut Vec<Card>)
    ensures
        final(cards)@.to_multiset() == old(cards)@.to_multiset(),
{
    cards.shuffle(&mut rand::thread_rng());
}

/// A pile of cards; the last one is on top.
#[derive(Debug, Clone, PartialEq, Eq)]
pub struct Cards(pub Vec<Card>);

impl Default for Cards {
    fn default() -> (r: Cards)
        ensures
            r.0@ == Seq::<Card>::empty(),
    {
        Cards(Vec::new())
    }
}

impl Cards {
    pub fn add(&mut self, card: Card)
        ensures
            final(self).0@ == old(self).0@.push(card),
    {
        self.0.push(card);
    }

    /// Takes out the first card equal to `card`, if there is one.
    pub fn remove(&mut self, card: Card) -> (r: Option<Card>)
        ensures
            !old(self).0@.contains(card) ==> r is None && final(self).0@ == old(self).0@,
            old(self).0@.contains(card) ==> r == Some(card) && exists|i: int|
                0 <= i < old(self).0@.len() && old(self).0@[i] == card && (forall|j: int|
                    0 <= j < i ==> old(self).0@[j] != card) && final(self).0@ == old(self).0@.remove(i),
    {
        let mut i: usize = 0;
        while i < self.0.len()
            invariant
                i <= self.0@.len(),
                self.0@ == old(self).0@,
                forall|j: int| 0 <= j < i ==> self.0@[j] != card,
            decreases self.0@.len() - i,
        {
            if self.0[i] == card {
                let c = self.0.remove(i);
                return Some(c);
            }
            i += 1;
        }
        None
    }

    /// Takes the top card.
    pub fn take(&mut self) -> (r: Option<Card>)
        ensures
            old(self).0@.len() == 0 ==> r is None && final(self).0@ == old(self).0@,
            old(self).0@.len() > 0 ==> r == Some(old(self).0@.last()) && final(self).0@
                == old(self).0@.drop_last(),
    {
        self.0.pop()
    }

    pub fn is_empty(&self) -> (r: bool)
        ensures
            r == (self.0@.len() == 0),
    {
        self.0.len() == 0
    }

    pub fn len(&self) -> (r: usize)
        ensures
            r == self.0@.len(),
    {
        self.0.len()
    }

    /// Puts the cards in a random order.
    pub fn shuffle(&mut self)
        ensures
            final(self).0@.to_multiset() == old(self).0@.to_multiset(),
    {
        shuffle_cards(&mut self.0);
    }

    /// Ages every card of the pile by `time`.
    pub fn tick(&mut self, time: &Time, place: CardPlace)
        ensures
            *final(self) == *old(self),
    {
        let mut i: usize = 0;
        while i < self.0.len()
            invariant
                i <= self.0@.len(),
                *self == *old(self),
            decreases self.0@.len() - i,
        {
            let mut card = self.0[i];
            card.tick(time, &place);
            if card != self.0[i] {
                self.0.set(i, card);
            }
            i += 1;
        }
    }
}

} // verus!
