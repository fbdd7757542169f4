//! Match records: the immutable outcome of one match between two competitors.

use vstd::prelude::*;

verus! {

/// Which side of a match won.
#[derive(Clone, Copy, Debug, PartialEq, Eq, Structural)]
pub enum Winner {
    Left,
    Right,
}

/// The phase a match was played in.
#[derive(Clone, Copy, Debug, PartialEq, Eq, Structural)]
pub enum Mode {
    Matchmaking,
    Tournament,
}

/// An opaque bracket tag attached to a match; the engine never interprets it.
#[derive(Debug)]
pub struct Tier {
    pub id: String,
}

/// One side of a match: a competitor's name and the total amount wagered on it.
#[derive(Debug)]
pub struct Competitor {
    pub name: String,
    /// Total wagered on this side. Callers guarantee it is strictly positive;
    /// ratio computations divide by it.
    pub bet_amount: u32,
}

/// An immutable match outcome: two sides, the winner, the phase, a duration
/// and a bracket tag.
#[derive(Debug)]
pub struct Record {
    pub left: Competitor,
    pub right: Competitor,
    pub winner: Winner,
    pub tier: Tier,
    pub mode: Mode,
    pub duration: u32,
}

/// Both wagered pools are strictly positive, as the engine's divisions need.
pub open spec fn record_wf(r: Record) -> bool {
    r.left.bet_amount >= 1 && r.right.bet_amount >= 1
}

/// A mirror match: the same name stands on both sides.
pub open spec fn is_mirror(r: Record) -> bool {
    r.left.name@ == r.right.name@
}

/// The named competitor appears on either side of the record.
pub open spec fn involves(r: Record, name: Seq<char>) -> bool {
    r.left.name@ == name || r.right.name@ == name
}

/// The named competitor stands on the winning side.
pub open spec fn is_winner_spec(r: Record, name: Seq<char>) -> bool {
    match r.winner {
        Winner::Left => r.left.name@ == name,
        Winner::Right => r.right.name@ == name,
    }
}

/// String equality, pinned to view equality.
pub fn str_eq(a: &String, b: &String) -> (r: bool)
    ensures
        r == (a@ == b@),
{
    *a == *b
}

impl Clone for Tier {
    fn clone(&self) -> (r: Self)
        ensures
            r == *self,
    {
        Tier { id: self.id.clone() }
    }
}

impl Clone for Competitor {
    fn clone(&self) -> (r: Self)
        ensures
            r == *self,
    {
        Competitor { name: self.name.clone(), bet_amount: self.bet_amount }
    }
}

impl Clone for Record {
    fn clone(&self) -> (r: Self)
        ensures
            r == *self,
    {
        Record {
            left: self.left.clone(),
            right: self.right.clone(),
            winner: self.winner,
            tier: self.tier.clone(),
            mode: self.mode,
            duration: self.duration,
        }
    }
}

/// The winner flag after the two sides swap places.
pub open spec fn flip_winner(w: Winner) -> Winner {
    match w {
        Winner::Left => Winner::Right,
        Winner::Right => Winner::Left,
    }
}

/// `r` with its two sides (and therefore its winner flag) swapped.
pub open spec fn swapped(r: Record) -> Record {
    Record {
        left: r.right,
        right: r.left,
        winner: flip_winner(r.winner),
        tier: r.tier,
        mode: r.mode,
        duration: r.duration,
    }
}

impl Record {
    /// A derived copy with the sides swapped when `swap` holds, the record
    /// itself otherwise. The caller draws `swap` uniformly to remove
    /// positional recording bias; the match outcome is unchanged either way.
    pub fn shuffle(self, swap: bool) -> (r: Record)
        ensures
            swap ==> r == swapped(self),
            !swap ==> r == self,
    {
        if swap {
            let w = match self.winner {
                Winner::Left => Winner::Right,
                Winner::Right => Winner::Left,
            };
            Record {
                left: self.right,
                right: self.left,
                winner: w,
                tier: self.tier,
                mode: self.mode,
                duration: self.duration,
            }
        } else {
            self
        }
    }

    /// Whether the named competitor won this match.
    pub fn is_winner(&self, name: &String) -> (r: bool)
        ensures
            r == is_winner_spec(*self, name@),
    {
        match self.winner {
            Winner::Left => str_eq(&self.left.name, name),
            Winner::Right => str_eq(&self.right.name, name),
        }
    }
}

} // verus!
