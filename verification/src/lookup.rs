//! The statistic engine and the composable bet-sizing signal (`Lookup`):
//! pure aggregations over a competitor's match history, plus the genetic
//! operators that generate and recombine signals.

use vstd::prelude::*;
use vstd::arithmetic::div_mod::lemma_div_nonincreasing;
use crate::record::Record;
use crate::record::Tier;
use crate::record::record_wf;
use crate::record::is_winner_spec;
use crate::record::str_eq;
use crate::ratio::Ratio;
use crate::rng::Rng;
use crate::simulation::Simulation;
use crate::simulation::involves_pred;
use crate::simulation::all_wf;
use crate::simulation::lemma_filter_subrange_step;

verus! {

/// Fixed-point scale for the two ratio-summing statistics (odds, earnings):
/// each pool quotient is kept as a whole number of `1 / ODDS_SCALE` steps,
/// rounded down.
pub const ODDS_SCALE: u64 = 65536;

/// The named competitor was the underdog: its pool is strictly smaller than
/// the opponent's (the pools' quotient exceeds one).
pub open spec fn upset_for(r: Record, name: Seq<char>) -> bool {
    (r.left.name@ == name && r.right.bet_amount > r.left.bet_amount) || (r.right.name@ == name
        && r.left.bet_amount > r.right.bet_amount)
}

pub open spec fn upset_pred(name: Seq<char>) -> spec_fn(Record) -> bool {
    |r: Record| upset_for(r, name)
}

/// The named competitor was the favorite: its pool is strictly larger.
pub open spec fn favored_for(r: Record, name: Seq<char>) -> bool {
    (r.left.name@ == name && r.left.bet_amount > r.right.bet_amount) || (r.right.name@ == name
        && r.right.bet_amount > r.left.bet_amount)
}

pub open spec fn favored_pred(name: Seq<char>) -> spec_fn(Record) -> bool {
    |r: Record| favored_for(r, name)
}

pub open spec fn winner_pred(name: Seq<char>) -> spec_fn(Record) -> bool {
    |r: Record| is_winner_spec(r, name)
}

/// The pool wagered on the named competitor's side; the right side stands in
/// when the name is not on the left, exactly as the aggregation treats it.
pub open spec fn own_pool(r: Record, name: Seq<char>) -> u32 {
    if r.left.name@ == name {
        r.left.bet_amount
    } else {
        r.right.bet_amount
    }
}

/// The pool wagered against the named competitor's side.
pub open spec fn opp_pool(r: Record, name: Seq<char>) -> u32 {
    if r.left.name@ == name {
        r.right.bet_amount
    } else {
        r.left.bet_amount
    }
}

/// One match's odds faced by the named competitor, in `1 / ODDS_SCALE` steps
/// rounded down: the opponent pool over the own pool.
pub open spec fn odds_q(r: Record, name: Seq<char>) -> int {
    (opp_pool(r, name) as int * ODDS_SCALE as int) / (own_pool(r, name) as int)
}

pub open spec fn odds_fn(name: Seq<char>) -> spec_fn(Record) -> int {
    |r: Record| odds_q(r, name)
}

/// One match's contribution to the earnings of a flat one-unit wager on the
/// named competitor, in `1 / ODDS_SCALE` steps: the odds faced on a win, minus
/// one whole unit on a loss.
pub open spec fn earnings_term(r: Record, name: Seq<char>) -> int {
    match r.winner {
        crate::record::Winner::Left => if r.left.name@ == name {
            (r.right.bet_amount as int * ODDS_SCALE as int) / (r.left.bet_amount as int)
        } else {
            -(ODDS_SCALE as int)
        },
        crate::record::Winner::Right => if r.right.name@ == name {
            (r.left.bet_amount as int * ODDS_SCALE as int) / (r.right.bet_amount as int)
        } else {
            -(ODDS_SCALE as int)
        },
    }
}

pub open spec fn earnings_fn(name: Seq<char>) -> spec_fn(Record) -> int {
    |r: Record| earnings_term(r, name)
}

pub open spec fn duration_fn() -> spec_fn(Record) -> int {
    |r: Record| r.duration as int
}

pub open spec fn own_pool_fn(name: Seq<char>) -> spec_fn(Record) -> int {
    |r: Record| own_pool(r, name) as int
}

/// The sum of `f` over a record sequence.
pub open spec fn sum_over(s: Seq<Record>, f: spec_fn(Record) -> int) -> int
    decreases s.len(),
{
    if s.len() == 0 {
        0
    } else {
        sum_over(s.drop_last(), f) + f(s.last())
    }
}

/// Extending a prefix by one element adds that element's term to the sum.
pub proof fn lemma_sum_step(s: Seq<Record>, f: spec_fn(Record) -> int, i: int)
    requires
        0 <= i < s.len(),
    ensures
        sum_over(s.subrange(0, i + 1), f) == sum_over(s.subrange(0, i), f) + f(s[i]),
{
    assert(s.subrange(0, i + 1).drop_last() =~= s.subrange(0, i));
    assert(s.subrange(0, i + 1).last() == s[i]);
}

/// Filtering keeps only records of the sequence, so well-formedness carries
/// over to any filtered history.
pub proof fn lemma_filter_wf(s: Seq<Record>, pred: spec_fn(Record) -> bool)
    requires
        all_wf(s),
    ensures
        all_wf(s.filter(pred)),
    decreases s.len(),
{
    reveal(Seq::filter);
    if s.len() > 0 {
        assert forall|i: int| 0 <= i < s.drop_last().len() implies record_wf(
            #[trigger] s.drop_last()[i],
        ) by {
            assert(s.drop_last()[i] == s[i]);
        }
        lemma_filter_wf(s.drop_last(), pred);
    }
}

/// A pure aggregation over a match history, relative to one named competitor.
#[derive(Clone, Copy, Debug, PartialEq, Eq, Structural)]
pub enum LookupStatistic {
    Upsets,
    Favored,
    Winrate,
    Odds,
    Earnings,
    MatchesLen,
    BetAmount,
    Duration,
}

impl LookupStatistic {
    /// What each statistic is, exactly: a fraction over the history, with the
    /// fixed default on an empty history (one half for the win rate, zero for
    /// the rest).
    pub open spec fn stat_value(self, s: Seq<Record>, name: Seq<char>) -> Ratio {
        match self {
            LookupStatistic::Upsets => if s.len() == 0 {
                Ratio { num: 0, den: 1 }
            } else {
                Ratio { num: s.filter(upset_pred(name)).len() as i128, den: s.len() as u128 }
            },
            LookupStatistic::Favored => if s.len() == 0 {
                Ratio { num: 0, den: 1 }
            } else {
                Ratio { num: s.filter(favored_pred(name)).len() as i128, den: s.len() as u128 }
            },
            LookupStatistic::Winrate => if s.len() == 0 {
                Ratio { num: 1, den: 2 }
            } else {
                Ratio { num: s.filter(winner_pred(name)).len() as i128, den: s.len() as u128 }
            },
            LookupStatistic::Odds => if s.len() == 0 {
                Ratio { num: 0, den: 1 }
            } else {
                Ratio {
                    num: sum_over(s, odds_fn(name)) as i128,
                    den: (s.len() * ODDS_SCALE) as u128,
                }
            },
            LookupStatistic::Earnings => Ratio {
                num: sum_over(s, earnings_fn(name)) as i128,
                den: ODDS_SCALE as u128,
            },
            LookupStatistic::MatchesLen => Ratio { num: s.len() as i128, den: 1 },
            LookupStatistic::BetAmount => if s.len() == 0 {
                Ratio { num: 0, den: 1 }
            } else {
                Ratio { num: sum_over(s, own_pool_fn(name)) as i128, den: s.len() as u128 }
            },
            LookupStatistic::Duration => if s.len() == 0 {
                Ratio { num: 0, den: 1 }
            } else {
                Ratio { num: sum_over(s, duration_fn()) as i128, den: s.len() as u128 }
            },
        }
    }

    /// Fraction of matches where the named competitor was the underdog.
    pub fn upsets(matches: &Vec<Record>, name: &String) -> (r: Ratio)
        ensures
            r == LookupStatistic::Upsets.stat_value(matches@, name@),
    {
        let n = matches.len();
        let mut count: usize = 0;
        let mut i: usize = 0;
        while i < n
            invariant
                i <= n,
                n == matches@.len(),
                count <= i,
                count == matches@.subrange(0, i as int).filter(upset_pred(name@)).len(),
            decreases n - i,
        {
            let rec = &matches[i];
            let hit = (str_eq(&rec.left.name, name) && rec.right.bet_amount > rec.left.bet_amount)
                || (str_eq(&rec.right.name, name) && rec.left.bet_amount > rec.right.bet_amount);
            proof {
                lemma_filter_subrange_step(matches@, upset_pred(name@), i as int);
                assert(upset_pred(name@)(matches@[i as int]) == upset_for(
                    matches@[i as int],
                    name@,
                ));
            }
            if hit {
                count = count + 1;
            }
            i = i + 1;
        }
        proof {
            assert(matches@.subrange(0, n as int) =~= matches@);
        }
        if n == 0 {
            Ratio { num: 0, den: 1 }
        } else {
            Ratio { num: count as i128, den: n as u128 }
        }
    }

    /// Fraction of matches where the named competitor was the favorite.
    pub fn favored(matches: &Vec<Record>, name: &String) -> (r: Ratio)
        ensures
            r == LookupStatistic::Favored.stat_value(matches@, name@),
    {
        let n = matches.len();
        let mut count: usize = 0;
        let mut i: usize = 0;
        while i < n
            invariant
                i <= n,
                n == matches@.len(),
                count <= i,
                count == matches@.subrange(0, i as int).filter(favored_pred(name@)).len(),
            decreases n - i,
        {
            let rec = &matches[i];
            let hit = (str_eq(&rec.left.name, name) && rec.left.bet_amount > rec.right.bet_amount)
                || (str_eq(&rec.right.name, name) && rec.right.bet_amount > rec.left.bet_amount);
            proof {
                lemma_filter_subrange_step(matches@, favored_pred(name@), i as int);
                assert(favored_pred(name@)(matches@[i as int]) == favored_for(
                    matches@[i as int],
                    name@,
                ));
            }
            if hit {
                count = count + 1;
            }
            i = i + 1;
        }
        proof {
            assert(matches@.subrange(0, n as int) =~= matches@);
        }
        if n == 0 {
            Ratio { num: 0, den: 1 }
        } else {
            Ratio { num: count as i128, den: n as u128 }
        }
    }

    /// Fraction of matches the named competitor won; one half with no history.
    pub fn winrate(matches: &Vec<Record>, name: &String) -> (r: Ratio)
        ensures
            r == LookupStatistic::Winrate.stat_value(matches@, name@),
    {
        let n = matches.len();
        let mut count: usize = 0;
        let mut i: usize = 0;
        while i < n
            invariant
                i <= n,
                n == matches@.len(),
                count <= i,
                count == matches@.subrange(0, i as int).filter(winner_pred(name@)).len(),
            decreases n - i,
        {
            let rec = &matches[i];
            let hit = rec.is_winner(name);
            proof {
                lemma_filter_subrange_step(matches@, winner_pred(name@), i as int);
                assert(winner_pred(name@)(matches@[i as int]) == is_winner_spec(
                    matches@[i as int],
                    name@,
                ));
            }
            if hit {
                count = count + 1;
            }
            i = i + 1;
        }
        proof {
            assert(matches@.subrange(0, n as int) =~= matches@);
        }
        if n == 0 {
            Ratio { num: 1, den: 2 }
        } else {
            Ratio { num: count as i128, den: n as u128 }
        }
    }

    /// Mean pool wagered on the named competitor's side.
    pub fn bet_amount(matches: &Vec<Record>, name: &String) -> (r: Ratio)
        ensures
            r == LookupStatistic::BetAmount.stat_value(matches@, name@),
    {
        let n = matches.len();
        let mut acc: u128 = 0;
        let mut i: usize = 0;
        while i < n
            invariant
                i <= n,
                n == matches@.len(),
                acc as int == sum_over(matches@.subrange(0, i as int), own_pool_fn(name@)),
                acc <= (i as u128) * 0xffff_ffffu128,
            decreases n - i,
        {
            let rec = &matches[i];
            let own: u32 = if str_eq(&rec.left.name, name) {
                rec.left.bet_amount
            } else {
                rec.right.bet_amount
            };
            proof {
                lemma_sum_step(matches@, own_pool_fn(name@), i as int);
                assert(own_pool_fn(name@)(matches@[i as int]) == own_pool(
                    matches@[i as int],
                    name@,
                ) as int);
            }
            acc = acc + (own as u128);
            i = i + 1;
        }
        proof {
            assert(matches@.subrange(0, n as int) =~= matches@);
        }
        if n == 0 {
            Ratio { num: 0, den: 1 }
        } else {
            Ratio { num: acc as i128, den: n as u128 }
        }
    }

    /// Mean match duration, competitor-independent.
    pub fn duration(matches: &Vec<Record>) -> (r: Ratio)
        ensures
            matches@.len() == 0 ==> r == (Ratio { num: 0, den: 1 }),
            matches@.len() > 0 ==> r == (Ratio {
                num: sum_over(matches@, duration_fn()) as i128,
                den: matches@.len() as u128,
            }),
    {
        let n = matches.len();
        let mut acc: u128 = 0;
        let mut i: usize = 0;
        while i < n
            invariant
                i <= n,
                n == matches@.len(),
                acc as int == sum_over(matches@.subrange(0, i as int), duration_fn()),
                acc <= (i as u128) * 0xffff_ffffu128,
            decreases n - i,
        {
            let rec = &matches[i];
            proof {
                lemma_sum_step(matches@, duration_fn(), i as int);
                assert(duration_fn()(matches@[i as int]) == matches@[i as int].duration as int);
            }
            acc = acc + (rec.duration as u128);
            i = i + 1;
        }
        proof {
            assert(matches@.subrange(0, n as int) =~= matches@);
        }
        if n == 0 {
            Ratio { num: 0, den: 1 }
        } else {
            Ratio { num: acc as i128, den: n as u128 }
        }
    }

    /// Mean odds faced by the named competitor: the opponent pool over the own
    /// pool, averaged, in `1 / ODDS_SCALE` steps.
    pub fn odds(matches: &Vec<Record>, name: &String) -> (r: Ratio)
        requires
            all_wf(matches@),
        ensures
            r == LookupStatistic::Odds.stat_value(matches@, name@),
    {
        let n = matches.len();
        let mut acc: u128 = 0;
        let mut i: usize = 0;
        while i < n
            invariant
                i <= n,
                n == matches@.len(),
                all_wf(matches@),
                acc as int == sum_over(matches@.subrange(0, i as int), odds_fn(name@)),
                acc <= (i as u128) * 0x1_0000_0000_0000u128,
            decreases n - i,
        {
            let rec = &matches[i];
            let (opp, own): (u32, u32) = if str_eq(&rec.left.name, name) {
                (rec.right.bet_amount, rec.left.bet_amount)
            } else {
                (rec.left.bet_amount, rec.right.bet_amount)
            };
            assert(own >= 1);
            let q: u128 = ((opp as u128) * 65536u128) / (own as u128);
            proof {
                lemma_div_nonincreasing((opp as int) * (ODDS_SCALE as int), own as int);
                lemma_sum_step(matches@, odds_fn(name@), i as int);
                assert(odds_fn(name@)(matches@[i as int]) == odds_q(matches@[i as int], name@));
            }
            acc = acc + q;
            i = i + 1;
        }
        proof {
            assert(matches@.subrange(0, n as int) =~= matches@);
        }
        if n == 0 {
            Ratio { num: 0, den: 1 }
        } else {
            Ratio { num: acc as i128, den: (n as u128) * 65536u128 }
        }
    }

    /// Cumulative earnings of a flat one-unit wager on the named competitor in
    /// every match: plus the odds faced on a win, minus one on a loss, summed
    /// (not averaged), in `1 / ODDS_SCALE` steps.
    pub fn earnings(matches: &Vec<Record>, name: &String) -> (r: Ratio)
        requires
            all_wf(matches@),
        ensures
            r == LookupStatistic::Earnings.stat_value(matches@, name@),
    {
        let n = matches.len();
        let mut acc: i128 = 0;
        let mut i: usize = 0;
        while i < n
            invariant
                i <= n,
                n == matches@.len(),
                all_wf(matches@),
                acc as int == sum_over(matches@.subrange(0, i as int), earnings_fn(name@)),
                -((i as i128) * 65536i128) <= acc <= (i as i128) * 0x1_0000_0000_0000i128,
            decreases n - i,
        {
            let rec = &matches[i];
            proof {
                lemma_sum_step(matches@, earnings_fn(name@), i as int);
                assert(earnings_fn(name@)(matches@[i as int]) == earnings_term(
                    matches@[i as int],
                    name@,
                ));
            }
            match rec.winner {
                crate::record::Winner::Left => {
                    if str_eq(&rec.left.name, name) {
                        let q: u128 = ((rec.right.bet_amount as u128) * 65536u128) / (
                        rec.left.bet_amount as u128);
                        proof {
                            lemma_div_nonincreasing(
                                (rec.right.bet_amount as int) * (ODDS_SCALE as int),
                                rec.left.bet_amount as int,
                            );
                        }
                        acc = acc + (q as i128);
                    } else {
                        acc = acc - 65536i128;
                    }
                },
                crate::record::Winner::Right => {
                    if str_eq(&rec.right.name, name) {
                        let q: u128 = ((rec.left.bet_amount as u128) * 65536u128) / (
                        rec.right.bet_amount as u128);
                        proof {
                            lemma_div_nonincreasing(
                                (rec.left.bet_amount as int) * (ODDS_SCALE as int),
                                rec.right.bet_amount as int,
                            );
                        }
                        acc = acc + (q as i128);
                    } else {
                        acc = acc - 65536i128;
                    }
                },
            }
            i = i + 1;
        }
        proof {
            assert(matches@.subrange(0, n as int) =~= matches@);
        }
        Ratio { num: acc, den: 65536u128 }
    }

    /// How many matches the history holds.
    pub fn matches_len(matches: &Vec<Record>) -> (r: Ratio)
        ensures
            r == (Ratio { num: matches@.len() as i128, den: 1 }),
    {
        let n = matches.len();
        Ratio { num: n as i128, den: 1 }
    }

    /// Compute this statistic for the named competitor over a history.
    pub fn lookup(&self, name: &String, matches: &Vec<Record>) -> (r: Ratio)
        requires
            all_wf(matches@),
        ensures
            r == self.stat_value(matches@, name@),
    {
        match self {
            LookupStatistic::Upsets => Self::upsets(matches, name),
            LookupStatistic::Favored => Self::favored(matches, name),
            LookupStatistic::Winrate => Self::winrate(matches, name),
            LookupStatistic::Earnings => Self::earnings(matches, name),
            LookupStatistic::Odds => Self::odds(matches, name),
            LookupStatistic::BetAmount => Self::bet_amount(matches, name),
            LookupStatistic::Duration => Self::duration(matches),
            LookupStatistic::MatchesLen => Self::matches_len(matches),
        }
    }
}

/// Which statistic each generation index stands for.
pub open spec fn statistic_of_index(i: int) -> LookupStatistic {
    if i == 0 {
        LookupStatistic::Upsets
    } else if i == 1 {
        LookupStatistic::Favored
    } else if i == 2 {
        LookupStatistic::Winrate
    } else if i == 3 {
        LookupStatistic::Odds
    } else if i == 4 {
        LookupStatistic::Earnings
    } else if i == 5 {
        LookupStatistic::MatchesLen
    } else if i == 6 {
        LookupStatistic::BetAmount
    } else {
        LookupStatistic::Duration
    }
}

impl LookupStatistic {
    /// The statistic a uniform draw in `[0, 8)` selects.
    pub fn from_index(i: u32) -> (r: Self)
        requires
            i < 8,
        ensures
            r == statistic_of_index(i as int),
    {
        if i == 0 {
            LookupStatistic::Upsets
        } else if i == 1 {
            LookupStatistic::Favored
        } else if i == 2 {
            LookupStatistic::Winrate
        } else if i == 3 {
            LookupStatistic::Odds
        } else if i == 4 {
            LookupStatistic::Earnings
        } else if i == 5 {
            LookupStatistic::MatchesLen
        } else if i == 6 {
            LookupStatistic::BetAmount
        } else {
            LookupStatistic::Duration
        }
    }

    /// A uniformly random statistic.
    pub fn new<R: Rng>(rng: &mut R) -> Self {
        Self::from_index(rng.below(8))
    }

    /// Mutate-or-recombine: with the source's mutation probability a fresh
    /// random statistic, otherwise one of the two parents, chosen uniformly.
    pub fn crossover<R: Rng>(&self, other: &Self, rng: &mut R) -> Self {
        if rng.mutates() {
            Self::new(rng)
        } else if rng.flip() {
            *self
        } else {
            *other
        }
    }
}

/// How much of a competitor's history a statistic sees.
#[derive(Clone, Copy, Debug, PartialEq, Eq, Structural)]
pub enum LookupFilter {
    All,
    Specific,
}

impl LookupFilter {
    /// What the filtered statistic is: over the whole history, or only over
    /// the matches that also involve the other named competitor.
    pub open spec fn filter_value(
        self,
        stat: LookupStatistic,
        target: Seq<char>,
        other: Seq<char>,
        s: Seq<Record>,
    ) -> Ratio {
        match self {
            LookupFilter::All => stat.stat_value(s, target),
            LookupFilter::Specific => stat.stat_value(s.filter(involves_pred(other)), target),
        }
    }

    /// Compute `stat` for `left` over `matches`, optionally narrowed to the
    /// head-to-head matches against `right`.
    pub fn lookup(
        &self,
        stat: &LookupStatistic,
        left: &String,
        right: &String,
        matches: &Vec<Record>,
    ) -> (r: Ratio)
        requires
            all_wf(matches@),
        ensures
            r == self.filter_value(*stat, left@, right@, matches@),
    {
        match self {
            LookupFilter::All => stat.lookup(left, matches),
            LookupFilter::Specific => {
                let n = matches.len();
                let mut v: Vec<Record> = Vec::new();
                let mut i: usize = 0;
                while i < n
                    invariant
                        i <= n,
                        n == matches@.len(),
                        all_wf(matches@),
                        v@ == matches@.subrange(0, i as int).filter(involves_pred(right@)),
                        all_wf(v@),
                    decreases n - i,
                {
                    let rec = &matches[i];
                    let keep = str_eq(&rec.left.name, right) || str_eq(&rec.right.name, right);
                    if keep {
                        v.push(rec.clone());
                    }
                    proof {
                        lemma_filter_subrange_step(matches@, involves_pred(right@), i as int);
                        assert(involves_pred(right@)(matches@[i as int]) == crate::record::involves(
                            matches@[i as int],
                            right@,
                        ));
                    }
                    i = i + 1;
                }
                proof {
                    assert(matches@.subrange(0, n as int) =~= matches@);
                }
                stat.lookup(left, &v)
            },
        }
    }

    /// A uniformly random filter.
    pub fn new<R: Rng>(rng: &mut R) -> Self {
        if rng.below(2) == 0 {
            LookupFilter::All
        } else {
            LookupFilter::Specific
        }
    }

    /// Mutate-or-recombine, as for the statistic gene.
    pub fn crossover<R: Rng>(&self, other: &Self, rng: &mut R) -> Self {
        if rng.mutates() {
            Self::new(rng)
        } else if rng.flip() {
            *self
        } else {
            *other
        }
    }
}

/// Which side of the current match a signal targets.
#[derive(Clone, Copy, Debug, PartialEq, Eq, Structural)]
pub enum LookupSide {
    Left,
    Right,
}

impl LookupSide {
    /// A uniformly random side.
    pub fn new<R: Rng>(rng: &mut R) -> Self {
        if rng.below(2) == 0 {
            LookupSide::Left
        } else {
            LookupSide::Right
        }
    }

    /// Mutate-or-recombine, as for the statistic gene.
    pub fn crossover<R: Rng>(&self, other: &Self, rng: &mut R) -> Self {
        if rng.mutates() {
            Self::new(rng)
        } else if rng.flip() {
            *self
        } else {
            *other
        }
    }
}

/// A value that can be computed against live simulation state; implemented by
/// `Lookup` and usable by strategies to size their bets.
pub trait Calculate<A> {
    fn calculate<B, C>(
        &self,
        simulation: &Simulation<B, C>,
        tier: &Tier,
        left: &String,
        right: &String,
    ) -> A
        requires
            simulation.wf(),
    ;

    fn precalculate(&self) -> Option<A> {
        Option::None
    }

    fn optimize(self) -> Self where Self: Sized {
        self
    }
}

/// A one-level composite bet-sizing signal: the active bankroll itself, or one
/// statistic of one side's competitor, optionally narrowed head-to-head.
#[derive(Clone, Copy, Debug, PartialEq, Eq, Structural)]
pub enum Lookup {
    Sum,
    Character(LookupSide, LookupFilter, LookupStatistic),
}

impl Lookup {
    /// What the signal evaluates to: the active pool, or the filtered
    /// statistic of the side's competitor, computed over that competitor's
    /// indexed history relative to the other name.
    pub open spec fn lookup_value<B, C>(
        self,
        sim: Simulation<B, C>,
        left: Seq<char>,
        right: Seq<char>,
    ) -> Ratio {
        match self {
            Lookup::Sum => Ratio { num: sim.active_sum() as i128, den: 1 },
            Lookup::Character(side, filter, stat) => match side {
                LookupSide::Left => filter.filter_value(stat, left, right, sim.characters.hist(left)),
                LookupSide::Right => filter.filter_value(
                    stat,
                    right,
                    left,
                    sim.characters.hist(right),
                ),
            },
        }
    }

    /// Evaluate the signal against live simulation state.
    pub fn evaluate<B, C>(
        &self,
        simulation: &Simulation<B, C>,
        left: &String,
        right: &String,
    ) -> (r: Ratio)
        requires
            simulation.wf(),
        ensures
            r == self.lookup_value(*simulation, left@, right@),
    {
        match self {
            Lookup::Sum => Ratio::from_int(simulation.sum() as i128),
            Lookup::Character(side, filter, stat) => match side {
                LookupSide::Left => {
                    let hist = simulation.characters.matches_for(left);
                    proof {
                        lemma_filter_wf(simulation.characters@, involves_pred(left@));
                    }
                    filter.lookup(stat, left, right, &hist)
                },
                LookupSide::Right => {
                    let hist = simulation.characters.matches_for(right);
                    proof {
                        lemma_filter_wf(simulation.characters@, involves_pred(right@));
                    }
                    filter.lookup(stat, right, left, &hist)
                },
            },
        }
    }

    /// A uniformly random signal: the bankroll, or a fully random statistic
    /// signal, with even odds.
    pub fn new<R: Rng>(rng: &mut R) -> Self {
        if rng.below(2) == 0 {
            Lookup::Sum
        } else {
            let side = LookupSide::new(rng);
            let filter = LookupFilter::new(rng);
            let stat = LookupStatistic::new(rng);
            Lookup::Character(side, filter, stat)
        }
    }

    /// Mutate-or-recombine: with the source's mutation probability a fresh
    /// random signal; otherwise two statistic signals recombine each sub-gene
    /// pairwise, and any other pairing falls back to picking one whole parent
    /// uniformly.
    pub fn crossover<R: Rng>(&self, other: &Self, rng: &mut R) -> Self {
        if rng.mutates() {
            Self::new(rng)
        } else {
            match self {
                Lookup::Character(f1, f2, f3) => match other {
                    Lookup::Character(m1, m2, m3) => {
                        let side = f1.crossover(m1, rng);
                        let filter = f2.crossover(m2, rng);
                        let stat = f3.crossover(m3, rng);
                        Lookup::Character(side, filter, stat)
                    },
                    _ => if rng.flip() {
                        *self
                    } else {
                        *other
                    },
                },
                _ => if rng.flip() {
                    *self
                } else {
                    *other
                },
            }
        }
    }
}

impl Calculate<Ratio> for Lookup {
    /// The signal's value against live simulation state; the bracket tag is
    /// not consulted.
    fn calculate<B, C>(
        &self,
        simulation: &Simulation<B, C>,
        _tier: &Tier,
        left: &String,
        right: &String,
    ) -> Ratio {
        self.evaluate(simulation, left, right)
    }
}

/// On an empty history every statistic falls back to its fixed default: one
/// half for the win rate, zero for all the others.
pub proof fn lemma_empty_history_defaults(name: Seq<char>)
    ensures
        LookupStatistic::Winrate.stat_value(Seq::<Record>::empty(), name) == (Ratio {
            num: 1,
            den: 2,
        }),
        LookupStatistic::Upsets.stat_value(Seq::<Record>::empty(), name) == (Ratio {
            num: 0,
            den: 1,
        }),
        LookupStatistic::Favored.stat_value(Seq::<Record>::empty(), name) == (Ratio {
            num: 0,
            den: 1,
        }),
        LookupStatistic::Odds.stat_value(Seq::<Record>::empty(), name) == (Ratio {
            num: 0,
            den: 1,
        }),
        LookupStatistic::BetAmount.stat_value(Seq::<Record>::empty(), name) == (Ratio {
            num: 0,
            den: 1,
        }),
        LookupStatistic::Duration.stat_value(Seq::<Record>::empty(), name) == (Ratio {
            num: 0,
            den: 1,
        }),
        LookupStatistic::MatchesLen.stat_value(Seq::<Record>::empty(), name) == (Ratio {
            num: 0,
            den: 1,
        }),
        LookupStatistic::Earnings.stat_value(Seq::<Record>::empty(), name) == (Ratio {
            num: 0,
            den: ODDS_SCALE as u128,
        }),
{
}

} // verus!
