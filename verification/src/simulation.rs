//! The simulation engine: bankroll state machine, bet clamping, outcome
//! settlement and the per-competitor history index.

use vstd::prelude::*;
use vstd::math::max;
use vstd::math::max3;
use vstd::math::min;
use crate::record::Record;
use crate::record::Tier;
use crate::record::Mode;
use crate::record::Winner;
use crate::record::swapped;
use crate::record::record_wf;
use crate::record::is_mirror;
use crate::record::involves;
use crate::record::str_eq;
use crate::rng::Rng;

verus! {

/// Starting (and floor) balance of the matchmaking pool.
pub const SALT_MINE_AMOUNT: u64 = 100;

/// Starting (and floor) balance of the tournament pool.
pub const TOURNAMENT_BALANCE: u64 = 1000;

/// A betting decision: an amount on one side, or no bet (`Pass`). The amount is the
/// strategy's raw request and may be negative or huge; the engine clamps it
/// before settling.
#[derive(Clone, Copy, Debug, PartialEq, Eq, Structural)]
pub enum Bet {
    Left(i128),
    Right(i128),
    Pass,
}

/// The predicate that keeps a competitor's history: every record the name
/// appears in, on either side.
pub open spec fn involves_pred(name: Seq<char>) -> spec_fn(Record) -> bool {
    |r: Record| involves(r, name)
}

/// The per-competitor history index. Appended records are kept once, in
/// insertion order; a competitor's history is the subsequence of records the
/// competitor appears in, so one flat list stands for the whole mapping from
/// names to histories.
pub struct CharacterIndex {
    records: Vec<Record>,
}

impl View for CharacterIndex {
    type V = Seq<Record>;

    closed spec fn view(&self) -> Seq<Record> {
        self.records@
    }
}

impl CharacterIndex {
    /// The named competitor's indexed history, oldest first.
    pub open spec fn hist(self, name: Seq<char>) -> Seq<Record> {
        self@.filter(involves_pred(name))
    }

    pub fn new() -> (r: CharacterIndex)
        ensures
            r@ == Seq::<Record>::empty(),
    {
        CharacterIndex { records: Vec::new() }
    }

    pub fn len(&self) -> (n: usize)
        ensures
            n == self@.len(),
    {
        self.records.len()
    }

    pub fn append(&mut self, r: Record)
        ensures
            final(self)@ == old(self)@.push(r),
            final(self)@.len() <= usize::MAX,
    {
        self.records.push(r);
        let n = self.records.len();
        assert(n == self@.len());
    }

    /// The named competitor's history as a fresh vector of copies.
    pub fn matches_for(&self, name: &String) -> (v: Vec<Record>)
        ensures
            v@ == self.hist(name@),
    {
        let mut v: Vec<Record> = Vec::new();
        let n = self.records.len();
        let mut i: usize = 0;
        while i < n
            invariant
                i <= n,
                n == self.records@.len(),
                v@ == self.records@.subrange(0, i as int).filter(involves_pred(name@)),
            decreases n - i,
        {
            let r = &self.records[i];
            let keep = str_eq(&r.left.name, name) || str_eq(&r.right.name, name);
            if keep {
                v.push(r.clone());
            }
            proof {
                reveal(Seq::filter);
                let s = self.records@;
                let pred = involves_pred(name@);
                assert(s.subrange(0, i + 1 as int).drop_last() =~= s.subrange(0, i as int));
                assert(s.subrange(0, i + 1 as int).last() == s[i as int]);
                assert(pred(s[i as int]) == involves(s[i as int], name@));
            }
            i = i + 1;
        }
        proof {
            assert(self.records@.subrange(0, n as int) =~= self.records@);
        }
        v
    }

    /// How many indexed matches the named competitor has.
    pub fn count_for(&self, name: &String) -> (n: usize)
        ensures
            n == self.hist(name@).len(),
    {
        let v = self.matches_for(name);
        v.len()
    }
}

/// Appending one record extends exactly the histories of the competitors it
/// involves, and no other.
pub proof fn lemma_hist_push(s: Seq<Record>, r: Record, name: Seq<char>)
    ensures
        involves(r, name) ==> s.push(r).filter(involves_pred(name)) == s.filter(
            involves_pred(name),
        ).push(r),
        !involves(r, name) ==> s.push(r).filter(involves_pred(name)) == s.filter(
            involves_pred(name),
        ),
{
    reveal(Seq::filter);
    let pred = involves_pred(name);
    assert(s.push(r).drop_last() =~= s);
    assert(s.push(r).last() == r);
    assert(pred(r) == involves(r, name));
}

/// A pluggable betting strategy: given the simulation's public state, the
/// bracket tag and the two competitor names (left and right of the current,
/// possibly side-swapped, record), return a bet decision. Implementations must
/// not mutate the simulation; they only read it.
pub trait Strategy: Sized {
    fn bet<A, B>(
        &self,
        simulation: &Simulation<A, B>,
        tier: &Tier,
        left: &String,
        right: &String,
    ) -> Bet;
}

/// The replay engine. It owns two bankroll pools (matchmaking and tournament,
/// one active at a time), success/failure counters, and the per-competitor
/// history index, and replays records through the configured strategies.
#[verifier::ext_equal]
pub struct Simulation<A, B> {
    pub matchmaking_strategy: Option<A>,
    pub tournament_strategy: Option<B>,
    /// Non-mirror matches indexed so far.
    pub record_len: u64,
    /// The matchmaking pool.
    pub sum: u64,
    /// The tournament pool.
    pub tournament_sum: u64,
    /// Which pool is active.
    pub in_tournament: bool,
    pub successes: u64,
    pub failures: u64,
    /// The largest per-competitor history length seen.
    pub max_character_len: usize,
    pub characters: CharacterIndex,
}

impl<A, B> Simulation<A, B> {
    /// The currently active pool's balance.
    pub open spec fn active_sum(self) -> u64 {
        if self.in_tournament {
            self.tournament_sum
        } else {
            self.sum
        }
    }

    /// The currently active pool's floor.
    pub open spec fn active_floor(self) -> u64 {
        if self.in_tournament {
            TOURNAMENT_BALANCE
        } else {
            SALT_MINE_AMOUNT
        }
    }

    /// The active pool has sunk to (or below) its floor: the engine bets the
    /// whole pool to recover.
    pub open spec fn is_floored(self) -> bool {
        self.active_sum() <= self.active_floor()
    }

    /// The engine's invariant: both pools stay strictly positive, the replay
    /// counter matches the index, every indexed record is a well-formed
    /// non-mirror match, and no history is longer than the recorded maximum.
    pub open spec fn wf(self) -> bool {
        &&& self.sum >= 1
        &&& self.tournament_sum >= 1
        &&& self.record_len as int == self.characters@.len() as int
        &&& forall|i: int|
            0 <= i < self.characters@.len() ==> record_wf(#[trigger] self.characters@[i])
                && !is_mirror(self.characters@[i])
        &&& forall|name: Seq<char>|
            #[trigger] self.characters.hist(name).len() <= self.max_character_len
    }

    /// A fresh engine: matchmaking pool at its starting balance, outside any
    /// tournament, nothing replayed, no strategies attached.
    pub fn new() -> (r: Self)
        ensures
            r.matchmaking_strategy is None,
            r.tournament_strategy is None,
            r.record_len == 0,
            r.sum == SALT_MINE_AMOUNT,
            r.tournament_sum == TOURNAMENT_BALANCE,
            !r.in_tournament,
            r.successes == 0,
            r.failures == 0,
            r.max_character_len == 0,
            r.characters@ == Seq::<Record>::empty(),
            r.wf(),
    {
        let r = Simulation {
            matchmaking_strategy: None,
            tournament_strategy: None,
            record_len: 0,
            sum: SALT_MINE_AMOUNT,
            tournament_sum: TOURNAMENT_BALANCE,
            in_tournament: false,
            successes: 0,
            failures: 0,
            max_character_len: 0,
            characters: CharacterIndex::new(),
        };
        proof {
            assert forall|name: Seq<char>| #[trigger] r.characters.hist(name).len() <= 0 by {
                assert(r.characters@.filter(involves_pred(name)) =~= Seq::<Record>::empty());
            }
        }
        r
    }

    /// Index one record for both competitors, unless it is a mirror match.
    /// Mirror matches leave the engine untouched; any other record is appended
    /// to the index once, the replay counter steps, and the maximum history
    /// length is refreshed from the two competitors involved. Pools, counters
    /// and strategies never change here.
    pub fn insert_record(&mut self, record: &Record)
        requires
            old(self).wf(),
            record_wf(*record),
        ensures
            final(self).wf(),
            is_mirror(*record) ==> *final(self) == *old(self),
            !is_mirror(*record) ==> final(self).characters@ == old(self).characters@.push(
                *record,
            ),
            !is_mirror(*record) ==> final(self).record_len == old(self).record_len + 1,
            !is_mirror(*record) ==> final(self).max_character_len as int == max3(
                old(self).max_character_len as int,
                final(self).characters.hist(record.left.name@).len() as int,
                final(self).characters.hist(record.right.name@).len() as int,
            ),
            final(self).sum == old(self).sum,
            final(self).tournament_sum == old(self).tournament_sum,
            final(self).in_tournament == old(self).in_tournament,
            final(self).successes == old(self).successes,
            final(self).failures == old(self).failures,
            final(self).matchmaking_strategy == old(self).matchmaking_strategy,
            final(self).tournament_strategy == old(self).tournament_strategy,
    {
        let distinct = !str_eq(&record.left.name, &record.right.name);
        if distinct {
            self.characters.append(record.clone());
            self.record_len = self.record_len + 1;
            let cl = self.characters.count_for(&record.left.name);
            let cr = self.characters.count_for(&record.right.name);
            if cl > self.max_character_len {
                self.max_character_len = cl;
            }
            if cr > self.max_character_len {
                self.max_character_len = cr;
            }
            proof {
                let olds = old(self).characters@;
                assert forall|name: Seq<char>|
                    #[trigger] self.characters.hist(name).len() <= self.max_character_len by {
                    lemma_hist_push(olds, *record, name);
                    if involves(*record, name) {
                        if name == record.left.name@ {
                            assert(self.characters.hist(name).len() == cl);
                        } else {
                            assert(name == record.right.name@);
                            assert(self.characters.hist(name).len() == cr);
                        }
                    } else {
                        assert(self.characters.hist(name) == old(self).characters.hist(name));
                    }
                }
            }
        }
    }

    /// The balance of the pool selected by `in_tournament`.
    pub fn sum(&self) -> (r: u64)
        ensures
            r == self.active_sum(),
    {
        if self.in_tournament {
            self.tournament_sum
        } else {
            self.sum
        }
    }

    /// Whether the active pool has sunk to its floor ("in the salt mines"):
    /// every bet is then forced all-in to recover.
    pub fn is_in_mines(&self) -> (r: bool)
        ensures
            r == self.is_floored(),
    {
        if self.in_tournament {
            self.tournament_sum <= TOURNAMENT_BALANCE
        } else {
            self.sum <= SALT_MINE_AMOUNT
        }
    }

    /// What `clamp` returns: the whole active pool at the floor, the request
    /// clamped into `[1, active pool]` otherwise.
    pub open spec fn clamp_spec(self, a: int) -> int {
        if self.is_floored() {
            self.active_sum() as int
        } else {
            max(1, min(a, self.active_sum() as int))
        }
    }

    /// Clamp a requested bet amount. At the floor the whole active pool is
    /// bet, whatever was asked; otherwise the request is clamped into
    /// `[1, active pool]`.
    pub fn clamp(&self, bet_amount: i128) -> (r: u64)
        requires
            self.wf(),
        ensures
            r as int == self.clamp_spec(bet_amount as int),
            self.is_floored() ==> r == self.active_sum(),
            !self.is_floored() ==> 1 <= r <= self.active_sum(),
    {
        let sum = self.sum();
        if self.is_in_mines() {
            sum
        } else {
            if bet_amount < 1 {
                1
            } else if bet_amount > sum as i128 {
                sum
            } else {
                bet_amount as u64
            }
        }
    }
}

/// The wagered pool on the side that won the record.
pub open spec fn winner_pool(r: Record) -> u32 {
    match r.winner {
        Winner::Left => r.left.bet_amount,
        Winner::Right => r.right.bet_amount,
    }
}

/// The wagered pool on the side that lost the record.
pub open spec fn loser_pool(r: Record) -> u32 {
    match r.winner {
        Winner::Left => r.right.bet_amount,
        Winner::Right => r.left.bet_amount,
    }
}

/// Swapping a record's sides leaves the outcome-relative facts alone.
pub proof fn lemma_swapped_pools(r: Record)
    ensures
        winner_pool(swapped(r)) == winner_pool(r),
        loser_pool(swapped(r)) == loser_pool(r),
        is_mirror(swapped(r)) == is_mirror(r),
        swapped(r).mode == r.mode,
        record_wf(swapped(r)) == record_wf(r),
{
}

/// What a winning bet of `a` pays out: `a` times the losing pool over the
/// winning pool, rounded up.
pub open spec fn win_gain(a: int, opp: int, own: int) -> int {
    (a * opp + own - 1) / own
}

/// A pool after applying a signed change: reset to the floor when the result
/// would not be positive, capped at the largest representable balance.
pub open spec fn settled_pool(cur: int, inc: int, floor: int) -> int {
    if cur + inc <= 0 {
        floor
    } else if cur + inc > u64::MAX {
        u64::MAX as int
    } else {
        cur + inc
    }
}

/// Keeps the records that are not mirror matches.
pub open spec fn non_mirror_pred() -> spec_fn(Record) -> bool {
    |r: Record| !is_mirror(r)
}

/// The largest payout the settlement arithmetic can produce.
const MAX_GAIN: i128 = 0x2_0000_0000_0000_0000_0000_0000;

/// The most negative pool change the settlement arithmetic can produce.
const MIN_LOSS: i128 = -0x1_0000_0000_0000_0000_0000;

fn sat_add(a: u64, b: u64) -> (r: u64)
    ensures
        r as int == min(a as int + b as int, u64::MAX as int),
{
    if a > u64::MAX - b {
        u64::MAX
    } else {
        a + b
    }
}

fn sat_inc(c: u64) -> (r: u64)
    ensures
        r as int == min(c as int + 1, u64::MAX as int),
{
    if c < u64::MAX {
        c + 1
    } else {
        c
    }
}

/// `ceil(a * opp / own)`, the payout of a winning bet of `a`.
fn ceil_odds(a: u64, opp: u32, own: u32) -> (r: i128)
    requires
        own >= 1,
    ensures
        r == win_gain(a as int, opp as int, own as int),
        0 <= r <= MAX_GAIN,
{
    let b: u128 = a as u128;
    let o: u128 = opp as u128;
    let w: u128 = own as u128;
    proof {
        assert(b * o <= 0xffff_ffff_ffff_ffffu128 * 0xffff_ffffu128) by (nonlinear_arith)
            requires
                b <= 0xffff_ffff_ffff_ffffu128,
                o <= 0xffff_ffffu128,
        ;
    }
    let num: u128 = b * o + w - 1;
    let q: u128 = num / w;
    q as i128
}

/// Apply a signed change to one pool, resetting to its floor when the pool
/// would be emptied and capping at the largest representable balance.
fn settle_pool(current: u64, increase: i128, floor: u64) -> (r: u64)
    requires
        MIN_LOSS <= increase <= MAX_GAIN,
        floor >= 1,
    ensures
        r as int == settled_pool(current as int, increase as int, floor as int),
        r >= 1,
{
    let t: i128 = current as i128 + increase;
    if t <= 0 {
        floor
    } else if t > (u64::MAX as i128) {
        u64::MAX
    } else {
        t as u64
    }
}

impl<A, B> Simulation<A, B> {
    /// The phase transition a record's mode forces before any betting: a
    /// matchmaking record folds a running tournament pool back into the
    /// matchmaking pool (capped at the largest representable balance) and
    /// resets it; a tournament record switches the tournament pool active.
    pub open spec fn phase_step(self, mode: Mode) -> Self {
        match mode {
            Mode::Matchmaking => if self.in_tournament {
                Simulation {
                    in_tournament: false,
                    sum: min(self.sum as int + self.tournament_sum as int, u64::MAX as int) as u64,
                    tournament_sum: TOURNAMENT_BALANCE,
                    ..self
                }
            } else {
                self
            },
            Mode::Tournament => Simulation { in_tournament: true, ..self },
        }
    }

    /// `self` with the active pool's balance replaced.
    pub open spec fn with_active(self, v: u64) -> Self {
        if self.in_tournament {
            Simulation { tournament_sum: v, ..self }
        } else {
            Simulation { sum: v, ..self }
        }
    }

    /// The state after a winning bet of `a` settles: the active pool grows by
    /// the payout and a success is counted.
    pub open spec fn win_settled(self, a: int, opp: int, own: int) -> Self {
        Simulation {
            successes: min(self.successes as int + 1, u64::MAX as int) as u64,
            ..(self.with_active(
                settled_pool(
                    self.active_sum() as int,
                    win_gain(a, opp, own),
                    self.active_floor() as int,
                ) as u64,
            ))
        }
    }

    /// The state after a losing bet of `a` settles: the active pool shrinks by
    /// the bet (resetting to the floor when emptied) and a failure is counted.
    pub open spec fn loss_settled(self, a: int) -> Self {
        Simulation {
            failures: min(self.failures as int + 1, u64::MAX as int) as u64,
            ..(self.with_active(
                settled_pool(self.active_sum() as int, -a, self.active_floor() as int) as u64,
            ))
        }
    }

    /// What a shaped decision for a non-mirror record may look like: a
    /// concrete bet is the whole active pool when floored and within
    /// `[1, active pool]` otherwise; no bet is only possible away from the
    /// floor.
    pub open spec fn valid_bet(self, b: Bet) -> bool {
        match b {
            Bet::Left(a) => if self.is_floored() {
                a == self.active_sum()
            } else {
                1 <= a <= self.active_sum()
            },
            Bet::Right(a) => if self.is_floored() {
                a == self.active_sum()
            } else {
                1 <= a <= self.active_sum()
            },
            Bet::Pass => !self.is_floored(),
        }
    }

    /// How a settled state `fin` may relate to the pre-settlement state `mid`,
    /// for a record whose winning and losing pools are `wpool` and `lpool`:
    /// either no bet was placed, or some valid amount was won or lost.
    pub open spec fn settle_rel(mid: Self, fin: Self, wpool: int, lpool: int) -> bool {
        ||| (fin == mid && !mid.is_floored())
        ||| (exists|a: int|
            #![auto]
            1 <= a <= mid.active_sum() && (mid.is_floored() ==> a == mid.active_sum()) && fin
                == mid.win_settled(a, lpool, wpool))
        ||| (exists|a: int|
            #![auto]
            1 <= a <= mid.active_sum() && (mid.is_floored() ==> a == mid.active_sum()) && fin
                == mid.loss_settled(a))
    }

    fn settle_win(&mut self, a: i128, opp: u32, own: u32)
        requires
            old(self).wf(),
            own >= 1,
            1 <= a <= old(self).active_sum(),
        ensures
            *final(self) == old(self).win_settled(a as int, opp as int, own as int),
            final(self).wf(),
    {
        let gain = ceil_odds(a as u64, opp, own);
        self.successes = sat_inc(self.successes);
        if self.in_tournament {
            self.tournament_sum = settle_pool(self.tournament_sum, gain, TOURNAMENT_BALANCE);
        } else {
            self.sum = settle_pool(self.sum, gain, SALT_MINE_AMOUNT);
        }
        proof {
            assert(*self =~= old(self).win_settled(a as int, opp as int, own as int));
        }
    }

    fn settle_loss(&mut self, a: i128)
        requires
            old(self).wf(),
            1 <= a <= old(self).active_sum(),
        ensures
            *final(self) == old(self).loss_settled(a as int),
            final(self).wf(),
    {
        if self.in_tournament {
            self.failures = sat_inc(self.failures);
            self.tournament_sum = settle_pool(self.tournament_sum, -a, TOURNAMENT_BALANCE);
        } else {
            self.failures = sat_inc(self.failures);
            self.sum = settle_pool(self.sum, -a, SALT_MINE_AMOUNT);
        }
        proof {
            assert(*self =~= old(self).loss_settled(a as int));
        }
    }
}

impl<A, B> Simulation<A, B> {
    /// What the engine makes of a strategy's raw decision: a concrete amount
    /// keeps its side and is clamped; "no bet" at a floored pool becomes a
    /// forced all-in, on the left when `force_left` holds, else on the right.
    pub open spec fn decided_bet(self, raw: Bet, force_left: bool) -> Bet {
        match raw {
            Bet::Left(a) => Bet::Left(self.clamp_spec(a as int) as i128),
            Bet::Right(a) => Bet::Right(self.clamp_spec(a as int) as i128),
            Bet::Pass => if self.is_floored() {
                if force_left {
                    Bet::Left(self.active_sum() as i128)
                } else {
                    Bet::Right(self.active_sum() as i128)
                }
            } else {
                Bet::Pass
            },
        }
    }

    /// Shape a strategy's raw decision: the side of a concrete bet is kept and
    /// its amount clamped; a pass at a floored pool turns into the forced
    /// all-in recovery bet on the given side.
    pub fn decide_bet(&self, raw: Bet, force_left: bool) -> (b: Bet)
        requires
            self.wf(),
        ensures
            b == self.decided_bet(raw, force_left),
            self.valid_bet(b),
    {
        match raw {
            Bet::Left(bet_amount) => Bet::Left(self.clamp(bet_amount) as i128),
            Bet::Right(bet_amount) => Bet::Right(self.clamp(bet_amount) as i128),
            Bet::Pass => if self.is_in_mines() {
                if force_left {
                    Bet::Left(self.sum() as i128)
                } else {
                    Bet::Right(self.sum() as i128)
                }
            } else {
                Bet::Pass
            },
        }
    }
}

impl<A: Strategy, B: Strategy> Simulation<A, B> {
    /// The decision for one (already side-shuffled) record: a mirror match
    /// never consults the strategy and never bets, whatever the pool; any
    /// other record's strategy decision is shaped by `decide_bet` (clamped,
    /// or forced all-in at a floored pool).
    pub fn pick_winner<C: Strategy, R: Rng>(
        &self,
        strategy: &C,
        rng: &mut R,
        record: &Record,
    ) -> (b: Bet)
        requires
            self.wf(),
        ensures
            is_mirror(*record) ==> b is Pass,
            !is_mirror(*record) ==> self.valid_bet(b),
    {
        if str_eq(&record.left.name, &record.right.name) {
            return Bet::Pass;
        }
        let raw = strategy.bet(self, &record.tier, &record.left.name, &record.right.name);
        let force_left = match raw {
            Bet::Pass => rng.flip(),
            _ => false,
        };
        self.decide_bet(raw, force_left)
    }

    /// Replay one record: shuffle its sides at random, apply the phase
    /// transition its mode forces, skip betting entirely when no strategy is
    /// configured for that mode or the match is a mirror match, otherwise
    /// obtain a decision and settle it against the record's winner. Indexing
    /// is not done here.
    pub fn calculate<R: Rng>(&mut self, rng: &mut R, record: &Record)
        requires
            old(self).wf(),
            record_wf(*record),
        ensures
            final(self).wf(),
            final(self).characters@ == old(self).characters@,
            final(self).record_len == old(self).record_len,
            final(self).max_character_len == old(self).max_character_len,
            final(self).matchmaking_strategy == old(self).matchmaking_strategy,
            final(self).tournament_strategy == old(self).tournament_strategy,
            record.mode is Matchmaking ==> !final(self).in_tournament,
            record.mode is Matchmaking ==> final(self).tournament_sum == old(self).phase_step(
                Mode::Matchmaking,
            ).tournament_sum,
            record.mode is Tournament ==> final(self).in_tournament,
            record.mode is Tournament ==> final(self).sum == old(self).sum,
            record.mode is Matchmaking && old(self).matchmaking_strategy is None ==> *final(self)
                == old(self).phase_step(Mode::Matchmaking),
            record.mode is Tournament && old(self).tournament_strategy is None ==> *final(self)
                == old(self).phase_step(Mode::Tournament),
            !is_mirror(*record) && record.mode is Matchmaking && old(self).matchmaking_strategy
                is Some ==> Self::settle_rel(
                old(self).phase_step(Mode::Matchmaking),
                *final(self),
                winner_pool(*record) as int,
                loser_pool(*record) as int,
            ),
            !is_mirror(*record) && record.mode is Tournament && old(self).tournament_strategy
                is Some ==> Self::settle_rel(
                old(self).phase_step(Mode::Tournament),
                *final(self),
                winner_pool(*record) as int,
                loser_pool(*record) as int,
            ),
            is_mirror(*record) ==> *final(self) == old(self).phase_step(record.mode),
            final(self).successes >= old(self).successes,
            final(self).failures >= old(self).failures,
            final(self).successes as int + final(self).failures as int <= old(self).successes
                as int + old(self).failures as int + 1,
    {
        let swap = rng.flip();
        let rec = record.clone().shuffle(swap);
        proof {
            lemma_swapped_pools(*record);
        }
        let winner: Bet = match rec.mode {
            Mode::Matchmaking => {
                if self.in_tournament {
                    self.in_tournament = false;
                    self.sum = sat_add(self.sum, self.tournament_sum);
                    self.tournament_sum = TOURNAMENT_BALANCE;
                }
                proof {
                    assert(*self =~= old(self).phase_step(Mode::Matchmaking));
                }
                match &self.matchmaking_strategy {
                    Option::Some(a) => self.pick_winner(a, rng, &rec),
                    Option::None => {
                        return ;
                    },
                }
            },
            Mode::Tournament => {
                self.in_tournament = true;
                proof {
                    assert(*self =~= old(self).phase_step(Mode::Tournament));
                }
                match &self.tournament_strategy {
                    Option::Some(a) => self.pick_winner(a, rng, &rec),
                    Option::None => {
                        return ;
                    },
                }
            },
        };
        let ghost mid = *self;
        match winner {
            Bet::Left(bet_amount) => match rec.winner {
                Winner::Left => {
                    self.settle_win(bet_amount, rec.right.bet_amount, rec.left.bet_amount);
                    proof {
                        assert(Self::settle_rel(
                            mid,
                            *self,
                            winner_pool(*record) as int,
                            loser_pool(*record) as int,
                        ));
                    }
                },
                Winner::Right => {
                    self.settle_loss(bet_amount);
                    proof {
                        assert(Self::settle_rel(
                            mid,
                            *self,
                            winner_pool(*record) as int,
                            loser_pool(*record) as int,
                        ));
                    }
                },
            },
            Bet::Right(bet_amount) => match rec.winner {
                Winner::Right => {
                    self.settle_win(bet_amount, rec.left.bet_amount, rec.right.bet_amount);
                    proof {
                        assert(Self::settle_rel(
                            mid,
                            *self,
                            winner_pool(*record) as int,
                            loser_pool(*record) as int,
                        ));
                    }
                },
                Winner::Left => {
                    self.settle_loss(bet_amount);
                    proof {
                        assert(Self::settle_rel(
                            mid,
                            *self,
                            winner_pool(*record) as int,
                            loser_pool(*record) as int,
                        ));
                    }
                },
            },
            Bet::Pass => {},
        }
    }
}

/// Extending a prefix by one element extends its filtered image exactly when
/// the element satisfies the predicate.
pub proof fn lemma_filter_subrange_step(s: Seq<Record>, pred: spec_fn(Record) -> bool, i: int)
    requires
        0 <= i < s.len(),
    ensures
        pred(s[i]) ==> s.subrange(0, i + 1).filter(pred) == s.subrange(0, i).filter(pred).push(
            s[i],
        ),
        !pred(s[i]) ==> s.subrange(0, i + 1).filter(pred) == s.subrange(0, i).filter(pred),
{
    reveal(Seq::filter);
    assert(s.subrange(0, i + 1).drop_last() =~= s.subrange(0, i));
    assert(s.subrange(0, i + 1).last() == s[i]);
}

/// Every record of `s` has strictly positive pools.
pub open spec fn all_wf(s: Seq<Record>) -> bool {
    forall|i: int| 0 <= i < s.len() ==> record_wf(#[trigger] s[i])
}

/// Every record of `s` is a matchmaking match.
pub open spec fn all_matchmaking(s: Seq<Record>) -> bool {
    forall|i: int| 0 <= i < s.len() ==> (#[trigger] s[i].mode) is Matchmaking
}

/// Whether a replay of `s`, started outside a tournament, ends inside one:
/// exactly when the last record is a tournament match.
pub open spec fn ends_in_tournament(s: Seq<Record>) -> bool {
    s.len() > 0 && s.last().mode is Tournament
}

/// How many times a replay of `s`, started outside a tournament, folds the
/// tournament pool back into the matchmaking pool before the end of the
/// replay: once for each matchmaking record that closes a run of tournament
/// records.
pub open spec fn tournament_folds(s: Seq<Record>) -> int
    decreases s.len(),
{
    if s.len() == 0 {
        0
    } else {
        tournament_folds(s.drop_last()) + if s.last().mode is Matchmaking && ends_in_tournament(
            s.drop_last(),
        ) {
            1int
        } else {
            0int
        }
    }
}

/// Extending a replayed prefix by one record closes a fold exactly when that
/// record is a matchmaking match arriving inside a tournament.
pub proof fn lemma_folds_step(s: Seq<Record>, i: int)
    requires
        0 <= i < s.len(),
    ensures
        tournament_folds(s.subrange(0, i + 1)) == tournament_folds(s.subrange(0, i)) + if s[i].mode
            is Matchmaking && ends_in_tournament(s.subrange(0, i)) {
            1int
        } else {
            0int
        },
        ends_in_tournament(s.subrange(0, i + 1)) == (s[i].mode is Tournament),
{
    assert(s.subrange(0, i + 1).drop_last() =~= s.subrange(0, i));
    assert(s.subrange(0, i + 1).last() == s[i]);
}

/// The largest per-competitor history length recorded after indexing `s` (in
/// order, skipping mirror matches) into an index already holding `pre`,
/// starting from a recorded maximum of `m`: each non-mirror record refreshes
/// the maximum from its two competitors' grown histories.
pub open spec fn max_len_after(m: int, pre: Seq<Record>, s: Seq<Record>) -> int
    decreases s.len(),
{
    if s.len() == 0 {
        m
    } else {
        let m1 = max_len_after(m, pre, s.drop_last());
        let r = s.last();
        if is_mirror(r) {
            m1
        } else {
            let idx = (pre + s.drop_last().filter(non_mirror_pred())).push(r);
            max3(
                m1,
                idx.filter(involves_pred(r.left.name@)).len() as int,
                idx.filter(involves_pred(r.right.name@)).len() as int,
            )
        }
    }
}

/// One indexing step of the recorded maximum, on a growing prefix.
pub proof fn lemma_max_len_step(m: int, pre: Seq<Record>, s: Seq<Record>, i: int)
    requires
        0 <= i < s.len(),
    ensures
        max_len_after(m, pre, s.subrange(0, i + 1)) == (if is_mirror(s[i]) {
            max_len_after(m, pre, s.subrange(0, i))
        } else {
            max3(
                max_len_after(m, pre, s.subrange(0, i)),
                (pre + s.subrange(0, i).filter(non_mirror_pred())).push(s[i]).filter(
                    involves_pred(s[i].left.name@),
                ).len() as int,
                (pre + s.subrange(0, i).filter(non_mirror_pred())).push(s[i]).filter(
                    involves_pred(s[i].right.name@),
                ).len() as int,
            )
        }),
{
    assert(s.subrange(0, i + 1).drop_last() =~= s.subrange(0, i));
    assert(s.subrange(0, i + 1).last() == s[i]);
}

/// Indexing the same batch twice appends rather than replaces: every
/// competitor's history grows by exactly twice the batch's contribution to it.
pub proof fn lemma_index_twice_doubles(pre: Seq<Record>, batch: Seq<Record>, name: Seq<char>)
    ensures
        (pre + batch.filter(non_mirror_pred()) + batch.filter(non_mirror_pred())).filter(
            involves_pred(name),
        ).len() == pre.filter(involves_pred(name)).len() + 2 * batch.filter(
            non_mirror_pred(),
        ).filter(involves_pred(name)).len(),
{
    let f = batch.filter(non_mirror_pred());
    let p = involves_pred(name);
    Seq::filter_distributes_over_add(pre + f, f, p);
    Seq::filter_distributes_over_add(pre, f, p);
}

impl<A: Strategy, B: Strategy> Simulation<A, B> {
    /// Replay a whole record sequence in order (bet, settle, then index each
    /// record), and finally fold a still-running tournament pool back into the
    /// matchmaking pool. With no strategies attached the bankroll counters are
    /// left alone, and a purely matchmaking sequence then changes no pool at
    /// all; the index and replay counter always grow by exactly the non-mirror
    /// records, in order.
    pub fn simulate<R: Rng>(&mut self, rng: &mut R, records: &Vec<Record>)
        requires
            old(self).wf(),
            all_wf(records@),
        ensures
            final(self).wf(),
            !final(self).in_tournament,
            final(self).characters@ == old(self).characters@ + records@.filter(non_mirror_pred()),
            final(self).record_len as int == old(self).record_len + records@.filter(
                non_mirror_pred(),
            ).len(),
            final(self).max_character_len >= old(self).max_character_len,
            final(self).max_character_len as int == max_len_after(
                old(self).max_character_len as int,
                old(self).characters@,
                records@,
            ),
            final(self).matchmaking_strategy == old(self).matchmaking_strategy,
            final(self).tournament_strategy == old(self).tournament_strategy,
            final(self).successes >= old(self).successes,
            final(self).failures >= old(self).failures,
            final(self).successes as int + final(self).failures as int <= old(self).successes
                as int + old(self).failures as int + records@.len(),
            old(self).matchmaking_strategy is None && old(self).tournament_strategy is None ==> (
            final(self).successes == old(self).successes && final(self).failures == old(
                self,
            ).failures),
            old(self).matchmaking_strategy is None && old(self).tournament_strategy is None && !old(
                self,
            ).in_tournament && all_matchmaking(records@) ==> final(self).sum == old(self).sum
                && final(self).tournament_sum == old(self).tournament_sum,
            old(self).in_tournament || old(self).tournament_sum == TOURNAMENT_BALANCE
                ==> final(self).tournament_sum == TOURNAMENT_BALANCE,
            old(self).matchmaking_strategy is None && old(self).tournament_strategy is None && !old(
                self,
            ).in_tournament && old(self).tournament_sum == TOURNAMENT_BALANCE
                ==> final(self).sum as int == min(
                old(self).sum as int + TOURNAMENT_BALANCE as int * (tournament_folds(records@) + (
                if ends_in_tournament(records@) {
                    1int
                } else {
                    0int
                })),
                u64::MAX as int,
            ),
    {
        let n = records.len();
        let mut i: usize = 0;
        while i < n
            invariant
                i <= n,
                n == records@.len(),
                all_wf(records@),
                self.wf(),
                self.characters@ == old(self).characters@ + records@.subrange(0, i as int).filter(
                    non_mirror_pred(),
                ),
                self.record_len as int == old(self).record_len + records@.subrange(
                    0,
                    i as int,
                ).filter(non_mirror_pred()).len(),
                self.max_character_len >= old(self).max_character_len,
                self.max_character_len as int == max_len_after(
                    old(self).max_character_len as int,
                    old(self).characters@,
                    records@.subrange(0, i as int),
                ),
                self.matchmaking_strategy == old(self).matchmaking_strategy,
                self.tournament_strategy == old(self).tournament_strategy,
                self.successes >= old(self).successes,
                self.failures >= old(self).failures,
                self.successes as int + self.failures as int <= old(self).successes as int + old(
                    self,
                ).failures as int + i,
                old(self).matchmaking_strategy is None && old(self).tournament_strategy is None
                    ==> (self.successes == old(self).successes && self.failures == old(
                    self,
                ).failures),
                old(self).matchmaking_strategy is None && old(self).tournament_strategy is None
                    && !old(self).in_tournament && all_matchmaking(records@) ==> (
                !self.in_tournament && self.sum == old(self).sum && self.tournament_sum == old(
                    self,
                ).tournament_sum),
                old(self).in_tournament || old(self).tournament_sum == TOURNAMENT_BALANCE ==> (
                self.in_tournament || self.tournament_sum == TOURNAMENT_BALANCE),
                old(self).matchmaking_strategy is None && old(self).tournament_strategy is None
                    && !old(self).in_tournament && old(self).tournament_sum == TOURNAMENT_BALANCE
                    ==> (self.in_tournament == ends_in_tournament(
                    records@.subrange(0, i as int),
                ) && self.tournament_sum == TOURNAMENT_BALANCE && self.sum as int == min(
                    old(self).sum as int + TOURNAMENT_BALANCE as int * tournament_folds(
                        records@.subrange(0, i as int),
                    ),
                    u64::MAX as int,
                )),
            decreases n - i,
        {
            let record = &records[i];
            self.calculate(rng, record);
            self.insert_record(record);
            proof {
                lemma_filter_subrange_step(records@, non_mirror_pred(), i as int);
                lemma_folds_step(records@, i as int);
                lemma_max_len_step(
                    old(self).max_character_len as int,
                    old(self).characters@,
                    records@,
                    i as int,
                );
                if !is_mirror(records@[i as int]) {
                    Seq::push_distributes_over_add(
                        old(self).characters@,
                        records@.subrange(0, i as int).filter(non_mirror_pred()),
                        records@[i as int],
                    );
                }
            }
            i = i + 1;
        }
        proof {
            assert(records@.subrange(0, n as int) =~= records@);
        }
        if self.in_tournament {
            self.in_tournament = false;
            self.sum = sat_add(self.sum, self.tournament_sum);
            self.tournament_sum = TOURNAMENT_BALANCE;
        }
    }

    /// Index a whole record sequence without any betting: each non-mirror
    /// record is appended to both competitors' histories. Pools, counters and
    /// strategies are untouched. Indexing is not idempotent: calling this
    /// twice with the same records appends the batch twice.
    pub fn insert_records(&mut self, records: &Vec<Record>)
        requires
            old(self).wf(),
            all_wf(records@),
        ensures
            final(self).wf(),
            final(self).characters@ == old(self).characters@ + records@.filter(non_mirror_pred()),
            final(self).record_len as int == old(self).record_len + records@.filter(
                non_mirror_pred(),
            ).len(),
            final(self).max_character_len >= old(self).max_character_len,
            final(self).max_character_len as int == max_len_after(
                old(self).max_character_len as int,
                old(self).characters@,
                records@,
            ),
            final(self).sum == old(self).sum,
            final(self).tournament_sum == old(self).tournament_sum,
            final(self).in_tournament == old(self).in_tournament,
            final(self).successes == old(self).successes,
            final(self).failures == old(self).failures,
            final(self).matchmaking_strategy == old(self).matchmaking_strategy,
            final(self).tournament_strategy == old(self).tournament_strategy,
    {
        let n = records.len();
        let mut i: usize = 0;
        while i < n
            invariant
                i <= n,
                n == records@.len(),
                all_wf(records@),
                self.wf(),
                self.characters@ == old(self).characters@ + records@.subrange(0, i as int).filter(
                    non_mirror_pred(),
                ),
                self.record_len as int == old(self).record_len + records@.subrange(
                    0,
                    i as int,
                ).filter(non_mirror_pred()).len(),
                self.max_character_len >= old(self).max_character_len,
                self.max_character_len as int == max_len_after(
                    old(self).max_character_len as int,
                    old(self).characters@,
                    records@.subrange(0, i as int),
                ),
                self.sum == old(self).sum,
                self.tournament_sum == old(self).tournament_sum,
                self.in_tournament == old(self).in_tournament,
                self.successes == old(self).successes,
                self.failures == old(self).failures,
                self.matchmaking_strategy == old(self).matchmaking_strategy,
                self.tournament_strategy == old(self).tournament_strategy,
            decreases n - i,
        {
            let record = &records[i];
            self.insert_record(record);
            proof {
                lemma_filter_subrange_step(records@, non_mirror_pred(), i as int);
                lemma_max_len_step(
                    old(self).max_character_len as int,
                    old(self).characters@,
                    records@,
                    i as int,
                );
                if !is_mirror(records@[i as int]) {
                    Seq::push_distributes_over_add(
                        old(self).characters@,
                        records@.subrange(0, i as int).filter(non_mirror_pred()),
                        records@[i as int],
                    );
                }
            }
            i = i + 1;
        }
        proof {
            assert(records@.subrange(0, n as int) =~= records@);
        }
    }
}

} // verus!
