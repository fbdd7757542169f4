use saltsim::lookup::{
    Calculate, Lookup, LookupFilter, LookupSide, LookupStatistic, ODDS_SCALE,
};
use saltsim::ratio::Ratio;
use saltsim::record::{Competitor, Mode, Record, Tier, Winner};
use saltsim::rng::Rng;
use saltsim::simulation::{Bet, Simulation, Strategy};

fn rec(l: &str, lp: u32, r: &str, rp: u32, w: Winner, m: Mode, dur: u32) -> Record {
    Record {
        left: Competitor { name: String::from(l), bet_amount: lp },
        right: Competitor { name: String::from(r), bet_amount: rp },
        winner: w,
        tier: Tier { id: String::from("X") },
        mode: m,
        duration: dur,
    }
}

struct NoStrategy;

impl Strategy for NoStrategy {
    fn bet<A, B>(&self, _s: &Simulation<A, B>, _t: &Tier, _l: &String, _r: &String) -> Bet {
        Bet::Pass
    }
}

struct ZeroRng;

impl Rng for ZeroRng {
    fn below(&mut self, _bound: u32) -> u32 {
        0
    }

    fn flip(&mut self) -> bool {
        false
    }

    fn mutates(&mut self) -> bool {
        false
    }
}

struct OneRng;

impl Rng for OneRng {
    fn below(&mut self, bound: u32) -> u32 {
        if bound > 1 { 1 } else { 0 }
    }

    fn flip(&mut self) -> bool {
        true
    }

    fn mutates(&mut self) -> bool {
        false
    }
}

struct MutatingRng;

impl Rng for MutatingRng {
    fn below(&mut self, _bound: u32) -> u32 {
        0
    }

    fn flip(&mut self) -> bool {
        false
    }

    fn mutates(&mut self) -> bool {
        true
    }
}

/// A strategy that bets the whole part of a lookup signal on the left side.
struct SignalStrategy {
    signal: Lookup,
}

impl Strategy for SignalStrategy {
    fn bet<A, B>(&self, s: &Simulation<A, B>, t: &Tier, l: &String, r: &String) -> Bet {
        let v = self.signal.calculate(s, t, l, r);
        if v.num > 0 {
            Bet::Left(v.num / (v.den as i128))
        } else {
            Bet::Pass
        }
    }
}

/// Two matches for competitor A: an underdog win against B, then a favored
/// loss against C.
fn history_a() -> Vec<Record> {
    vec![
        rec("A", 100, "B", 300, Winner::Left, Mode::Matchmaking, 10),
        rec("A", 400, "C", 100, Winner::Right, Mode::Matchmaking, 20),
    ]
}

#[test]
fn statistic_defaults_on_empty_history() {
    let empty: Vec<Record> = Vec::new();
    let name = String::from("A");
    assert_eq!(LookupStatistic::winrate(&empty, &name), Ratio { num: 1, den: 2 });
    assert_eq!(LookupStatistic::upsets(&empty, &name), Ratio { num: 0, den: 1 });
    assert_eq!(LookupStatistic::favored(&empty, &name), Ratio { num: 0, den: 1 });
    assert_eq!(LookupStatistic::odds(&empty, &name), Ratio { num: 0, den: 1 });
    assert_eq!(LookupStatistic::bet_amount(&empty, &name), Ratio { num: 0, den: 1 });
    assert_eq!(LookupStatistic::duration(&empty), Ratio { num: 0, den: 1 });
    assert_eq!(LookupStatistic::matches_len(&empty), Ratio { num: 0, den: 1 });
    let e = LookupStatistic::earnings(&empty, &name);
    assert_eq!(e.num, 0);
    assert_eq!(e.den, ODDS_SCALE as u128);
}

#[test]
fn winrate_counts_wins() {
    let h = history_a();
    assert_eq!(LookupStatistic::winrate(&h, &String::from("A")), Ratio { num: 1, den: 2 });
    assert_eq!(LookupStatistic::winrate(&h, &String::from("B")), Ratio { num: 0, den: 2 });
    assert_eq!(LookupStatistic::winrate(&h, &String::from("C")), Ratio { num: 1, den: 2 });
}

#[test]
fn upsets_counts_underdog_positions() {
    let h = history_a();
    assert_eq!(LookupStatistic::upsets(&h, &String::from("A")), Ratio { num: 1, den: 2 });
}

#[test]
fn favored_counts_favorite_positions() {
    let h = history_a();
    assert_eq!(LookupStatistic::favored(&h, &String::from("A")), Ratio { num: 1, den: 2 });
}

#[test]
fn odds_averages_pool_quotients() {
    let h = history_a();
    // 300/100 = 3 and 100/400 = 0.25, scaled by 65536 and averaged.
    let r = LookupStatistic::odds(&h, &String::from("A"));
    assert_eq!(r.num, 3 * 65536 + 16384);
    assert_eq!(r.den, 2 * 65536);
}

#[test]
fn bet_amount_averages_own_pool() {
    let h = history_a();
    assert_eq!(LookupStatistic::bet_amount(&h, &String::from("A")), Ratio { num: 500, den: 2 });
}

#[test]
fn duration_averages_over_all_matches() {
    let h = history_a();
    assert_eq!(LookupStatistic::duration(&h), Ratio { num: 30, den: 2 });
}

#[test]
fn matches_len_counts() {
    let h = history_a();
    assert_eq!(LookupStatistic::matches_len(&h), Ratio { num: 2, den: 1 });
}

#[test]
fn earnings_win_pays_the_odds() {
    // One win with the named competitor on the left, pools 100 and 200:
    // earnings are exactly 2.
    let h = vec![rec("A", 100, "B", 200, Winner::Left, Mode::Matchmaking, 5)];
    let r = LookupStatistic::earnings(&h, &String::from("A"));
    assert_eq!(r.num, 2 * 65536);
    assert_eq!(r.den, 65536);
}

#[test]
fn earnings_loss_costs_one_unit() {
    let h = vec![rec("A", 700, "B", 90, Winner::Right, Mode::Matchmaking, 5)];
    let r = LookupStatistic::earnings(&h, &String::from("A"));
    assert_eq!(r.num, -65536);
    assert_eq!(r.den, 65536);
}

#[test]
fn earnings_sums_rather_than_averages() {
    let h = history_a();
    // Win pays 300/100 = 3, loss costs 1: total 2, still over one unit.
    let r = LookupStatistic::earnings(&h, &String::from("A"));
    assert_eq!(r.num, 2 * 65536);
    assert_eq!(r.den, 65536);
}

#[test]
fn lookup_dispatches_to_each_statistic() {
    let h = history_a();
    let name = String::from("A");
    assert_eq!(
        LookupStatistic::Winrate.lookup(&name, &h),
        LookupStatistic::winrate(&h, &name)
    );
    assert_eq!(
        LookupStatistic::Duration.lookup(&name, &h),
        LookupStatistic::duration(&h)
    );
    assert_eq!(
        LookupStatistic::MatchesLen.lookup(&name, &h),
        LookupStatistic::matches_len(&h)
    );
}

#[test]
fn specific_filter_narrows_to_head_to_head() {
    let h = vec![
        rec("A", 100, "B", 300, Winner::Left, Mode::Matchmaking, 10),
        rec("A", 400, "C", 100, Winner::Right, Mode::Matchmaking, 20),
        rec("B", 200, "A", 100, Winner::Left, Mode::Matchmaking, 30),
    ];
    let a = String::from("A");
    let b = String::from("B");
    let all = LookupFilter::All.lookup(&LookupStatistic::MatchesLen, &a, &b, &h);
    assert_eq!(all, Ratio { num: 3, den: 1 });
    let specific = LookupFilter::Specific.lookup(&LookupStatistic::MatchesLen, &a, &b, &h);
    assert_eq!(specific, Ratio { num: 2, den: 1 });
    // Head-to-head winrate of A against B: won one of two.
    let wr = LookupFilter::Specific.lookup(&LookupStatistic::Winrate, &a, &b, &h);
    assert_eq!(wr, Ratio { num: 1, den: 2 });
}

#[test]
fn sum_signal_reads_active_bankroll() {
    let mut sim: Simulation<NoStrategy, NoStrategy> = Simulation::new();
    let a = String::from("A");
    let b = String::from("B");
    assert_eq!(Lookup::Sum.evaluate(&sim, &a, &b), Ratio { num: 100, den: 1 });
    sim.in_tournament = true;
    assert_eq!(Lookup::Sum.evaluate(&sim, &a, &b), Ratio { num: 1000, den: 1 });
}

#[test]
fn character_signal_reads_indexed_history() {
    let mut sim: Simulation<NoStrategy, NoStrategy> = Simulation::new();
    sim.insert_records(&history_a());
    let a = String::from("A");
    let b = String::from("B");
    let left_wr = Lookup::Character(LookupSide::Left, LookupFilter::All, LookupStatistic::Winrate);
    assert_eq!(left_wr.evaluate(&sim, &a, &b), Ratio { num: 1, den: 2 });
    // The right side resolves the other name: B's one indexed match, lost.
    let right_wr = Lookup::Character(
        LookupSide::Right,
        LookupFilter::All,
        LookupStatistic::Winrate,
    );
    assert_eq!(right_wr.evaluate(&sim, &a, &b), Ratio { num: 0, den: 1 });
}

#[test]
fn calculate_matches_evaluate() {
    let mut sim: Simulation<NoStrategy, NoStrategy> = Simulation::new();
    sim.insert_records(&history_a());
    let a = String::from("A");
    let b = String::from("B");
    let tier = Tier { id: String::from("X") };
    let signal = Lookup::Character(LookupSide::Left, LookupFilter::Specific, LookupStatistic::Odds);
    assert_eq!(signal.calculate(&sim, &tier, &a, &b), signal.evaluate(&sim, &a, &b));
    assert_eq!(Lookup::Sum.calculate(&sim, &tier, &a, &b), Ratio { num: 100, den: 1 });
}

#[test]
fn precalculate_and_optimize_defaults() {
    let signal = Lookup::Sum;
    let pre: Option<Ratio> = signal.precalculate();
    assert!(pre.is_none());
    assert_eq!(signal.optimize(), Lookup::Sum);
}

#[test]
fn from_index_enumerates_statistics() {
    assert_eq!(LookupStatistic::from_index(0), LookupStatistic::Upsets);
    assert_eq!(LookupStatistic::from_index(1), LookupStatistic::Favored);
    assert_eq!(LookupStatistic::from_index(2), LookupStatistic::Winrate);
    assert_eq!(LookupStatistic::from_index(3), LookupStatistic::Odds);
    assert_eq!(LookupStatistic::from_index(4), LookupStatistic::Earnings);
    assert_eq!(LookupStatistic::from_index(5), LookupStatistic::MatchesLen);
    assert_eq!(LookupStatistic::from_index(6), LookupStatistic::BetAmount);
    assert_eq!(LookupStatistic::from_index(7), LookupStatistic::Duration);
}

#[test]
fn random_generation_follows_the_draws() {
    assert_eq!(LookupStatistic::new(&mut ZeroRng), LookupStatistic::Upsets);
    assert_eq!(LookupStatistic::new(&mut OneRng), LookupStatistic::Favored);
    assert_eq!(LookupFilter::new(&mut ZeroRng), LookupFilter::All);
    assert_eq!(LookupFilter::new(&mut OneRng), LookupFilter::Specific);
    assert_eq!(LookupSide::new(&mut ZeroRng), LookupSide::Left);
    assert_eq!(LookupSide::new(&mut OneRng), LookupSide::Right);
    assert_eq!(Lookup::new(&mut ZeroRng), Lookup::Sum);
    assert_eq!(
        Lookup::new(&mut OneRng),
        Lookup::Character(LookupSide::Right, LookupFilter::Specific, LookupStatistic::Favored)
    );
}

#[test]
fn crossover_without_mutation_picks_a_parent() {
    let a = LookupStatistic::Winrate;
    let b = LookupStatistic::Odds;
    // ZeroRng never mutates and its coin picks the other parent.
    assert_eq!(a.crossover(&b, &mut ZeroRng), b);
    // OneRng's coin keeps the first parent.
    assert_eq!(a.crossover(&b, &mut OneRng), a);
}

#[test]
fn crossover_with_mutation_resamples() {
    let a = LookupStatistic::Winrate;
    let b = LookupStatistic::Odds;
    assert_eq!(a.crossover(&b, &mut MutatingRng), LookupStatistic::Upsets);
    let f = Lookup::Character(LookupSide::Left, LookupFilter::All, LookupStatistic::Winrate);
    assert_eq!(f.crossover(&Lookup::Sum, &mut MutatingRng), Lookup::Sum);
}

#[test]
fn crossover_recombines_two_character_signals() {
    let father = Lookup::Character(LookupSide::Left, LookupFilter::All, LookupStatistic::Winrate);
    let mother = Lookup::Character(
        LookupSide::Right,
        LookupFilter::Specific,
        LookupStatistic::Odds,
    );
    // No mutation; every coin picks the mother's gene.
    assert_eq!(father.crossover(&mother, &mut ZeroRng), mother);
    // Every coin keeps the father's gene.
    assert_eq!(father.crossover(&mother, &mut OneRng), father);
    // A non-character parent falls back to picking one whole parent.
    assert_eq!(Lookup::Sum.crossover(&mother, &mut ZeroRng), mother);
}

#[test]
fn strategy_can_consult_a_signal() {
    let mut sim: Simulation<SignalStrategy, NoStrategy> = Simulation::new();
    sim.matchmaking_strategy = Some(SignalStrategy { signal: Lookup::Sum });
    sim.sum = 500;
    let mut rng = ZeroRng;
    // The signal reads the active bankroll (500), so the strategy goes all-in
    // on the left, which wins at 2-to-1.
    let records = vec![rec("A", 100, "B", 200, Winner::Left, Mode::Matchmaking, 5)];
    sim.simulate(&mut rng, &records);
    assert_eq!(sim.sum, 1500);
    assert_eq!(sim.successes, 1);
    assert_eq!(sim.record_len, 1);
}
