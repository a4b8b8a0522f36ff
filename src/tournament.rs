use vstd::prelude::*;
use crate::error::ExecutionError;
use crate::executor::Sandbox;
use crate::player::{Call, Player};

verus! {

/// A history seen from the other side: every `(self, opponent)` pair swapped.
pub open spec fn mirror(h: Seq<(bool, bool)>) -> Seq<(bool, bool)> {
    Seq::new(h.len(), |k: int| (h[k].1, h[k].0))
}

pub open spec fn abs(x: int) -> nat {
    if x < 0 { (-x) as nat } else { x as nat }
}

/// The ordered pairs `(a, b)` of distinct positions below `n` that come before
/// `(i, j)`, row by row.
pub open spec fn pairs_before(n: nat, i: nat, j: nat) -> Seq<(nat, nat)>
    decreases i, j,
{
    if j > 0 {
        let earlier = pairs_before(n, i, (j - 1) as nat);
        if i == j - 1 {
            earlier
        } else {
            earlier.push((i, (j - 1) as nat))
        }
    } else if i > 0 {
        pairs_before(n, (i - 1) as nat, n)
    } else {
        Seq::empty()
    }
}

/// Every ordered pair of distinct positions below `n`, in the order the
/// matches are played.
pub open spec fn all_pairs(n: nat) -> Seq<(nat, nat)> {
    pairs_before(n, n, 0)
}

/// Histories as plain sequences.
pub open spec fn histories_view(hs: Seq<Vec<(bool, bool)>>) -> Seq<Seq<(bool, bool)>> {
    Seq::new(hs.len(), |k: int| hs[k]@)
}

/// The first players' histories of a sequence of matches.
pub open spec fn firsts(logs: Seq<MatchLog>) -> Seq<Seq<(bool, bool)>> {
    Seq::new(logs.len(), |k: int| logs[k].first)
}

pub open spec fn zeros(n: nat) -> Seq<int> {
    Seq::new(n, |p: int| 0int)
}

/// Whether a table of `i32` totals holds exactly the integers of `t`.
pub open spec fn same_scores(s: Seq<i32>, t: Seq<int>) -> bool {
    s.len() == t.len() && forall|p: int| 0 <= p < s.len() ==> s[p] == #[trigger] t[p]
}

/// A failed decision, which ends the run it happened in: the player's
/// position in the configuration and what went wrong, with the matches
/// finished before it and the unfinished match it ended.
pub struct TournamentError {
    pub player: usize,
    pub error: ExecutionError,
    pub completed: Ghost<Seq<MatchLog>>,
    pub partial: Ghost<MatchLog>,
}

/// The two histories of one match, each from its own player's side, and the
/// calls each player's program received.
pub struct MatchRecord {
    pub first: Vec<(bool, bool)>,
    pub second: Vec<(bool, bool)>,
    pub first_calls: Ghost<Seq<Call>>,
    pub second_calls: Ghost<Seq<Call>>,
}

/// A played match as plain values: the first player's history and both
/// players' calls.
pub struct MatchLog {
    pub first: Seq<(bool, bool)>,
    pub calls_a: Seq<Call>,
    pub calls_b: Seq<Call>,
}

/// A match from the storages `start_a` and `start_b` ended in the round after
/// `log.first`: all earlier rounds were played, and in that round the first
/// player's call (when `first_failed`) or the second's, each handed its
/// history of the earlier rounds and the storage its previous call
/// returned, gave back `error`; every other call succeeded.
pub open spec fn match_failed(
    start_a: Seq<char>,
    start_b: Seq<char>,
    log: MatchLog,
    first_failed: bool,
    error: ExecutionError,
) -> bool {
    let m = log.first.len() as int;
    &&& log.calls_a.len() == m + 1
    &&& log.calls_b.len() == (if first_failed { m } else { m + 1 })
    &&& match_played(start_a, start_b, log.first, log.calls_a.take(m), log.calls_b.take(m))
    &&& log.calls_a[m].history == log.first
    &&& log.calls_a[m].storage == (if m == 0 { start_a } else { log.calls_a[m - 1].outcome->Ok_0.1 })
    &&& first_failed ==> log.calls_a[m].outcome == Err::<(bool, Seq<char>), ExecutionError>(error)
    &&& !first_failed ==> {
        &&& log.calls_a[m].outcome is Ok
        &&& log.calls_b[m].history == mirror(log.first)
        &&& log.calls_b[m].storage == (if m == 0 { start_b } else { log.calls_b[m - 1].outcome->Ok_0.1 })
        &&& log.calls_b[m].outcome == Err::<(bool, Seq<char>), ExecutionError>(error)
    }
}

/// Each call was handed the storage the previous one returned, the first
/// call `start`.
pub open spec fn chained(start: Seq<char>, calls: Seq<Call>) -> bool {
    &&& (calls.len() > 0 ==> calls[0].storage == start)
    &&& forall|k: int| 1 <= k < calls.len() ==>
        #[trigger] calls[k].storage == calls[k - 1].outcome->Ok_0.1
}

/// A match whose first player's history is `first` was played from the
/// storages `start_a` and `start_b`: each program was called once a round,
/// in round `k` with its own history of the `k` earlier rounds, and entry
/// `k` of the history holds the two actions those calls returned.
#[verifier::opaque]
pub open spec fn match_played(
    start_a: Seq<char>,
    start_b: Seq<char>,
    first: Seq<(bool, bool)>,
    calls_a: Seq<Call>,
    calls_b: Seq<Call>,
) -> bool {
    &&& calls_a.len() == first.len()
    &&& calls_b.len() == first.len()
    &&& chained(start_a, calls_a)
    &&& chained(start_b, calls_b)
    &&& forall|k: int| 0 <= k < first.len() ==> {
        &&& (#[trigger] calls_a[k]).history == first.take(k)
        &&& calls_b[k].history == mirror(first).take(k)
        &&& calls_a[k].outcome is Ok
        &&& calls_a[k].outcome->Ok_0.0 == first[k].0
        &&& calls_b[k].outcome is Ok
        &&& calls_b[k].outcome->Ok_0.0 == first[k].1
    }
}

/// The players, the number of rounds of each match, and the four payoffs:
/// both cooperate (`mutual_win_score`), both defect (`mutual_loss_score`),
/// defecting against a cooperator (`win_score`) and cooperating against a
/// defector (`loss_score`).
pub struct TournamentConfig {
    pub players: Vec<Player>,
    pub rounds: i32,
    pub mutual_win_score: i32,
    pub mutual_loss_score: i32,
    pub win_score: i32,
    pub loss_score: i32,
}

impl TournamentConfig {
    /// What one side scores in a round, from its own action and the opponent's.
    pub open spec fn round_score(&self, me: bool, them: bool) -> int {
        if me && them {
            self.mutual_win_score as int
        } else if !me && !them {
            self.mutual_loss_score as int
        } else if !me && them {
            self.win_score as int
        } else {
            self.loss_score as int
        }
    }

    /// The total a side earns over a history recorded from its own perspective.
    pub open spec fn history_score(&self, h: Seq<(bool, bool)>) -> int
        decreases h.len(),
    {
        if h.len() == 0 {
            0
        } else {
            self.history_score(h.drop_last()) + self.round_score(h.last().0, h.last().1)
        }
    }

    /// The number of rounds a match lasts; a negative count plays none.
    pub open spec fn round_count(&self) -> nat {
        if self.rounds < 0 { 0 } else { self.rounds as nat }
    }

    /// The largest magnitude any single round can award.
    pub open spec fn max_magnitude(&self) -> nat {
        let a = abs(self.mutual_win_score as int);
        let b = abs(self.mutual_loss_score as int);
        let c = abs(self.win_score as int);
        let d = abs(self.loss_score as int);
        let ab = if a >= b { a } else { b };
        let cd = if c >= d { c } else { d };
        if ab >= cd { ab } else { cd }
    }

    /// The largest magnitude one match can award one side.
    pub open spec fn match_bound(&self) -> int {
        (self.round_count() * self.max_magnitude()) as int
    }

    /// `log` is a full-length match between the players of `pair`, each
    /// started from its configured storage.
    pub open spec fn played(&self, pair: (nat, nat), log: MatchLog) -> bool {
        &&& log.first.len() == self.round_count()
        &&& (self.round_count() > 0 ==> self.players@[pair.0 as int].program().implemented()
            && self.players@[pair.1 as int].program().implemented())
        &&& match_played(
            self.players@[pair.0 as int].initial_storage_view(),
            self.players@[pair.1 as int].initial_storage_view(),
            log.first,
            log.calls_a,
            log.calls_b,
        )
    }

    /// `logs` holds one played match for every pair of the round robin, in
    /// the order of `all_pairs`.
    pub open spec fn round_robin_played(&self, logs: Seq<MatchLog>) -> bool {
        let ps = all_pairs(self.player_count());
        &&& logs.len() == ps.len()
        &&& forall|k: int| 0 <= k < logs.len() ==> self.played(ps[k], #[trigger] logs[k])
    }

    /// `e` ended the match of `pair`: its player is one of the two, and the
    /// match failed on that player's call.
    pub open spec fn failed_at(&self, pair: (nat, nat), e: TournamentError) -> bool {
        &&& (e.player as nat == pair.0 || e.player as nat == pair.1)
        &&& match_failed(
            self.players@[pair.0 as int].initial_storage_view(),
            self.players@[pair.1 as int].initial_storage_view(),
            e.partial@,
            e.player as nat == pair.0,
            e.error,
        )
    }

    /// `e` ended a round robin: the matches before it in the order of
    /// `all_pairs` were played in full, and the next one failed as `failed_at`
    /// says.
    pub open spec fn round_robin_failed(&self, e: TournamentError) -> bool {
        let ps = all_pairs(self.player_count());
        let done = e.completed@;
        &&& done.len() < ps.len()
        &&& forall|k: int| 0 <= k < done.len() ==> self.played(ps[k], #[trigger] done[k])
        &&& self.failed_at(ps[done.len() as int], e)
    }

    pub open spec fn player_count(&self) -> nat {
        self.players@.len()
    }

    /// Every player's total fits in an `i32`: each plays `2 * (n - 1)`
    /// matches, none of which can award it more than `match_bound` in magnitude.
    pub open spec fn scores_fit(&self) -> bool {
        2 * (self.player_count() - 1) * self.match_bound() <= i32::MAX
    }

    /// The final score table of a round robin whose `k`-th match, in the order
    /// of `all_pairs`, left its first player with history `hs[k]`.
    pub open spec fn totals(&self, hs: Seq<Seq<(bool, bool)>>) -> Seq<int> {
        self.table(self.player_count(), all_pairs(self.player_count()), hs)
    }

    /// `hs` holds one full-length history for every match of the round robin.
    pub open spec fn complete_histories(&self, hs: Seq<Seq<(bool, bool)>>) -> bool {
        &&& hs.len() == all_pairs(self.player_count()).len()
        &&& forall|k: int| 0 <= k < hs.len() ==> #[trigger] hs[k].len() == self.round_count()
    }

    /// Adds one match, given by the first player's history, to a score table.
    pub open spec fn credit(&self, table: Seq<int>, pair: (nat, nat), h: Seq<(bool, bool)>) -> Seq<int> {
        let t = table.update(pair.0 as int, table[pair.0 as int] + self.history_score(h));
        t.update(pair.1 as int, t[pair.1 as int] + self.history_score(mirror(h)))
    }

    /// The score table of `n` players after the matches `ps`, match `k` having
    /// left its first player with history `hs[k]`.
    pub open spec fn table(&self, n: nat, ps: Seq<(nat, nat)>, hs: Seq<Seq<(bool, bool)>>) -> Seq<int>
        decreases ps.len(),
    {
        if ps.len() == 0 {
            zeros(n)
        } else {
            self.credit(self.table(n, ps.drop_last(), hs), ps.last(), hs[ps.len() - 1])
        }
    }
}


/// The magnitude of an `i32`, widened.
fn magnitude(x: i32) -> (r: u128)
    ensures
        r == abs(x as int),
{
    if x < 0 {
        (0 - (x as i64)) as u128
    } else {
        x as u128
    }
}

impl TournamentConfig {
    /// No rounds yet, no players, the cooperative payoffs (higher is better):
    /// 2 for both cooperating, 0 for both defecting, 3 for defecting against a
    /// cooperator, -1 for cooperating against a defector; 100 rounds a match.
    pub fn new() -> (r: TournamentConfig)
        ensures
            r.players@.len() == 0,
            r.rounds == 100,
            r.mutual_win_score == 2,
            r.mutual_loss_score == 0,
            r.win_score == 3,
            r.loss_score == -1,
    {
        TournamentConfig {
            players: Vec::new(),
            rounds: 100,
            mutual_win_score: 2,
            mutual_loss_score: 0,
            win_score: 3,
            loss_score: -1,
        }
    }

    pub fn with_players(self, players: Vec<Player>) -> (r: TournamentConfig)
        ensures
            r.players == players,
            r.rounds == self.rounds,
            r.mutual_win_score == self.mutual_win_score,
            r.mutual_loss_score == self.mutual_loss_score,
            r.win_score == self.win_score,
            r.loss_score == self.loss_score,
    {
        TournamentConfig { players, ..self }
    }

    pub fn with_rounds(self, rounds: i32) -> (r: TournamentConfig)
        ensures
            r.players == self.players,
            r.rounds == rounds,
            r.mutual_win_score == self.mutual_win_score,
            r.mutual_loss_score == self.mutual_loss_score,
            r.win_score == self.win_score,
            r.loss_score == self.loss_score,
    {
        TournamentConfig { rounds, ..self }
    }

    pub fn with_mutual_win_score(self, score: i32) -> (r: TournamentConfig)
        ensures
            r.players == self.players,
            r.rounds == self.rounds,
            r.mutual_win_score == score,
            r.mutual_loss_score == self.mutual_loss_score,
            r.win_score == self.win_score,
            r.loss_score == self.loss_score,
    {
        TournamentConfig { mutual_win_score: score, ..self }
    }

    pub fn with_mutual_loss_score(self, score: i32) -> (r: TournamentConfig)
        ensures
            r.players == self.players,
            r.rounds == self.rounds,
            r.mutual_win_score == self.mutual_win_score,
            r.mutual_loss_score == score,
            r.win_score == self.win_score,
            r.loss_score == self.loss_score,
    {
        TournamentConfig { mutual_loss_score: score, ..self }
    }

    pub fn with_win_score(self, score: i32) -> (r: TournamentConfig)
        ensures
            r.players == self.players,
            r.rounds == self.rounds,
            r.mutual_win_score == self.mutual_win_score,
            r.mutual_loss_score == self.mutual_loss_score,
            r.win_score == score,
            r.loss_score == self.loss_score,
    {
        TournamentConfig { win_score: score, ..self }
    }

    pub fn with_loss_score(self, score: i32) -> (r: TournamentConfig)
        ensures
            r.players == self.players,
            r.rounds == self.rounds,
            r.mutual_win_score == self.mutual_win_score,
            r.mutual_loss_score == self.mutual_loss_score,
            r.win_score == self.win_score,
            r.loss_score == score,
    {
        TournamentConfig { loss_score: score, ..self }
    }

    /// The cooperative payoffs, higher is better: 2, 0, 3 and -1.
    pub fn with_nick_style_score(self) -> (r: TournamentConfig)
        ensures
            r.players == self.players,
            r.rounds == self.rounds,
            r.mutual_win_score == 2,
            r.mutual_loss_score == 0,
            r.win_score == 3,
            r.loss_score == -1,
    {
        TournamentConfig { mutual_win_score: 2, mutual_loss_score: 0, win_score: 3, loss_score: -1, ..self }
    }

    /// The classic prison sentences, lower is better: 1, 2, 0 and 3.
    pub fn with_classic_style_score(self) -> (r: TournamentConfig)
        ensures
            r.players == self.players,
            r.rounds == self.rounds,
            r.mutual_win_score == 1,
            r.mutual_loss_score == 2,
            r.win_score == 0,
            r.loss_score == 3,
    {
        TournamentConfig { mutual_win_score: 1, mutual_loss_score: 2, win_score: 0, loss_score: 3, ..self }
    }

    /// Whether every total a run can reach fits in an `i32`, which a run
    /// asks of its configuration.
    pub fn totals_fit(&self) -> (r: bool)
        ensures
            r == self.scores_fit(),
    {
        let n = self.players.len();
        if n == 0 {
            let ghost b = self.match_bound();
            assert(2 * (0 - 1) * b <= 0) by (nonlinear_arith)
                requires
                    b >= 0,
            ;
            return true;
        }
        let rounds: u128 = if self.rounds < 0 { 0 } else { self.rounds as u128 };
        let a = magnitude(self.mutual_win_score);
        let b = magnitude(self.mutual_loss_score);
        let c = magnitude(self.win_score);
        let d = magnitude(self.loss_score);
        let ab = if a >= b { a } else { b };
        let cd = if c >= d { c } else { d };
        let m = if ab >= cd { ab } else { cd };
        let others = (n - 1) as u128;
        assert(m <= 0x8000_0000);
        assert(rounds * m <= 0x8000_0000 * 0x8000_0000) by (nonlinear_arith)
            requires
                rounds <= 0x8000_0000,
                m <= 0x8000_0000,
        ;
        let per_match = rounds * m;
        assert(2 * others * per_match <= 2 * 0x1_0000_0000_0000_0000 * (0x8000_0000 * 0x8000_0000)) by (nonlinear_arith)
            requires
                others <= 0x1_0000_0000_0000_0000,
                per_match <= 0x8000_0000 * 0x8000_0000,
        ;
        let total = 2 * others * per_match;
        total <= 0x7fff_ffff
    }

    /// Plays one match between the players at positions `i` and `j`, each
    /// starting from its configured storage. Both decide every round from
    /// their own history of the earlier rounds; the round is then appended to
    /// both. The first failed decision ends the match with that player's error.
    pub fn play_match(&self, sandbox: &mut Sandbox, i: usize, j: usize) -> (r: Result<MatchRecord, TournamentError>)
        requires
            i < self.player_count(),
            j < self.player_count(),
            i != j,
        ensures
            r is Ok ==> r->Ok_0.first@.len() == self.round_count(),
            r is Ok ==> r->Ok_0.second@ == mirror(r->Ok_0.first@),
            r is Ok ==> match_played(
                self.players@[i as int].initial_storage_view(),
                self.players@[j as int].initial_storage_view(),
                r->Ok_0.first@,
                r->Ok_0.first_calls@,
                r->Ok_0.second_calls@,
            ),
            self.round_count() == 0 ==> r is Ok,
            r is Ok && self.round_count() > 0 ==> self.players@[i as int].program().implemented()
                && self.players@[j as int].program().implemented(),
            self.round_count() > 0 && !self.players@[i as int].program().implemented() ==>
                r is Err && r->Err_0.player == i && r->Err_0.error is NotImplemented,
            r is Err ==> r->Err_0.player == i || r->Err_0.player == j,
            r is Err ==> r->Err_0.completed@ == Seq::<MatchLog>::empty(),
            r is Err ==> match_failed(
                self.players@[i as int].initial_storage_view(),
                self.players@[j as int].initial_storage_view(),
                r->Err_0.partial@,
                r->Err_0.player == i,
                r->Err_0.error,
            ),
    {
        let mut a = self.players[i].fresh();
        let mut b = self.players[j].fresh();
        let ghost start_a = self.players@[i as int].initial_storage_view();
        let ghost start_b = self.players@[j as int].initial_storage_view();
        let mut first: Vec<(bool, bool)> = Vec::new();
        let mut second: Vec<(bool, bool)> = Vec::new();
        let mut round: i32 = 0;
        proof {
            reveal(match_played);
        }
        while round < self.rounds
            invariant
                0 <= round,
                round <= self.round_count(),
                first@.len() == round,
                second@ == mirror(first@),
                match_played(start_a, start_b, first@, a.calls(), b.calls()),
                i != j,
                start_a == self.players@[i as int].initial_storage_view(),
                start_b == self.players@[j as int].initial_storage_view(),
                a.program() == self.players@[i as int].program(),
                a.program().implemented() || round == 0,
                b.program() == self.players@[j as int].program(),
                b.program().implemented() || round == 0,
                a.calls().len() == round,
                b.calls().len() == round,
                a.storage_view() == (if round == 0 { start_a } else { a.calls()[round - 1].outcome->Ok_0.1 }),
                b.storage_view() == (if round == 0 { start_b } else { b.calls()[round - 1].outcome->Ok_0.1 }),
            decreases self.rounds - round,
        {
            let ghost old_first = first@;
            let ghost old_a = a.calls();
            let ghost old_b = b.calls();
            let action_a = match a.run(sandbox, first.as_slice()) {
                Ok(action) => action,
                Err(error) => {
                    let ghost log = MatchLog { first: first@, calls_a: a.calls(), calls_b: b.calls() };
                    proof {
                        assert(a.calls().take(round as int) =~= old_a);
                        assert(b.calls().take(round as int) =~= old_b);
                        assert(a.calls()[round as int] == a.calls().last());
                        if round > 0 {
                            assert(a.calls()[round - 1] == old_a[round - 1]);
                        }
                    }
                    let failure = TournamentError { player: i, error, completed: Ghost(Seq::empty()), partial: Ghost(log) };
                    return Err(failure);
                },
            };
            assert(a.calls().last().outcome is Ok);
            assert(second@ == mirror(first@));
            let action_b = match b.run(sandbox, second.as_slice()) {
                Ok(action) => action,
                Err(error) => {
                    let ghost log = MatchLog { first: first@, calls_a: a.calls(), calls_b: b.calls() };
                    proof {
                        assert(a.calls().take(round as int) =~= old_a);
                        assert(b.calls().take(round as int) =~= old_b);
                        assert(a.calls()[round as int] == a.calls().last());
                        assert(b.calls()[round as int] == b.calls().last());
                        if round > 0 {
                            assert(a.calls()[round - 1] == old_a[round - 1]);
                            assert(b.calls()[round - 1] == old_b[round - 1]);
                        }
                        assert(b.calls().last().outcome == Err::<(bool, Seq<char>), ExecutionError>(error));
                        assert(b.calls().last().history == mirror(first@));
                    }
                    let failure = TournamentError { player: j, error, completed: Ghost(Seq::empty()), partial: Ghost(log) };
                    return Err(failure);
                },
            };
            first.push((action_a, action_b));
            second.push((action_b, action_a));
            proof {
                assert(a.calls()[round as int] == a.calls().last());
                assert(b.calls()[round as int] == b.calls().last());
                if round > 0 {
                    assert(old_a.last() == a.calls()[round - 1]);
                    assert(old_b.last() == b.calls()[round - 1]);
                }
                assert(first@.drop_last() =~= old_first);
                lemma_match_step(start_a, start_b, old_first, old_a, old_b, first@, a.calls(), b.calls());
                assert(second@ =~= mirror(first@));
            }
            round = round + 1;
        }
        Ok(MatchRecord { first, second, first_calls: Ghost(a.calls()), second_calls: Ghost(b.calls()) })
    }

    /// Plays every match of the round robin in the order of `all_pairs`,
    /// each between fresh copies of its players, and gives the first player's
    /// history of each, with the log of every match. The first failed
    /// decision ends the run.
    pub fn play_round_robin(&self, sandbox: &mut Sandbox) -> (r: Result<(Vec<Vec<(bool, bool)>>, Ghost<Seq<MatchLog>>), TournamentError>)
        ensures
            r is Ok ==> self.round_robin_played(r->Ok_0.1@),
            r is Ok ==> histories_view(r->Ok_0.0@) == firsts(r->Ok_0.1@),
            self.round_count() == 0 || self.player_count() <= 1 ==> r is Ok,
            r is Err ==> r->Err_0.player < self.player_count(),
            r is Err ==> self.round_robin_failed(r->Err_0),
    {
        let n = self.players.len();
        let mut histories: Vec<Vec<(bool, bool)>> = Vec::new();
        let ghost mut logs: Seq<MatchLog> = Seq::empty();
        let mut i: usize = 0;
        while i < n
            invariant
                n == self.player_count(),
                i <= n,
                logs.len() == pairs_before(n as nat, i as nat, 0).len(),
                histories_view(histories@) == firsts(logs),
                histories@.len() == logs.len(),
                forall|k: int| 0 <= k < logs.len() ==> self.played(pairs_before(n as nat, i as nat, 0)[k], #[trigger] logs[k]),
            decreases n - i,
        {
            let mut j: usize = 0;
            while j < n
                invariant
                    n == self.player_count(),
                    i < n,
                    j <= n,
                    logs.len() == pairs_before(n as nat, i as nat, j as nat).len(),
                    histories_view(histories@) == firsts(logs),
                    histories@.len() == logs.len(),
                    forall|k: int| 0 <= k < logs.len() ==> self.played(pairs_before(n as nat, i as nat, j as nat)[k], #[trigger] logs[k]),
                decreases n - j,
            {
                if i != j {
                    let ghost before = pairs_before(n as nat, i as nat, j as nat);
                    let record = self.play_match(sandbox, i, j);
                    match record {
                        Ok(record) => {
                            let ghost log = MatchLog {
                                first: record.first@,
                                calls_a: record.first_calls@,
                                calls_b: record.second_calls@,
                            };
                            let ghost old_h = histories@;
                            histories.push(record.first);
                            proof {
                                let after = pairs_before(n as nat, i as nat, (j + 1) as nat);
                                assert(after == before.push((i as nat, j as nat)));
                                let old_logs = logs;
                                logs = logs.push(log);
                                assert forall|k: int| 0 <= k < logs.len() implies #[trigger] histories_view(histories@)[k] == firsts(logs)[k] by {
                                    if k < old_logs.len() {
                                        assert(histories@[k] == old_h[k]);
                                        assert(histories_view(old_h)[k] == firsts(old_logs)[k]);
                                        assert(firsts(old_logs)[k] == old_logs[k].first);
                                    }
                                }
                                assert(histories_view(histories@) =~= firsts(logs));
                                assert forall|k: int| 0 <= k < logs.len() implies self.played(after[k], #[trigger] logs[k]) by {
                                    if k < old_logs.len() {
                                        assert(logs[k] == old_logs[k]);
                                        assert(after[k] == before[k]);
                                    }
                                }
                            }
                        },
                        Err(error) => {
                            proof {
                                let after = pairs_before(n as nat, i as nat, (j + 1) as nat);
                                assert(after == before.push((i as nat, j as nat)));
                                lemma_pairs_prefix(n as nat, i as nat, j as nat);
                                lemma_pairs_prefix(n as nat, i as nat, (j + 1) as nat);
                                assert(after[before.len() as int] == (i as nat, j as nat));
                                assert forall|k: int| 0 <= k < logs.len() implies self.played(all_pairs(n as nat)[k], #[trigger] logs[k]) by {
                                    assert(all_pairs(n as nat)[k] == before[k]);
                                }
                            }
                            let failure = TournamentError {
                                player: error.player,
                                error: error.error,
                                completed: Ghost(logs),
                                partial: error.partial,
                            };
                            return Err(failure);
                        },
                    }
                }
                j = j + 1;
            }
            assert(pairs_before(n as nat, (i + 1) as nat, 0) == pairs_before(n as nat, i as nat, n as nat));
            i = i + 1;
        }
        Ok((histories, Ghost(logs)))
    }

    /// The final score table of the round robin, in player order, from the
    /// first player's history of every match in the order of `all_pairs`.
    pub fn tally(&self, histories: &Vec<Vec<(bool, bool)>>) -> (scores: Vec<i32>)
        requires
            self.scores_fit(),
            self.complete_histories(histories_view(histories@)),
        ensures
            same_scores(scores@, self.totals(histories_view(histories@))),
    {
        let ghost hv = histories_view(histories@);
        let n = self.players.len();
        let played = histories.len();
        let mut scores: Vec<i32> = Vec::new();
        while scores.len() < n
            invariant
                scores@.len() <= n,
                forall|p: int| 0 <= p < scores@.len() ==> scores@[p] == 0,
            decreases n - scores@.len(),
        {
            scores.push(0);
        }
        proof {
            lemma_pairs_len(n as nat, n as nat, 0);
        }
        let mut k: usize = 0;
        let mut i: usize = 0;
        while i < n
            invariant
                n == self.player_count(),
                i <= n,
                self.scores_fit(),
                self.complete_histories(hv),
                hv == histories_view(histories@),
                hv.len() == n * (n - 1),
                hv.len() == played,
                k == pairs_before(n as nat, i as nat, 0).len(),
                scores@.len() == n,
                forall|p: int| 0 <= p < n ==>
                    scores@[p] == #[trigger] self.table(n as nat, pairs_before(n as nat, i as nat, 0), hv)[p],
            decreases n - i,
        {
            let mut j: usize = 0;
            while j < n
                invariant
                    n == self.player_count(),
                    i < n,
                    j <= n,
                    self.scores_fit(),
                    self.complete_histories(hv),
                    hv == histories_view(histories@),
                    hv.len() == n * (n - 1),
                    hv.len() == played,
                    k == pairs_before(n as nat, i as nat, j as nat).len(),
                    scores@.len() == n,
                    forall|p: int| 0 <= p < n ==>
                        scores@[p] == #[trigger] self.table(n as nat, pairs_before(n as nat, i as nat, j as nat), hv)[p],
                decreases n - j,
            {
                if i != j {
                    let ghost before = pairs_before(n as nat, i as nat, j as nat);
                    let ghost after = pairs_before(n as nat, i as nat, (j + 1) as nat);
                    proof {
                        lemma_pairs_len(n as nat, i as nat, (j + 1) as nat);
                        vstd::arithmetic::mul::lemma_mul_inequality(i as int, n - 1, n - 1);
                        vstd::arithmetic::mul::lemma_mul_is_distributive_add_other_way(n - 1, n - 1, 1);
                        assert(after.drop_last() =~= before);
                        lemma_table_bound(*self, n as nat, i as nat, (j + 1) as nat, hv);
                        lemma_table_bound(*self, n as nat, i as nat, j as nat, hv);
                        let ghost b = self.match_bound();
                        let bound = 2 * (n - 1);
                        vstd::arithmetic::mul::lemma_mul_inequality(
                            involvement(n as nat, i as nat, (j + 1) as nat, i as nat), bound, b);
                        vstd::arithmetic::mul::lemma_mul_inequality(
                            involvement(n as nat, i as nat, (j + 1) as nat, j as nat), bound, b);
                        vstd::arithmetic::mul::lemma_mul_inequality(1, bound, b);
                        lemma_history_score_bound(*self, hv[k as int]);
                        assert(hv[k as int] == histories@[k as int]@);
                        assert(after.len() == k + 1);
                        assert(after.len() <= n * (n - 1)) by (nonlinear_arith)
                            requires
                                after.len() == i * (n - 1) + (j + 1) - (if i < j + 1 { 1int } else { 0 }),
                                i * (n - 1) <= (n - 1) * (n - 1),
                                i < n,
                                j < n,
                        ;
                        assert(after.last() == (i as nat, j as nat));
                        assert(self.table(n as nat, after, hv)
                            == self.credit(self.table(n as nat, before, hv), (i as nat, j as nat), hv[k as int]));
                        assert(2 * (n - 1) * b <= i32::MAX);
                        let t_after = self.table(n as nat, after, hv);
                        let t_before = self.table(n as nat, before, hv);
                        assert(t_after[i as int] == t_before[i as int] + self.history_score(hv[k as int]));
                        assert(t_after[j as int] == t_before[j as int] + self.history_score(mirror(hv[k as int])));
                        assert(abs(t_after[i as int]) <= i32::MAX);
                        assert(abs(t_after[j as int]) <= i32::MAX);
                    }
                    let (first, second) = self.score_match(&histories[k]);
                    let old_first = scores[i];
                    scores.set(i, old_first + first);
                    let old_second = scores[j];
                    scores.set(j, old_second + second);
                    k = k + 1;
                }
                j = j + 1;
            }
            assert(pairs_before(n as nat, (i + 1) as nat, 0) == pairs_before(n as nat, i as nat, n as nat));
            i = i + 1;
        }
        proof {
            lemma_table_bound(*self, n as nat, n as nat, 0, hv);
        }
        scores
    }

    /// What one side scores in a round: both cooperate, both defect, this
    /// side alone defects, or this side alone cooperates.
    pub fn score_round(&self, me: bool, them: bool) -> (r: i32)
        ensures
            r == self.round_score(me, them),
    {
        if me && them {
            self.mutual_win_score
        } else if !me && !them {
            self.mutual_loss_score
        } else if !me && them {
            self.win_score
        } else {
            self.loss_score
        }
    }

    /// The totals a match awards its two sides, given the first side's history;
    /// each round is scored for each side from that side's own perspective.
    pub fn score_match(&self, history: &Vec<(bool, bool)>) -> (r: (i32, i32))
        requires
            history@.len() * self.max_magnitude() <= i32::MAX,
        ensures
            r.0 == self.history_score(history@),
            r.1 == self.history_score(mirror(history@)),
    {
        let mut first: i32 = 0;
        let mut second: i32 = 0;
        let mut k: usize = 0;
        while k < history.len()
            invariant
                k <= history@.len(),
                history@.len() * self.max_magnitude() <= i32::MAX,
                first == self.history_score(history@.take(k as int)),
                second == self.history_score(mirror(history@).take(k as int)),
            decreases history@.len() - k,
        {
            let (me, them) = history[k];
            let ghost h = history@;
            proof {
                lemma_history_score_bound(*self, h.take(k as int + 1));
                lemma_history_score_bound(*self, mirror(h).take(k as int + 1));
                assert(h.take(k as int + 1).drop_last() =~= h.take(k as int));
                assert(mirror(h).take(k as int + 1).drop_last() =~= mirror(h).take(k as int));
                vstd::arithmetic::mul::lemma_mul_inequality(k as int + 1, h.len() as int, self.max_magnitude() as int);
            }
            first = first + self.score_round(me, them);
            second = second + self.score_round(them, me);
            k = k + 1;
        }
        proof {
            assert(history@.take(k as int) =~= history@);
            assert(mirror(history@).take(k as int) =~= mirror(history@));
        }
        (first, second)
    }
}

/// The tournament: a configuration, run as a round robin.
pub struct Tournament {
    pub config: TournamentConfig,
}

impl Tournament {
    /// A tournament with the default configuration.
    pub fn new() -> (r: Tournament)
        ensures
            r.config.players@.len() == 0,
            r.config.rounds == 100,
            r.config.mutual_win_score == 2,
            r.config.mutual_loss_score == 0,
            r.config.win_score == 3,
            r.config.loss_score == -1,
    {
        Tournament { config: TournamentConfig::new() }
    }

    pub fn with_config(config: TournamentConfig) -> (r: Tournament)
        ensures
            r.config == config,
    {
        Tournament { config }
    }

    /// Runs the round robin: every ordered pair of distinct players plays one
    /// match, each from its configured storage, and every match's two totals
    /// are added to its players' entries. The table is in player order. The
    /// first failed decision ends the run with that player's error.
    pub fn run(&mut self) -> (r: Result<Vec<i32>, TournamentError>)
        requires
            old(self).config.scores_fit(),
        ensures
            *final(self) == *old(self),
            r is Ok ==> exists|logs: Seq<MatchLog>|
                #[trigger] old(self).config.round_robin_played(logs)
                && same_scores(r->Ok_0@, old(self).config.totals(firsts(logs))),
            old(self).config.round_count() == 0 || old(self).config.player_count() <= 1 ==>
                r is Ok && same_scores(r->Ok_0@, zeros(old(self).config.player_count())),
            r is Err ==> r->Err_0.player < old(self).config.player_count(),
            r is Err ==> old(self).config.round_robin_failed(r->Err_0),
    {
        let mut sandbox = Sandbox::new();
        match self.config.play_round_robin(&mut sandbox) {
            Ok((histories, logs)) => {
                proof {
                    let hv = histories_view(histories@);
                    assert forall|k: int| 0 <= k < hv.len() implies #[trigger] hv[k].len() == self.config.round_count() by {
                        assert(hv[k] == firsts(logs@)[k]);
                        assert(self.config.played(all_pairs(self.config.player_count())[k], logs@[k]));
                    }
                    assert(self.config.complete_histories(hv));
                }
                let scores = self.config.tally(&histories);
                proof {
                    let hv = histories_view(histories@);
                    assert(self.config.round_robin_played(logs@));
                    assert(same_scores(scores@, self.config.totals(hv)));
                    if self.config.round_count() == 0 || self.config.player_count() <= 1 {
                        lemma_zero_totals(self.config, hv);
                    }
                }
                Ok(scores)
            },
            Err(error) => Err(error),
        }
    }
}

impl Default for TournamentConfig {
    fn default() -> (r: TournamentConfig)
        ensures
            r.players@.len() == 0,
            r.rounds == 100,
            r.mutual_win_score == 2,
            r.mutual_loss_score == 0,
            r.win_score == 3,
            r.loss_score == -1,
    {
        TournamentConfig::new()
    }
}

impl Default for Tournament {
    fn default() -> (r: Tournament)
        ensures
            r.config.players@.len() == 0,
            r.config.rounds == 100,
            r.config.mutual_win_score == 2,
            r.config.mutual_loss_score == 0,
            r.config.win_score == 3,
            r.config.loss_score == -1,
    {
        Tournament::new()
    }
}

/// The totals of one match, first player's then second's, from the first
/// player's history.
pub open spec fn match_totals(cfg: TournamentConfig, h: Seq<(bool, bool)>) -> (int, int) {
    (cfg.history_score(h), cfg.history_score(mirror(h)))
}

/// Swapping which player is first swaps the two totals of a match: the
/// other side's history is the mirror image, and each round is scored from
/// each side's own perspective.
pub proof fn lemma_role_reversal(cfg: TournamentConfig, h: Seq<(bool, bool)>)
    ensures
        match_totals(cfg, mirror(h)) == (match_totals(cfg, h).1, match_totals(cfg, h).0),
{
    assert(mirror(mirror(h)) =~= h);
}

/// A played match read from the second player's side is a played match
/// with the roles reversed, and it awards the same two totals, swapped.
pub proof fn lemma_played_role_reversal(
    cfg: TournamentConfig,
    start_a: Seq<char>,
    start_b: Seq<char>,
    first: Seq<(bool, bool)>,
    calls_a: Seq<Call>,
    calls_b: Seq<Call>,
)
    requires
        match_played(start_a, start_b, first, calls_a, calls_b),
    ensures
        match_played(start_b, start_a, mirror(first), calls_b, calls_a),
        match_totals(cfg, mirror(first)) == (match_totals(cfg, first).1, match_totals(cfg, first).0),
{
    reveal(match_played);
    assert(mirror(mirror(first)) =~= first);
    lemma_role_reversal(cfg, first);
}

/// No match of the round robin pairs a player with itself, and every match
/// is between positions of the player list.
pub proof fn lemma_no_self_match(n: nat)
    ensures
        forall|k: int| 0 <= k < all_pairs(n).len() ==> {
            let pair = #[trigger] all_pairs(n)[k];
            pair.0 != pair.1 && pair.0 < n && pair.1 < n
        },
        all_pairs(n).len() == n * (n - 1),
{
    lemma_pairs_distinct(n, n, 0);
    lemma_pairs_len(n, n, 0);
}

/// With no rounds to play, or fewer than two players, every total is zero.
pub proof fn lemma_zero_totals(cfg: TournamentConfig, hs: Seq<Seq<(bool, bool)>>)
    requires
        cfg.complete_histories(hs),
        cfg.round_count() == 0 || cfg.player_count() <= 1,
    ensures
        cfg.totals(hs) == zeros(cfg.player_count()),
{
    let n = cfg.player_count();
    lemma_pairs_distinct(n, n, 0);
    lemma_pairs_len(n, n, 0);
    if n <= 1 {
        assert(n * (n - 1) == 0) by (nonlinear_arith)
            requires
                n <= 1,
        ;
    }
    lemma_table_of_empty_matches(cfg, n, all_pairs(n), hs);
}

/// Matches of no rounds leave the table at zero.
proof fn lemma_table_of_empty_matches(cfg: TournamentConfig, n: nat, ps: Seq<(nat, nat)>, hs: Seq<Seq<(bool, bool)>>)
    requires
        ps.len() <= hs.len(),
        forall|k: int| 0 <= k < ps.len() ==> (#[trigger] ps[k]).0 < n && ps[k].1 < n,
        forall|k: int| 0 <= k < ps.len() ==> #[trigger] hs[k].len() == 0 || ps.len() == 0,
    ensures
        cfg.table(n, ps, hs) == zeros(n),
    decreases ps.len(),
{
    if ps.len() > 0 {
        let k = ps.len() - 1;
        assert(hs[k].len() == 0);
        lemma_table_of_empty_matches(cfg, n, ps.drop_last(), hs);
        assert(mirror(hs[k]).len() == 0);
        assert(cfg.table(n, ps, hs) =~= zeros(n));
    }
}

/// Appending a round whose two calls were handed the earlier rounds and the
/// storage left by the previous calls keeps a match played.
pub proof fn lemma_match_step(
    start_a: Seq<char>,
    start_b: Seq<char>,
    first: Seq<(bool, bool)>,
    calls_a: Seq<Call>,
    calls_b: Seq<Call>,
    next_first: Seq<(bool, bool)>,
    next_a: Seq<Call>,
    next_b: Seq<Call>,
)
    requires
        match_played(start_a, start_b, first, calls_a, calls_b),
        next_a.len() == calls_a.len() + 1,
        next_b.len() == calls_b.len() + 1,
        next_a.drop_last() == calls_a,
        next_b.drop_last() == calls_b,
        next_first.len() == first.len() + 1,
        next_first.drop_last() == first,
        next_a.last().history == first,
        next_b.last().history == mirror(first),
        next_a.last().storage == (if first.len() == 0 { start_a } else { calls_a.last().outcome->Ok_0.1 }),
        next_b.last().storage == (if first.len() == 0 { start_b } else { calls_b.last().outcome->Ok_0.1 }),
        next_a.last().outcome is Ok,
        next_b.last().outcome is Ok,
        next_first.last() == (next_a.last().outcome->Ok_0.0, next_b.last().outcome->Ok_0.0),
    ensures
        match_played(start_a, start_b, next_first, next_a, next_b),
{
    reveal(match_played);
    let n = first.len() as int;
    assert forall|k: int| 0 <= k <= n implies #[trigger] next_first.take(k) == first.take(k)
        && mirror(next_first).take(k) == mirror(first).take(k) by {
        assert(next_first.take(k) =~= first.take(k));
        assert(mirror(next_first).take(k) =~= mirror(first).take(k));
    }
    assert(first.take(n) =~= first);
    assert(mirror(first).take(n) =~= mirror(first));
    assert forall|k: int| 0 <= k < n implies #[trigger] next_a[k] == calls_a[k] && next_b[k] == calls_b[k] by {
        assert(next_a.drop_last()[k] == calls_a[k]);
        assert(next_b.drop_last()[k] == calls_b[k]);
    }
    assert(next_a[n] == next_a.last());
    assert(next_b[n] == next_b.last());
    assert(next_first[n] == next_first.last());
    assert forall|k: int| 0 <= k < n implies next_first[k] == first[k] by {
        assert(next_first.drop_last()[k] == first[k]);
    }
    if n > 0 {
        assert(calls_a.last() == calls_a[n - 1]);
        assert(calls_b.last() == calls_b[n - 1]);
    }
    assert forall|k: int| 1 <= k < next_a.len() implies #[trigger] next_a[k].storage == next_a[k - 1].outcome->Ok_0.1 by {
        if k < n {
            assert(next_a[k] == calls_a[k]);
            assert(next_a[k - 1] == calls_a[k - 1]);
        } else {
            assert(next_a[k - 1] == calls_a[n - 1]);
        }
    }
    assert forall|k: int| 1 <= k < next_b.len() implies #[trigger] next_b[k].storage == next_b[k - 1].outcome->Ok_0.1 by {
        if k < n {
            assert(next_b[k] == calls_b[k]);
            assert(next_b[k - 1] == calls_b[k - 1]);
        } else {
            assert(next_b[k - 1] == calls_b[n - 1]);
        }
    }
    assert(chained(start_a, next_a));
    assert(chained(start_b, next_b));
    assert forall|k: int| 0 <= k < next_first.len() implies {
        &&& (#[trigger] next_a[k]).history == next_first.take(k)
        &&& next_b[k].history == mirror(next_first).take(k)
        &&& next_a[k].outcome is Ok
        &&& next_a[k].outcome->Ok_0.0 == next_first[k].0
        &&& next_b[k].outcome is Ok
        &&& next_b[k].outcome->Ok_0.0 == next_first[k].1
    } by {
        if k < n {
            assert(next_a[k] == calls_a[k]);
        }
    }
}

/// How many matches among `pairs_before(n, i, j)` involve position `p`.
pub open spec fn involvement(n: nat, i: nat, j: nat, p: nat) -> int {
    let first: int = if p < i {
        n - 1
    } else if p == i {
        if i < j { j - 1 } else { j as int }
    } else {
        0
    };
    let second: int = (if p < i { i - 1 } else { i as int }) + (if p < j && p != i { 1int } else { 0 });
    first + second
}

pub open spec fn in_grid(n: nat, i: nat, j: nat) -> bool {
    (i < n && j <= n) || (i <= n && j == 0)
}

/// Every enumerated pair is two distinct positions below `n`.
pub proof fn lemma_pairs_distinct(n: nat, i: nat, j: nat)
    requires
        in_grid(n, i, j),
    ensures
        forall|k: int|
            0 <= k < pairs_before(n, i, j).len() ==> {
                let pair = #[trigger] pairs_before(n, i, j)[k];
                pair.0 != pair.1 && pair.0 < n && pair.1 < n
            },
    decreases i, j,
{
    if j > 0 {
        let jj = (j - 1) as nat;
        lemma_pairs_distinct(n, i, jj);
        let ps = pairs_before(n, i, j);
        let prev = pairs_before(n, i, jj);
        assert forall|k: int| 0 <= k < ps.len() implies {
            let pair = #[trigger] ps[k];
            pair.0 != pair.1 && pair.0 < n && pair.1 < n
        } by {
            if k < prev.len() {
                assert(ps[k] == prev[k]);
            }
        }
    } else if i > 0 {
        lemma_pairs_distinct(n, (i - 1) as nat, n);
        assert(pairs_before(n, i, j) == pairs_before(n, (i - 1) as nat, n));
    }
}

/// The matches before `(i, j)` begin the round robin.
pub proof fn lemma_pairs_prefix(n: nat, i: nat, j: nat)
    requires
        in_grid(n, i, j),
    ensures
        pairs_before(n, i, j).len() <= all_pairs(n).len(),
        forall|k: int| 0 <= k < pairs_before(n, i, j).len() ==> #[trigger] all_pairs(n)[k] == pairs_before(n, i, j)[k],
    decreases n - i, n - j,
{
    if i < n {
        if j < n {
            lemma_pairs_prefix(n, i, j + 1);
            let here = pairs_before(n, i, j);
            let next = pairs_before(n, i, j + 1);
            assert forall|k: int| 0 <= k < here.len() implies next[k] == here[k] by {}
        } else {
            lemma_pairs_prefix(n, i + 1, 0);
            assert(pairs_before(n, i + 1, 0) == pairs_before(n, i, j));
        }
    }
}

/// How many matches come before `(i, j)`.
pub proof fn lemma_pairs_len(n: nat, i: nat, j: nat)
    requires
        in_grid(n, i, j),
    ensures
        pairs_before(n, i, j).len() == i * (n - 1) + j - (if i < j { 1int } else { 0 }),
    decreases i, j,
{
    if j > 0 {
        lemma_pairs_len(n, i, (j - 1) as nat);
        let earlier = pairs_before(n, i, (j - 1) as nat);
        assert(pairs_before(n, i, j).len() == earlier.len() + (if i == j - 1 { 0int } else { 1 }));
        assert(pairs_before(n, i, j).len() == i * (n - 1) + j - (if i < j { 1int } else { 0 }));
    } else if i > 0 {
        let ii = (i - 1) as nat;
        lemma_pairs_len(n, ii, n);
        assert(pairs_before(n, i, j) == pairs_before(n, ii, n));
        assert(ii * (n - 1) + (n - 1) == i * (n - 1)) by (nonlinear_arith)
            requires
                ii == i - 1,
        ;
        assert(pairs_before(n, i, j).len() == i * (n - 1) + j - (if i < j { 1int } else { 0 }));
    } else {
        assert(i * (n - 1) == 0) by (nonlinear_arith)
            requires
                i == 0,
        ;
    }
}

/// The score table stays `n` long, and a position's entry is bounded by the
/// number of its matches so far times the largest award of a match.
pub proof fn lemma_table_bound(cfg: TournamentConfig, n: nat, i: nat, j: nat, hs: Seq<Seq<(bool, bool)>>)
    requires
        in_grid(n, i, j),
        pairs_before(n, i, j).len() <= hs.len(),
        forall|k: int| 0 <= k < hs.len() ==> #[trigger] hs[k].len() == cfg.round_count(),
    ensures
        cfg.table(n, pairs_before(n, i, j), hs).len() == n,
        forall|p: nat|
            p < n ==> abs(#[trigger] cfg.table(n, pairs_before(n, i, j), hs)[p as int])
                <= involvement(n, i, j, p) * cfg.match_bound(),
        forall|p: nat| p < n ==> 0 <= #[trigger] involvement(n, i, j, p),
    decreases i, j,
{
    let b = cfg.match_bound();
    if j > 0 {
        let jj = (j - 1) as nat;
        lemma_table_bound(cfg, n, i, jj, hs);
        if i != jj {
            let ps = pairs_before(n, i, j);
            let prev = pairs_before(n, i, jj);
            assert(ps.drop_last() =~= prev);
            let h = hs[prev.len() as int];
            lemma_history_score_bound(cfg, h);
            lemma_history_score_bound(cfg, mirror(h));
            assert forall|p: nat| p < n implies abs(#[trigger] cfg.table(n, ps, hs)[p as int])
                <= involvement(n, i, j, p) * b by {
                vstd::arithmetic::mul::lemma_mul_is_distributive_add_other_way(b, involvement(n, i, jj, p), 1);
            }
        }
    } else if i > 0 {
        lemma_table_bound(cfg, n, (i - 1) as nat, n, hs);
    } else {
        assert forall|p: nat| p < n implies abs(#[trigger] cfg.table(n, pairs_before(n, i, j), hs)[p as int])
            <= involvement(n, i, j, p) * b by {
            vstd::arithmetic::mul::lemma_mul_basics(b);
        }
    }
}

/// No history of `len` rounds earns more, in magnitude, than `len` times the
/// largest award of a round.
pub proof fn lemma_history_score_bound(cfg: TournamentConfig, h: Seq<(bool, bool)>)
    ensures
        abs(cfg.history_score(h)) <= h.len() * cfg.max_magnitude(),
    decreases h.len(),
{
    if h.len() > 0 {
        lemma_history_score_bound(cfg, h.drop_last());
        vstd::arithmetic::mul::lemma_mul_is_distributive_add_other_way(
            cfg.max_magnitude() as int,
            h.len() - 1,
            1,
        );
    }
}

} // verus!
