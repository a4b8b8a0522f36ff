use ipdt::player::Player;
use ipdt::executor::Executor;
use ipdt::tournament::{Tournament, TournamentConfig, TournamentError};

fn ok<T>(r: Result<T, TournamentError>) -> T {
    match r {
        Ok(value) => value,
        Err(e) => panic!("player {} failed: {:?}", e.player, e.error),
    }
}


fn nick() -> TournamentConfig {
    TournamentConfig::new().with_nick_style_score()
}

fn named(name: &str) -> Player {
    Player::new(name.to_string(), Executor::JavaScript(String::new()))
}

#[test]
fn payoff_of_each_combination() {
    let cfg = nick();
    assert_eq!(cfg.score_round(true, true), 2);
    assert_eq!(cfg.score_round(false, false), 0);
    assert_eq!(cfg.score_round(false, true), 3);
    assert_eq!(cfg.score_round(true, false), -1);
}

#[test]
fn classic_preset_payoffs() {
    let cfg = TournamentConfig::new().with_classic_style_score();
    assert_eq!(cfg.score_round(true, true), 1);
    assert_eq!(cfg.score_round(false, false), 2);
    assert_eq!(cfg.score_round(false, true), 0);
    assert_eq!(cfg.score_round(true, false), 3);
}

#[test]
fn default_configuration() {
    let cfg = TournamentConfig::default();
    assert_eq!(cfg.rounds, 100);
    assert_eq!(cfg.players.len(), 0);
    assert_eq!((cfg.mutual_win_score, cfg.mutual_loss_score, cfg.win_score, cfg.loss_score), (2, 0, 3, -1));
    let t = Tournament::default();
    assert_eq!(t.config.rounds, 100);
}

#[test]
fn builders_set_each_field() {
    let cfg = TournamentConfig::new()
        .with_rounds(7)
        .with_mutual_win_score(4)
        .with_mutual_loss_score(1)
        .with_win_score(5)
        .with_loss_score(-2)
        .with_players(vec![named("a"), named("b")]);
    assert_eq!((cfg.rounds, cfg.mutual_win_score, cfg.mutual_loss_score, cfg.win_score, cfg.loss_score), (7, 4, 1, 5, -2));
    assert_eq!(cfg.players.len(), 2);
    assert_eq!(cfg.players[1].name, "b");
}

#[test]
fn cooperator_against_defector_three_rounds() {
    let cfg = nick();
    let history = vec![(true, false); 3];
    assert_eq!(cfg.score_match(&history), (-3, 9));
}

#[test]
fn role_reversed_match_swaps_totals() {
    let cfg = nick();
    let history = vec![(true, true), (true, false), (false, true), (false, false), (false, true)];
    let mirrored: Vec<(bool, bool)> = history.iter().map(|&(a, b)| (b, a)).collect();
    let (a, b) = cfg.score_match(&history);
    assert_eq!((a, b), (7, 3));
    assert_eq!(cfg.score_match(&mirrored), (b, a));
}

#[test]
fn tally_two_players_both_directions() {
    let cfg = nick().with_players(vec![named("cooperator"), named("defector")]);
    let histories = vec![vec![(true, false); 3], vec![(false, true); 3]];
    assert_eq!(cfg.tally(&histories), vec![-6, 18]);
}

#[test]
fn tally_three_players_in_pair_order() {
    let cfg = nick().with_rounds(1).with_players(vec![named("a"), named("b"), named("c")]);
    // (0,1), (0,2), (1,0), (1,2), (2,0), (2,1)
    let histories = vec![
        vec![(true, true)],
        vec![(false, true)],
        vec![(true, false)],
        vec![(false, false)],
        vec![(true, true)],
        vec![(true, false)],
    ];
    // a: 2 + 3 + 3 + 2 = 10; b: 2 - 1 + 0 + 3 = 4; c: -1 + 0 + 2 - 1 = 0
    assert_eq!(cfg.tally(&histories), vec![10, 4, 0]);
}

#[test]
fn tally_with_no_rounds_is_zero() {
    let cfg = nick().with_rounds(0).with_players(vec![named("a"), named("b")]);
    assert_eq!(cfg.tally(&vec![vec![], vec![]]), vec![0, 0]);
}

#[test]
fn zero_rounds_run_gives_zero_totals() {
    let cfg = nick().with_rounds(0).with_players(vec![named("a"), named("b"), named("c")]);
    let mut t = Tournament::with_config(cfg);
    assert_eq!(ok(t.run()), vec![0, 0, 0]);
}

#[test]
fn negative_rounds_play_nothing() {
    let cfg = nick().with_rounds(-4).with_players(vec![named("a"), named("b")]);
    let mut t = Tournament::with_config(cfg);
    assert_eq!(ok(t.run()), vec![0, 0]);
}

#[test]
fn single_player_gives_zero_total() {
    let cfg = nick().with_players(vec![named("alone")]);
    let mut t = Tournament::with_config(cfg);
    assert_eq!(ok(t.run()), vec![0]);
}

#[test]
fn no_players_gives_empty_table() {
    let mut t = Tournament::new();
    assert_eq!(ok(t.run()), Vec::<i32>::new());
}

#[test]
fn totals_fit_bound() {
    let two = || vec![named("a"), named("b")];
    assert!(nick().with_players(two()).totals_fit());
    let huge = nick().with_rounds(i32::MAX).with_players(two());
    assert!(!huge.totals_fit());
    // 2 * 1 * rounds * 3 <= i32::MAX exactly at this many rounds
    let edge = nick().with_rounds(357913941).with_players(two());
    assert!(edge.totals_fit());
    let over = nick().with_rounds(357913942).with_players(two());
    assert!(!over.totals_fit());
    assert!(TournamentConfig::new().with_rounds(i32::MAX).with_win_score(i32::MIN).totals_fit());
}
