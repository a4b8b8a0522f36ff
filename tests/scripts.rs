use ipdt::error::ExecutionError;
use ipdt::executor::{Executor, Sandbox};
use ipdt::lua::run_lua;
use ipdt::player::Player;
use ipdt::tournament::{Tournament, TournamentConfig, TournamentError};

fn ok<T>(r: Result<T, TournamentError>) -> T {
    match r {
        Ok(value) => value,
        Err(e) => panic!("player {} failed: {:?}", e.player, e.error),
    }
}


const ALWAYS_COOPERATE: &str = "function(history, storage) return true, storage end";
const ALWAYS_DEFECT: &str = "function(history, storage) return false, storage end";
const TIT_FOR_TAT: &str = r#"
function(history, storage)
    if #history == 0 then
        return true, storage
    else
        return history[#history][2], storage
    end
end
"#;
const GRIM_TRIGGER: &str = r#"
function(history, storage)
    if storage == "defect" then
        return false, storage
    end
    for _, round in ipairs(history) do
        if not round[2] then
            return false, "defect"
        end
    end
    return true, storage
end
"#;
const DEFECT_ON_SECOND_ROUND: &str = "function(history, storage) return #history ~= 1, storage end";
const PY_ALWAYS_DEFECT: &str = "def main(history, storage):\n    return False, storage\n";

fn lua(name: &str, program: &str) -> Player {
    Player::new(name.to_string(), Executor::Lua(program.to_string()))
}

fn nick(players: Vec<Player>, rounds: i32) -> TournamentConfig {
    TournamentConfig::new().with_nick_style_score().with_rounds(rounds).with_players(players)
}

#[test]
fn lua_cooperator_against_defector_match() {
    let cfg = nick(vec![lua("Always Cooperate", ALWAYS_COOPERATE), lua("Always Defect", ALWAYS_DEFECT)], 3);
    let mut sandbox = Sandbox::new();
    let record = ok(cfg.play_match(&mut sandbox, 0, 1));
    assert_eq!(record.first, vec![(true, false); 3]);
    assert_eq!(record.second, vec![(false, true); 3]);
    assert_eq!(cfg.score_match(&record.first), (-3, 9));
}

#[test]
fn lua_cooperator_against_defector_round_robin() {
    let cfg = nick(vec![lua("Always Cooperate", ALWAYS_COOPERATE), lua("Always Defect", ALWAYS_DEFECT)], 3);
    let mut t = Tournament::with_config(cfg);
    assert_eq!(ok(t.run()), vec![-6, 18]);
}

#[test]
fn same_match_twice_gives_same_scores() {
    let cfg = nick(vec![lua("Always Cooperate", ALWAYS_COOPERATE), lua("Always Defect", ALWAYS_DEFECT)], 4);
    let mut t = Tournament::with_config(cfg);
    let once = ok(t.run());
    let twice = ok(t.run());
    assert_eq!(once, twice);
}

#[test]
fn tit_for_tat_against_cooperator() {
    let cfg = nick(vec![lua("Tit for Tat", TIT_FOR_TAT), lua("Always Cooperate", ALWAYS_COOPERATE)], 5);
    let mut sandbox = Sandbox::new();
    let record = ok(cfg.play_match(&mut sandbox, 0, 1));
    assert_eq!(record.first, vec![(true, true); 5]);
    assert_eq!(cfg.score_match(&record.first), (10, 10));
    let mut t = Tournament::with_config(cfg);
    assert_eq!(ok(t.run()), vec![20, 20]);
}

#[test]
fn grim_trigger_against_one_defection() {
    let cfg = nick(vec![lua("Grim Trigger", GRIM_TRIGGER), lua("Defects Once", DEFECT_ON_SECOND_ROUND)], 5);
    let mut sandbox = Sandbox::new();
    let record = ok(cfg.play_match(&mut sandbox, 0, 1));
    // Moves are simultaneous: the defection of round 2 is seen from round 3 on.
    let grim: Vec<bool> = record.first.iter().map(|r| r.0).collect();
    let other: Vec<bool> = record.first.iter().map(|r| r.1).collect();
    assert_eq!(grim, vec![true, true, false, false, false]);
    assert_eq!(other, vec![true, false, true, true, true]);
    assert_eq!(cfg.score_match(&record.first), (10, 2));
}

#[test]
fn history_lengths_and_mirror() {
    let cfg = nick(vec![lua("Tit for Tat", TIT_FOR_TAT), lua("Defects Once", DEFECT_ON_SECOND_ROUND)], 6);
    let mut sandbox = Sandbox::new();
    let record = ok(cfg.play_match(&mut sandbox, 1, 0));
    assert_eq!(record.first.len(), 6);
    assert_eq!(record.second.len(), 6);
    for k in 0..6 {
        assert_eq!(record.second[k], (record.first[k].1, record.first[k].0));
    }
}

#[test]
fn python_defector_against_lua_cooperator() {
    let cfg = nick(
        vec![
            lua("Always Cooperate", ALWAYS_COOPERATE),
            Player::new("Always Defect".to_string(), Executor::Python(PY_ALWAYS_DEFECT.to_string())),
        ],
        3,
    );
    let mut t = Tournament::with_config(cfg);
    assert_eq!(ok(t.run()), vec![-6, 18]);
}

#[test]
fn storage_carries_between_rounds_and_resets() {
    let counter = "function(history, storage) return true, storage .. \"x\" end";
    let mut player = lua("Counter", counter).with_storage("s".to_string());
    let mut sandbox = Sandbox::new();
    assert_eq!(player.storage(), "s");
    assert_eq!(player.run(&mut sandbox, &[]).unwrap(), true);
    assert_eq!(player.run(&mut sandbox, &[(true, true)]).unwrap(), true);
    assert_eq!(player.storage(), "sxx");
    player.reset_storage();
    assert_eq!(player.storage(), "s");
}

#[test]
fn matches_start_from_configured_storage() {
    let counter = "function(history, storage) return #storage < 3, storage .. \"x\" end";
    let cfg = nick(vec![lua("Counter", counter), lua("Always Cooperate", ALWAYS_COOPERATE)], 4);
    let mut sandbox = Sandbox::new();
    let one = ok(cfg.play_match(&mut sandbox, 0, 1));
    let two = ok(cfg.play_match(&mut sandbox, 1, 0));
    assert_eq!(one.first.iter().map(|r| r.0).collect::<Vec<bool>>(), vec![true, true, true, false]);
    assert_eq!(two.second.iter().map(|r| r.0).collect::<Vec<bool>>(), vec![true, true, true, false]);
}

#[test]
fn reserved_backends_are_not_implemented() {
    let mut sandbox = Sandbox::new();
    let js = Executor::JavaScript("main".to_string());
    assert!(matches!(js.run(&mut sandbox, &[], String::new()), Err(ExecutionError::NotImplemented(_))));
    let wasm = Executor::WASM(String::new());
    assert!(matches!(wasm.run(&mut sandbox, &[], String::new()), Err(ExecutionError::NotImplemented(_))));
}

#[test]
fn failed_decision_ends_the_run_naming_the_player() {
    let cfg = nick(
        vec![
            lua("Always Cooperate", ALWAYS_COOPERATE),
            Player::new("Unfinished".to_string(), Executor::WASM(String::new())),
        ],
        3,
    );
    let mut t = Tournament::with_config(cfg);
    let err = t.run().unwrap_err();
    assert_eq!(err.player, 1);
    assert!(matches!(err.error, ExecutionError::NotImplemented(_)));
}

#[test]
fn fresh_interpreter_per_call_only_for_lua() {
    assert!(Executor::Lua(String::new()).fresh_per_call());
    assert!(!Executor::Python(String::new()).fresh_per_call());
}

#[test]
fn lua_syntax_error() {
    assert_eq!(run_lua("function(", &[], String::new()), Err(ExecutionError::SyntaxError));
}

#[test]
fn lua_program_that_is_no_function() {
    assert!(matches!(run_lua("42", &[], String::new()), Err(ExecutionError::InitializationError(_))));
}

#[test]
fn lua_script_that_raises() {
    let r = run_lua("function(history, storage) error(\"boom\") end", &[], String::new());
    assert!(matches!(r, Err(ExecutionError::RuntimeError(_))));
}

#[test]
fn lua_result_of_wrong_shape() {
    let r = run_lua("function(history, storage) return true, {} end", &[], String::new());
    assert!(matches!(r, Err(ExecutionError::DeserializationError(_))));
}

#[test]
fn lua_sees_history_as_pairs() {
    let program = "function(history, storage) return history[2][1] and not history[2][2], tostring(#history) end";
    let r = run_lua(program, &[(false, true), (true, false)], String::new());
    assert_eq!(r, Ok((true, "2".to_string())));
}

#[test]
fn python_errors() {
    let mut sandbox = Sandbox::new();
    let run = |sandbox: &mut Sandbox, src: &str| Executor::Python(src.to_string()).run(sandbox, &[(true, false)], "s".to_string());
    assert_eq!(run(&mut sandbox, "def main(:"), Err(ExecutionError::SyntaxError));
    assert!(matches!(run(&mut sandbox, "x = 1"), Err(ExecutionError::InitializationError(_))));
    assert!(matches!(run(&mut sandbox, "main = 3"), Err(ExecutionError::InitializationError(_))));
    assert!(matches!(run(&mut sandbox, "def main(h, s):\n    raise ValueError()\n"), Err(ExecutionError::RuntimeError(_))));
    assert!(matches!(run(&mut sandbox, "def main(h, s):\n    return True\n"), Err(ExecutionError::DeserializationError(_))));
    assert!(matches!(run(&mut sandbox, "def main(h, s):\n    return True, s, s\n"), Err(ExecutionError::DeserializationError(_))));
    assert!(matches!(run(&mut sandbox, "def main(h, s):\n    return True, 5\n"), Err(ExecutionError::DeserializationError(_))));
    let ok = "def main(h, s):\n    return h[0][1], s + str(len(h))\n";
    assert_eq!(run(&mut sandbox, ok), Ok((false, "s1".to_string())));
}

#[test]
fn lua_endless_loop_exhausts_the_step_budget() {
    let r = run_lua("function(history, storage) while true do end end", &[], String::new());
    assert!(matches!(r, Err(ExecutionError::RuntimeError(_))));
    let r = run_lua("while true do end", &[], String::new());
    assert!(matches!(r, Err(ExecutionError::RuntimeError(_))));
}

#[test]
fn lua_results_must_be_exactly_a_boolean_and_a_string() {
    let number_action = run_lua("function(history, storage) return 1, storage end", &[], "s".to_string());
    assert!(matches!(number_action, Err(ExecutionError::DeserializationError(_))));
    let number_storage = run_lua("function(history, storage) return true, 5 end", &[], String::new());
    assert!(matches!(number_storage, Err(ExecutionError::DeserializationError(_))));
    let extra = run_lua("function(history, storage) return true, storage, 3 end", &[], String::new());
    assert!(matches!(extra, Err(ExecutionError::DeserializationError(_))));
    let nothing = run_lua("function(history, storage) end", &[], String::new());
    assert!(matches!(nothing, Err(ExecutionError::DeserializationError(_))));
    let good = run_lua("function(history, storage) return false, storage .. \"!\" end", &[], "s".to_string());
    assert_eq!(good, Ok((false, "s!".to_string())));
}

#[test]
fn python_int_is_no_action() {
    let mut sandbox = Sandbox::new();
    let r = Executor::Python("def main(h, s):\n    return 1, s\n".to_string()).run(&mut sandbox, &[], String::new());
    assert!(matches!(r, Err(ExecutionError::DeserializationError(_))));
}

#[test]
fn lua_runtime_error_at_top_level() {
    let r = run_lua("error(\"no\")", &[], String::new());
    assert!(matches!(r, Err(ExecutionError::RuntimeError(_))));
}

#[test]
fn record_keeps_storage_and_returns_action() {
    let mut player = lua("p", ALWAYS_COOPERATE).with_storage("start".to_string());
    assert_eq!(player.record(&[], Ok((false, "next".to_string()))), Ok(false));
    assert_eq!(player.storage(), "next");
    assert_eq!(player.record(&[(false, true)], Err(ExecutionError::SyntaxError)), Err(ExecutionError::SyntaxError));
    assert_eq!(player.storage(), "next");
    player.reset_storage();
    assert_eq!(player.storage(), "start");
}

#[test]
fn python_endless_loop_exhausts_the_time_budget() {
    let mut sandbox = Sandbox::new();
    let looping = Executor::Python("def main(h, s):\n    while True:\n        pass\n".to_string());
    assert!(matches!(looping.run(&mut sandbox, &[], String::new()), Err(ExecutionError::RuntimeError(_))));
    let fine = Executor::Python("def main(h, s):\n    return True, s\n".to_string());
    assert_eq!(fine.run(&mut sandbox, &[], "k".to_string()), Ok((true, "k".to_string())));
}

#[test]
fn python_endless_top_level_exhausts_the_time_budget() {
    let mut sandbox = Sandbox::new();
    let looping = Executor::Python("while True:\n    pass\n".to_string());
    assert!(matches!(looping.run(&mut sandbox, &[], String::new()), Err(ExecutionError::RuntimeError(_))));
}
