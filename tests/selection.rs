use command_source::config::{new, CommandSourceConfig, Config, QuitSignal, SourcePlan};

fn config_with(source: CommandSourceConfig, stable: u32, unstable: u32) -> Config {
    Config { command_source: source, stable_worker_count: stable, unstable_worker_count: unstable }
}

#[test]
fn worker_advertises_stable_plus_unstable() {
    let config = config_with(
        CommandSourceConfig::Worker { coordinator: "ws://coordinator:2000".to_string() },
        3,
        5,
    );
    match new(&config) {
        SourcePlan::Worker { coordinator, worker_count } => {
            assert_eq!(coordinator, "ws://coordinator:2000");
            assert_eq!(worker_count, 8);
        }
        other => panic!("unexpected plan {:?}", other),
    }
}

#[test]
fn worker_count_does_not_overflow() {
    let config = config_with(
        CommandSourceConfig::Worker { coordinator: "c".to_string() },
        u32::MAX,
        u32::MAX,
    );
    match new(&config) {
        SourcePlan::Worker { worker_count, .. } => {
            assert_eq!(worker_count, 2 * (u32::MAX as u64));
        }
        other => panic!("unexpected plan {:?}", other),
    }
}

#[test]
fn batch_keeps_its_path() {
    let config =
        config_with(CommandSourceConfig::Batch { path: "jobs.json".to_string() }, 1, 0);
    match new(&config) {
        SourcePlan::Batch { path } => assert_eq!(path, "jobs.json"),
        other => panic!("unexpected plan {:?}", other),
    }
}

#[test]
fn test_runner_keeps_both_paths() {
    let config = config_with(
        CommandSourceConfig::TestRunner {
            input: "fixtures.json".to_string(),
            output: "report.json".to_string(),
        },
        0,
        0,
    );
    match new(&config) {
        SourcePlan::TestRunner { input, output } => {
            assert_eq!(input, "fixtures.json");
            assert_eq!(output, "report.json");
        }
        other => panic!("unexpected plan {:?}", other),
    }
}

#[test]
fn quit_signal_is_an_empty_marker() {
    assert_eq!(QuitSignal {}, QuitSignal {});
}
