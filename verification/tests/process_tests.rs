use g3_core::process::{
    log_file_name, log_header, BackgroundProcessManager, StartError, WaitOutcome,
};

#[test]
fn test_start_and_list_process() {
    let mut manager = BackgroundProcessManager::new("/tmp/g3_bg_test".to_string());

    // Start a simple process that sleeps
    let plan = manager.plan_start("test_sleep", "sleep 10", "/tmp/g3_bg_test", 1700000000);
    assert!(plan.is_ok());
    let log_file = format!("{}/{}", manager.log_dir(), plan.unwrap().log_file_name);
    let result =
        manager.start("test_sleep", "sleep 10", "/tmp/g3_bg_test", &log_file, 1700000000, 4242);
    assert!(result.is_ok());

    let info = result.unwrap();
    assert_eq!(info.name, "test_sleep");
    assert!(info.pid > 0);
    assert_eq!(info.log_file, "/tmp/g3_bg_test/test_sleep_1700000000.log");

    // List should contain our process
    let list = manager.list();
    assert_eq!(list.len(), 1);
    assert_eq!(list[0].name, "test_sleep");

    // Should be running
    assert!(manager.is_running("test_sleep", WaitOutcome::StillRunning));

    // Cleanup
    let to_kill = manager.cleanup();
    assert_eq!(to_kill, vec!["test_sleep"]);
}

#[test]
fn test_duplicate_name_rejected() {
    let mut manager = BackgroundProcessManager::new("/tmp/g3_bg_test_dup".to_string());

    // Start first process
    let result1 = manager.start("my_game", "sleep 10", "/tmp", "/tmp/a.log", 1, 100);
    assert!(result1.is_ok());

    // Try to start another with same name
    let result2 = manager.start("my_game", "sleep 5", "/tmp", "/tmp/b.log", 2, 101);
    assert!(result2.is_err());
    assert!(result2.unwrap_err().message().contains("already running"));

    // Cleanup
    manager.cleanup();
}

#[test]
fn duplicate_supervisor_name_scenario() {
    let mut manager = BackgroundProcessManager::new("logs".to_string());
    assert!(manager.plan_start("game", "sleep 10", "cwd", 5).is_ok());
    assert!(manager.start("game", "sleep 10", "cwd", "logs/game_5.log", 5, 10).is_ok());
    let refused = manager.plan_start("game", "sleep 5", "cwd", 6).unwrap_err();
    assert_eq!(
        refused.message(),
        "A process named 'game' is already running. Stop it first or use a different name."
    );
    assert!(matches!(refused, StartError::DuplicateName { ref name } if name == "game"));
    let refused = manager.start("game", "sleep 5", "cwd", "logs/game_6.log", 6, 11).unwrap_err();
    assert!(refused.message().contains("already running"));
    assert_eq!(manager.list().len(), 1);
    assert_eq!(manager.get("game").unwrap().command, "sleep 10");
    assert_eq!(manager.cleanup(), vec!["game"]);
    assert!(!manager.is_running("game", WaitOutcome::StillRunning));
    assert!(manager.cleanup().is_empty());
    // The record outlives the child: the name stays taken until it is removed.
    assert!(manager.plan_start("game", "sleep 5", "cwd", 7).is_err());
    assert_eq!(manager.remove("game").unwrap().pid, 10);
    assert!(manager.plan_start("game", "sleep 5", "cwd", 7).is_ok());
}

#[test]
fn is_running_follows_the_wait_outcome() {
    let mut manager = BackgroundProcessManager::new("logs".to_string());
    manager.start("a", "true", ".", "logs/a.log", 1, 1).unwrap();
    assert!(manager.holds_child("a"));
    assert!(manager.is_running("a", WaitOutcome::StillRunning));
    assert!(!manager.is_running("a", WaitOutcome::Exited));
    assert!(!manager.is_running("a", WaitOutcome::Failed));
    assert!(!manager.holds_child("b"));
    assert!(!manager.is_running("b", WaitOutcome::StillRunning));
}

#[test]
fn remove_forgets_record_and_child_and_keeps_the_rest_in_order() {
    let mut manager = BackgroundProcessManager::new("logs".to_string());
    manager.start("a", "ca", "da", "la", 1, 11).unwrap();
    manager.start("b", "cb", "db", "lb", 2, 12).unwrap();
    manager.start("c", "cc", "dc", "lc", 3, 13).unwrap();
    let removed = manager.remove("b").unwrap();
    assert_eq!(removed.name, "b");
    assert_eq!(removed.command, "cb");
    assert_eq!(removed.working_dir, "db");
    assert_eq!(removed.log_file, "lb");
    assert_eq!(removed.started_at, 2);
    assert_eq!(removed.pid, 12);
    assert!(manager.remove("b").is_none());
    assert!(manager.get("b").is_none());
    assert!(!manager.holds_child("b"));
    let names: Vec<String> = manager.list().into_iter().map(|p| p.name).collect();
    assert_eq!(names, vec!["a", "c"]);
    assert_eq!(manager.cleanup(), vec!["a", "c"]);
    assert_eq!(manager.list().len(), 2);
}

#[test]
fn log_file_name_and_header_are_exact() {
    assert_eq!(log_file_name("game", 1700000000), "game_1700000000.log");
    assert_eq!(log_file_name("x", 0), "x_0.log");
    assert_eq!(log_file_name("x", u64::MAX), "x_18446744073709551615.log");
    assert_eq!(
        log_header("game", "npm run dev", "\"/srv/game\"", 1700000000),
        "=== Background Process Log ===\nName: game\nCommand: npm run dev\nWorking Directory: \"/srv/game\"\nStarted: 1700000000\n================================\n\n"
    );
}

#[test]
fn plan_start_shows_the_working_directory_in_debug_form() {
    let manager = BackgroundProcessManager::new("logs".to_string());
    let plan = manager.plan_start("n", "c", "/a \"b\"\\c", 12).unwrap();
    assert_eq!(plan.log_file_name, "n_12.log");
    assert_eq!(
        plan.header,
        "=== Background Process Log ===\nName: n\nCommand: c\nWorking Directory: \"/a \\\"b\\\"\\\\c\"\nStarted: 12\n================================\n\n"
    );
}

#[test]
fn start_error_messages_are_exact() {
    assert_eq!(
        StartError::LogFile { detail: "denied".to_string() }.message(),
        "Failed to create log file: denied"
    );
    assert_eq!(
        StartError::LogHandle { detail: "denied".to_string() }.message(),
        "Failed to clone log file handle: denied"
    );
    assert_eq!(
        StartError::Spawn { detail: "no bash".to_string() }.message(),
        "Failed to spawn process: no bash"
    );
}
