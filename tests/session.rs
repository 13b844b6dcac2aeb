use doom_launcher::session::{check_executable, names_engine, LaunchError, Phase, Session};

#[test]
fn poll_is_none_before_launch() {
    let s = Session::new();
    assert_eq!(s.phase(), Phase::Idle);
    assert_eq!(s.poll_log(), None);
}

#[test]
fn poll_waits_for_exit() {
    let mut s = Session::new();
    assert_eq!(s.on_spawn(true), Ok(()));
    assert_eq!(s.poll_log(), None);
    s.record(5, "out line".to_string());
    s.record(3, "err line".to_string());
    s.record(9, "last".to_string());
    assert_eq!(s.poll_log(), None);
    s.finish();
    assert_eq!(s.phase(), Phase::Finished);
    let log = s.poll_log().unwrap();
    assert_eq!(
        log,
        vec![(5, "out line".to_string()), (5, "err line".to_string()), (9, "last".to_string())]
    );
    for w in log.windows(2) {
        assert!(w[0].0 <= w[1].0);
    }
}

#[test]
fn nothing_recorded_before_launch() {
    let mut s = Session::new();
    s.record(1, "stray".to_string());
    s.finish();
    assert_eq!(s.phase(), Phase::Idle);
    assert_eq!(s.poll_log(), None);
}

#[test]
fn relaunch_replaces_session() {
    let mut s = Session::new();
    s.on_spawn(true).unwrap();
    s.record(1, "old".to_string());
    s.finish();
    assert!(s.poll_log().is_some());
    s.on_spawn(true).unwrap();
    assert_eq!(s.phase(), Phase::Running);
    assert_eq!(s.poll_log(), None);
    s.finish();
    assert_eq!(s.poll_log(), Some(vec![]));
}

#[test]
fn failed_spawn_keeps_session() {
    let mut s = Session::new();
    assert_eq!(s.on_spawn(false), Err(LaunchError::SpawnError));
    assert_eq!(s.phase(), Phase::Idle);
    s.on_spawn(true).unwrap();
    s.record(2, "line".to_string());
    assert_eq!(s.on_spawn(false), Err(LaunchError::SpawnError));
    s.finish();
    assert_eq!(s.poll_log(), Some(vec![(2, "line".to_string())]));
}

#[test]
fn executable_path_check() {
    assert_eq!(check_executable("/usr/games/gzdoom"), Ok(()));
    assert_eq!(check_executable("C:\\Games\\GZDoom\\GZDOOM.EXE"), Ok(()));
    assert_eq!(check_executable("/usr/bin/doom"), Err(LaunchError::InvalidExecutable));
    assert_eq!(check_executable(""), Err(LaunchError::InvalidExecutable));
    assert!(names_engine("/opt/gzdoom"));
    assert!(!names_engine("/opt/GZDOOM"));
    assert!(!names_engine("gzdoo"));
}
