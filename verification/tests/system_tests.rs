use idle_cosmic::config::ThemeConfig;
use idle_cosmic::launch::{
    DashboardLaunch, LaunchStep, PreviewAnswer, PreviewError, PreviewLaunch, PreviewStep,
    SpawnResult,
};
use idle_cosmic::pidfile::{parse_pid, targets_idle_daemon};

#[test]
fn pid_text_parses_like_i32() {
    assert_eq!(parse_pid("1234\n"), Some(1234));
    assert_eq!(parse_pid("  -2147483648 "), Some(i32::MIN));
    assert_eq!(parse_pid("2147483648"), None);
    assert_eq!(parse_pid("+5"), Some(5));
    assert_eq!(parse_pid("-+5"), None);
    assert_eq!(parse_pid("-"), None);
    assert_eq!(parse_pid("12a"), None);
    assert_eq!(parse_pid(""), None);
}

#[test]
fn daemon_identity_needs_cmdline_and_comm() {
    let cmd = "/usr/bin/idle-daemon\0run\0";
    assert!(targets_idle_daemon(Some(cmd), Some("idle-daemon\n")));
    assert!(targets_idle_daemon(Some("x\0/opt/idlescreen-daemon"), Some("idlescreen-")));
    assert!(!targets_idle_daemon(Some(cmd), Some("bash\n")));
    assert!(!targets_idle_daemon(Some("/usr/bin/test-binary\0"), Some("idle-daemon")));
    assert!(!targets_idle_daemon(Some("/usr/bin/idle-daemonx"), Some("idle-daemon")));
    assert!(!targets_idle_daemon(None, Some("idle-daemon")));
    assert!(!targets_idle_daemon(Some(cmd), None));
}

#[test]
fn config_candidates_in_order() {
    let c = ThemeConfig::config_path_candidates(Some("/x"), Some("/home/u"));
    assert_eq!(
        c,
        vec![
            "/x/idle/config.yaml",
            "/x/trance/config.yaml",
            "/home/u/.config/idle/config.yaml",
            "/home/u/.config/trance/config.yaml",
        ]
    );
    let c = ThemeConfig::config_path_candidates(Some(""), Some("/home/u/"));
    assert_eq!(c, vec!["/home/u/.config/idle/config.yaml", "/home/u/.config/trance/config.yaml"]);
    assert!(ThemeConfig::config_path_candidates(None, None).is_empty());
    assert_eq!(ThemeConfig::get_config_path(None, None), None);
    assert_eq!(
        ThemeConfig::get_config_path(None, Some("/h")).as_deref(),
        Some("/h/.config/idle/config.yaml")
    );
}

#[test]
fn load_uses_first_readable_file() {
    let reads = vec![None, Some("idle_timeout_mins: 9\n".to_string()), Some("idle_timeout_mins: 1\n".to_string())];
    assert_eq!(ThemeConfig::load_from(&reads).idle_timeout_mins, 9);
    assert_eq!(ThemeConfig::load_from(&vec![None, None]).idle_timeout_mins, 5);
}

#[test]
fn dashboard_order() {
    let mut d = DashboardLaunch::new();
    match d.step() {
        LaunchStep::Which(t) => assert_eq!(t, "cosmic-term"),
        _ => panic!(),
    }
    d.answer(true);
    match d.step() {
        LaunchStep::SpawnDetached(argv) => assert_eq!(argv, vec!["cosmic-term", "-e", "idle-tui"]),
        _ => panic!(),
    }
    for _ in 0..4 {
        d.answer(false);
    }
    match d.step() {
        LaunchStep::Which(t) => assert_eq!(t, "cosmic-term"),
        _ => panic!(),
    }
    let mut n = 0;
    loop {
        match d.step() {
            LaunchStep::Finished(ok) => {
                assert!(!ok);
                break;
            }
            LaunchStep::Spawn(argv) => {
                assert_eq!(argv[0], "gtk-launch");
                d.answer(false);
            }
            _ => d.answer(false),
        }
        n += 1;
    }
    assert_eq!(n, 7 + 2);
}

#[test]
fn preview_falls_back_to_helpers() {
    let mut p = PreviewLaunch::new("beams".to_string());
    assert!(matches!(p.step(), PreviewStep::IsRunning));
    p.answer(PreviewAnswer::Running(false));
    assert!(matches!(p.step(), PreviewStep::StartService));
    p.answer(PreviewAnswer::Attempted);
    p.answer(PreviewAnswer::Running(true));
    match p.step() {
        PreviewStep::DbusPreview(n) => assert_eq!(n, "beams"),
        _ => panic!(),
    }
    p.answer(PreviewAnswer::Previewed(false));
    match p.step() {
        PreviewStep::SpawnHelper(h, n) => {
            assert_eq!(h, "idle-daemon");
            assert_eq!(n, "beams");
        }
        _ => panic!(),
    }
    p.answer(PreviewAnswer::Spawned(SpawnResult::NotSpawned));
    p.answer(PreviewAnswer::Spawned(SpawnResult::NotSpawned));
    match p.step() {
        PreviewStep::SpawnHelper(h, _) => assert_eq!(h, "trance-daemon"),
        _ => panic!(),
    }
    p.answer(PreviewAnswer::Spawned(SpawnResult::NotSpawned));
    assert!(matches!(p.step(), PreviewStep::Finished(Err(PreviewError::NoHelper))));
}

#[test]
fn preview_early_exit_is_an_error() {
    let mut p = PreviewLaunch::new("x".to_string());
    p.answer(PreviewAnswer::Running(true));
    p.answer(PreviewAnswer::Running(false));
    p.answer(PreviewAnswer::Spawned(SpawnResult::ExitedEarly("exit status: 1".to_string())));
    match p.step() {
        PreviewStep::Finished(Err(PreviewError::ExitedEarly(s))) => assert_eq!(s, "exit status: 1"),
        _ => panic!(),
    }
}
