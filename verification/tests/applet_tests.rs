use idle_cosmic::applet::{AppModel, Message, Outcome, Request, Stage};

#[test]
fn toggle_advanced_flips_show_advanced() {
    let mut m = AppModel::default();
    assert!(!m.show_advanced, "default: show_advanced = false");
    m.show_advanced = true;
    let _ = m.handle_update(Message::ToggleAdvanced);
    assert!(!m.show_advanced, "ToggleAdvanced should flip true→false");
    let _ = m.handle_update(Message::ToggleAdvanced);
    assert!(m.show_advanced, "ToggleAdvanced should flip false→true");
}

#[test]
fn toggle_fps_overlay_flips_local_config() {
    let mut m = AppModel::default();
    assert!(!m.local_config.show_fps_overlay);
    m.local_config.show_fps_overlay = true;
    assert!(m.local_config.show_fps_overlay);
}

#[test]
fn fps_toggle_saves_when_daemon_down() {
    let mut m = AppModel::default();
    assert!(matches!(m.handle_update(Message::ToggleFpsOverlay(true)), Request::QueryRunning));
    assert!(m.show_fps_overlay);
    assert!(!m.local_config.show_fps_overlay);
    assert!(matches!(m.resume(Outcome::Running(false)), Request::SaveField("show_fps_overlay")));
    assert!(m.local_config.show_fps_overlay);
    assert!(matches!(m.resume(Outcome::Finished), Request::Finish));
    assert!(matches!(m.stage, Stage::Idle));
}

#[test]
fn fps_toggle_pushes_when_daemon_runs() {
    let mut m = AppModel::default();
    let _ = m.handle_update(Message::ToggleFpsOverlay(true));
    assert!(matches!(m.resume(Outcome::Running(true)), Request::PushFpsOverlay(true)));
    assert!(!m.local_config.show_fps_overlay);
}

#[test]
fn timeout_steps_clamp() {
    let mut m = AppModel::default();
    m.local_config.idle_timeout_mins = 3;
    assert!(matches!(m.handle_update(Message::DecreaseTimeout), Request::QueryRunning));
    assert_eq!(m.local_config.idle_timeout_mins, 1);
    assert!(matches!(m.resume(Outcome::Running(true)), Request::PushTimeout(1)));
    let _ = m.resume(Outcome::Finished);
    assert!(matches!(m.handle_update(Message::DecreaseTimeout), Request::Finish));
    m.local_config.idle_timeout_mins = 118;
    let _ = m.handle_update(Message::IncreaseTimeout);
    assert_eq!(m.local_config.idle_timeout_mins, 120);
    assert!(matches!(m.resume(Outcome::Running(false)), Request::SaveField("idle_timeout_mins")));
}

#[test]
fn random_saver_clears_active() {
    let mut m = AppModel::default();
    m.local_config.active_saver = Some("beams".to_string());
    let _ = m.handle_update(Message::ActiveSaverSelected("Random".to_string()));
    assert!(m.local_config.active_saver.is_none());
    assert!(matches!(m.resume(Outcome::Running(true)), Request::PushActiveSaver(None)));
    let _ = m.handle_update(Message::ActiveSaverSelected("storm".to_string()));
    match m.resume(Outcome::Running(true)) {
        Request::PushActiveSaver(Some(s)) => assert_eq!(s, "storm"),
        _ => panic!("expected a push of the saver"),
    }
}

#[test]
fn failed_daemon_start_reports_error() {
    let mut m = AppModel::default();
    assert!(matches!(m.handle_update(Message::ToggleDaemon(true)), Request::StartService));
    assert!(matches!(m.resume(Outcome::Succeeded(false)), Request::QueryRunning));
    assert_eq!(m.last_error.as_deref(), Some("Could not start idle-daemon"));
    assert!(matches!(m.resume(Outcome::Running(false)), Request::RefreshDaemonState));
    assert!(!m.daemon_running);
    assert!(matches!(m.resume(Outcome::Finished), Request::Finish));
}

#[test]
fn daemon_start_clears_error() {
    let mut m = AppModel::default();
    m.last_error = Some("old".to_string());
    let _ = m.handle_update(Message::ToggleDaemon(true));
    assert!(matches!(m.resume(Outcome::Succeeded(true)), Request::RefreshDaemonState));
    assert!(m.daemon_running);
    assert!(m.last_error.is_none());
}

#[test]
fn popup_opens_and_closes() {
    let mut m = AppModel::default();
    m.last_error = Some("old".to_string());
    assert!(matches!(m.handle_update(Message::TogglePopup), Request::RefreshDaemonState));
    assert!(matches!(m.resume(Outcome::Finished), Request::NewPopup));
    assert!(m.last_error.is_none());
    assert!(matches!(m.resume(Outcome::Popup(Some(7))), Request::ShowPopup(7)));
    assert_eq!(m.popup, Some(7));
    let _ = m.handle_update(Message::PopupClosed(8));
    assert_eq!(m.popup, Some(7));
    assert!(matches!(m.handle_update(Message::TogglePopup), Request::ClosePopup(7)));
    assert_eq!(m.popup, None);
}

#[test]
fn dashboard_success_closes_popup() {
    let mut m = AppModel::default();
    m.popup = Some(3);
    let _ = m.handle_update(Message::OpenDashboard);
    assert!(matches!(m.resume(Outcome::Succeeded(true)), Request::ClosePopup(3)));
    let _ = m.handle_update(Message::OpenDashboard);
    assert!(matches!(m.resume(Outcome::Succeeded(false)), Request::Finish));
    assert_eq!(
        m.last_error.as_deref(),
        Some("Could not open the dashboard in a terminal")
    );
}

#[test]
fn preview_picks_saver() {
    let mut m = AppModel::default();
    assert_eq!(m.pick_preview_saver(true, 5), "beams");
    m.screensavers = vec!["a".to_string(), "b".to_string(), "c".to_string()];
    assert_eq!(m.pick_preview_saver(false, 5), "a");
    assert_eq!(m.pick_preview_saver(true, 5), "c");
    assert!(matches!(m.handle_update(Message::MiddleClick), Request::PickRandom));
    match m.resume(Outcome::Random(4)) {
        Request::Preview(s) => assert_eq!(s, "b"),
        _ => panic!("expected a preview"),
    }
    assert!(matches!(m.resume(Outcome::Succeeded(false)), Request::Finish));
    assert_eq!(m.last_error.as_deref(), Some("Preview failed"));
    m.local_config.active_saver = Some("storm".to_string());
    match m.handle_update(Message::MiddleClick) {
        Request::Preview(s) => assert_eq!(s, "storm"),
        _ => panic!("expected a preview"),
    }
}

#[test]
fn unexpected_outcome_ends_sequence() {
    let mut m = AppModel::default();
    let _ = m.handle_update(Message::ToggleDaemon(false));
    assert!(matches!(m.resume(Outcome::Random(1)), Request::Finish));
    assert!(matches!(m.stage, Stage::Idle));
}

#[test]
fn render_scale_change_is_saved_as_text() {
    let mut m = AppModel::default();
    let _ = m.handle_update(Message::ChangeRenderScale("0.75".to_string()));
    assert_eq!(m.local_config.render_scale.as_deref(), Some("0.75"));
    match m.resume(Outcome::Running(true)) {
        Request::PushRenderScale(s) => assert_eq!(s, "0.75"),
        _ => panic!("expected a push"),
    }
}
