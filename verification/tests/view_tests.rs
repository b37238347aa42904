use idle_cosmic::applet::AppModel;
use idle_cosmic::saver_names::{display_saver_name, title_case_with};

#[test]
fn title_cases_savers() {
    assert_eq!(display_saver_name("beams"), "Beams");
    assert_eq!(display_saver_name("my_cool-saver"), "My Cool Saver");
}

#[test]
fn random_label_is_localized() {
    assert_eq!(display_saver_name("RANDOM"), "Random");
    assert_eq!(display_saver_name("ßIG"), "SSig");
    assert_eq!(display_saver_name("BEAMS"), "Beams");
}

#[test]
fn grid_has_rows_of_four() {
    let mut m = AppModel::default();
    assert!(m.saver_grid().is_empty());
    m.screensavers = ["a", "b", "c", "d", "e"].iter().map(|s| s.to_string()).collect();
    m.local_config.active_saver = Some("c".to_string());
    let rows = m.saver_grid();
    assert_eq!(rows.len(), 2);
    assert_eq!(rows[0].len(), 4);
    assert_eq!(rows[1].len(), 2);
    assert_eq!(rows[0][0].value, "Random");
    assert_eq!(rows[0][0].label, "Random");
    assert_eq!(rows[0][3].value, "c");
    assert!(rows[0][3].selected);
    assert!(!rows[0][0].selected);
    assert_eq!(rows[1][1].label, "E");
}

#[test]
fn popup_labels_follow_state() {
    let mut m = AppModel::default();
    m.local_config.idle_timeout_mins = 15;
    let p = m.popup_content();
    assert_eq!(p.title, "IdleScreen");
    assert_eq!(p.status, "stopped");
    assert_eq!(p.timeout_label, "15 min");
    assert_eq!(p.preview_label, "Preview (starts daemon)");
    assert_eq!(p.no_savers.as_deref(), Some("No screensavers installed"));
    m.daemon_running = true;
    m.screensavers = vec!["beams".to_string()];
    let p = m.popup_content();
    assert_eq!(p.status, "running");
    assert_eq!(p.preview_label, "Preview now");
    assert!(p.no_savers.is_none());
    assert_eq!(p.saver_rows.len(), 1);
}

#[test]
fn title_case_uses_the_given_case_forms() {
    let raw: Vec<char> = "ab-c".chars().collect();
    let uppers = vec![vec!['A', 'A'], vec!['B'], vec![], vec!['C']];
    let lowers = vec![vec!['a'], vec!['b', 'b'], vec![], vec!['c']];
    let out: String = title_case_with(&raw, &uppers, &lowers).into_iter().collect();
    assert_eq!(out, "AAbb C");
}

#[test]
fn ascii_names_read_in_ascii_title_case() {
    assert_eq!(display_saver_name("a1"), "A1");
    assert_eq!(display_saver_name("x.y-z_9w"), "X.y Z 9w");
    assert_eq!(display_saver_name("RaNdOm2"), "Random2");
}
