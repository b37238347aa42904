use idle_cosmic::i18n::message;

#[test]
fn known_ids_resolve() {
    assert_eq!(message("app-title", &[]), "IdleScreen");
}

#[test]
fn args_substitute() {
    assert_eq!(message("timeout-minutes", &[("mins", "5".to_string())]), "5 min");
}

#[test]
fn unknown_id_renders_id() {
    assert_eq!(message("missing-key", &[]), "missing-key");
}

#[test]
fn unused_and_unknown_args_are_ignored() {
    assert_eq!(message("app-title", &[("mins", "5".to_string())]), "IdleScreen");
    assert_eq!(message("timeout-minutes", &[("pct", "5".to_string())]), "{$mins} min");
}

#[test]
fn replacement_is_not_rescanned() {
    assert_eq!(
        message("timeout-minutes", &[("mins", "{$mins}{$mins}".to_string())]),
        "{$mins}{$mins} min"
    );
    assert_eq!(
        message("timeout-minutes", &[("mins", "{$mins}".to_string()), ("mins", "x".to_string())]),
        "x min"
    );
}
