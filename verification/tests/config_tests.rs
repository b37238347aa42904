use idle_cosmic::config::{merge_preserving, ThemeConfig};

fn scale_value(c: &ThemeConfig) -> Option<f32> {
    c.render_scale.as_deref().and_then(|t| t.parse::<f32>().ok())
}

#[test]
fn defaults_are_sane() {
    let d = ThemeConfig::defaults();
    assert_eq!(d.idle_timeout_mins, 5);
    assert_eq!(d.active_saver.as_deref(), Some("beams"));
    assert!(d.idle_enabled);
    assert!(d.render_scale.is_none());
}

#[test]
fn parses_known_keys() {
    let yaml = r##"
# comment
accent_color: "#FF0000"
idle_timeout_mins: 15
theme_idx: 2
active_saver: "cosmos"
idle_enabled: false
show_fps_overlay: true
render_scale: 0.5
unknown_key: ignored
"##;
    let c = ThemeConfig::from_yaml_content(yaml);
    assert_eq!(c.accent_color, "#FF0000");
    assert_eq!(c.idle_timeout_mins, 15);
    assert_eq!(c.theme_idx, 2);
    assert_eq!(c.active_saver.as_deref(), Some("cosmos"));
    assert!(!c.idle_enabled);
    assert!(c.show_fps_overlay);
    assert_eq!(scale_value(&c), Some(0.5));
}

#[test]
fn render_scale_null_maps_to_none() {
    let c = ThemeConfig::from_yaml_content("render_scale: null\n");
    assert!(c.render_scale.is_none());
    let c = ThemeConfig::from_yaml_content("render_scale: \"null\"\n");
    assert!(c.render_scale.is_none());
}

#[test]
fn save_merges_preserving_foreign_keys() {
    let existing = "# user note\ntheme: \"synthwave\"\nstrict_control: true\nidle_timeout_mins: 5\n[saver]\nbeams.speed: 3\n";
    let mut c = ThemeConfig::defaults();
    c.idle_timeout_mins = 15;
    let out = merge_preserving(existing, &mut c.rendered_fields());
    assert!(out.contains("# user note"));
    assert!(out.contains("theme: \"synthwave\""));
    assert!(out.contains("strict_control: true"));
    assert!(out.contains("[saver]\nbeams.speed: 3"));
    assert!(out.contains("idle_timeout_mins: 15"));
    assert!(out.contains("render_scale: null"));
}

#[test]
fn active_saver_none_clears() {
    let c = ThemeConfig::from_yaml_content("active_saver: none\n");
    assert_eq!(c.active_saver, None);
    let c2 = ThemeConfig::from_yaml_content("active_saver: \"\"\n");
    assert_eq!(c2.active_saver, None);
}

#[test]
fn bad_values_keep_defaults() {
    let c = ThemeConfig::from_yaml_content(
        "idle_timeout_mins: not-a-number\nrender_scale: xyz\nidle_enabled: maybe\n",
    );
    let d = ThemeConfig::defaults();
    assert_eq!(c.idle_timeout_mins, d.idle_timeout_mins);
    assert_eq!(c.render_scale, d.render_scale);
    assert_eq!(c.idle_enabled, d.idle_enabled);
}

#[test]
fn quoted_and_unquoted_values() {
    let c = ThemeConfig::from_yaml_content("active_saver: 'storm'\naccent_color: #00FF00\n");
    assert_eq!(c.active_saver.as_deref(), Some("storm"));
    assert_eq!(c.accent_color, "#00FF00");
}

#[test]
fn merge_into_blank_file_writes_header_then_fields() {
    let mut fields = vec![("idle_enabled", "false".to_string())];
    let out = merge_preserving("  \n", &mut fields);
    assert_eq!(
        out,
        "# IdleScreen themes and settings\n# dark_mode is auto-detected from system\nidle_enabled: false\n"
    );
    assert!(fields.is_empty());
}

#[test]
fn merge_leaves_section_keys_and_appends_missing() {
    let existing = "[saver]\nidle_timeout_mins: 9\n";
    let mut fields = vec![("idle_timeout_mins", "30".to_string())];
    let out = merge_preserving(existing, &mut fields);
    assert_eq!(out, "[saver]\nidle_timeout_mins: 9\nidle_timeout_mins: 30\n");
}

#[test]
fn merge_replaces_first_owned_line_in_place() {
    let existing = "a: 1\r\nidle_enabled: true\nb: 2";
    let mut fields = vec![("idle_enabled", "false".to_string())];
    let out = merge_preserving(existing, &mut fields);
    assert_eq!(out, "a: 1\nidle_enabled: false\nb: 2\n");
}

#[test]
fn saved_field_reads_back() {
    let mut c = ThemeConfig::defaults();
    c.active_saver = Some("storm".to_string());
    c.render_scale = Some("0.75".to_string());
    let existing = "theme: \"x\"\nactive_saver: \"beams\"\n[saver]\nstorm.speed: 2\n";
    let text = c.save_field_text("active_saver", existing).unwrap();
    assert_eq!(ThemeConfig::from_yaml_content(&text).active_saver.as_deref(), Some("storm"));
    let text = c.save_field_text("render_scale", &text).unwrap();
    let back = ThemeConfig::from_yaml_content(&text);
    assert_eq!(scale_value(&back), Some(0.75));
    assert!(text.contains("storm.speed: 2"));
}

#[test]
fn save_refuses_foreign_key() {
    let c = ThemeConfig::defaults();
    let err = c.save_field_text("accent_color", "").unwrap_err();
    assert_eq!(err.message(), "not an applet-owned config key: accent_color");
}

#[test]
fn rendered_fields_values() {
    let mut c = ThemeConfig::defaults();
    c.active_saver = None;
    c.render_scale = Some("0.5".to_string());
    let f = c.rendered_fields();
    assert_eq!(
        f,
        vec![
            ("idle_timeout_mins", "5".to_string()),
            ("active_saver", "\"none\"".to_string()),
            ("idle_enabled", "true".to_string()),
            ("show_fps_overlay", "false".to_string()),
            ("render_scale", "0.5".to_string()),
        ]
    );
    assert_eq!(c.field("idle_enabled"), Some(("idle_enabled", "true".to_string())));
    assert_eq!(c.field("theme_idx"), None);
}

#[test]
fn numbers_parse_as_std_does() {
    let c = ThemeConfig::from_yaml_content("idle_timeout_mins: +7\ntheme_idx: 0003\n");
    assert_eq!(c.idle_timeout_mins, 7);
    assert_eq!(c.theme_idx, 3);
    let c = ThemeConfig::from_yaml_content("idle_timeout_mins: 4294967296\n");
    assert_eq!(c.idle_timeout_mins, 5);
    let c = ThemeConfig::from_yaml_content("idle_timeout_mins: 4294967295\n");
    assert_eq!(c.idle_timeout_mins, 4294967295);
    let c = ThemeConfig::from_yaml_content("idle_timeout_mins: -1\n");
    assert_eq!(c.idle_timeout_mins, 5);
}

#[test]
fn scale_text_accepts_what_f32_parse_accepts() {
    for t in ["1", "1.", ".5", "1e3", "2.5E-2", "+inf", "-Infinity", "NaN", "7e+1"] {
        let c = ThemeConfig::from_yaml_content(&format!("render_scale: {t}\n"));
        assert_eq!(c.render_scale.as_deref(), Some(t), "{t}");
        assert!(t.parse::<f32>().is_ok());
    }
    for t in [".", "e5", "1e", "1.2.3", "0x10", "in", "1_0"] {
        let c = ThemeConfig::from_yaml_content(&format!("render_scale: {t}\n"));
        assert_eq!(c.render_scale, None, "{t}");
        assert!(t.parse::<f32>().is_err());
    }
    let c = ThemeConfig::from_yaml_content("render_scale: 0.5\nrender_scale: NULL\n");
    assert_eq!(c.render_scale, None);
}

#[test]
fn comments_blank_and_colonless_lines_are_skipped() {
    let c = ThemeConfig::from_yaml_content("   \n# idle_enabled: false\nidle_enabled false\n");
    assert!(c.idle_enabled);
}

#[test]
fn default_is_empty() {
    let c = ThemeConfig::default();
    assert_eq!(c.accent_color, "");
    assert_eq!(c.idle_timeout_mins, 0);
    assert!(!c.idle_enabled);
    assert!(c.active_saver.is_none());
}

#[test]
fn apply_yaml_line_updates_one_field() {
    let mut c = ThemeConfig::defaults();
    ThemeConfig::apply_yaml_line(&mut c, "  theme_idx :  4  ");
    assert_eq!(c.theme_idx, 4);
    ThemeConfig::apply_yaml_line(&mut c, "accent_color: \"'#123'\"");
    assert_eq!(c.accent_color, "#123");
    ThemeConfig::apply_yaml_line(&mut c, "accent_color: a: b");
    assert_eq!(c.accent_color, "a: b");
    ThemeConfig::apply_yaml_line(&mut c, "show_fps_overlay: True");
    assert!(!c.show_fps_overlay);
}

fn same_settings(a: &ThemeConfig, b: &ThemeConfig) -> bool {
    a.accent_color == b.accent_color
        && a.idle_timeout_mins == b.idle_timeout_mins
        && a.theme_idx == b.theme_idx
        && a.active_saver == b.active_saver
        && a.idle_enabled == b.idle_enabled
        && a.show_fps_overlay == b.show_fps_overlay
        && a.render_scale == b.render_scale
}

#[test]
fn reading_joined_text_reads_the_parts_in_order() {
    let a = "idle_timeout_mins: 9\nactive_saver: storm\n";
    let b = "idle_timeout_mins: 3\nfoo: bar\r\nidle_enabled: false";
    let whole = ThemeConfig::from_yaml_content(&format!("{a}{b}"));
    let mut stepwise = ThemeConfig::from_yaml_content(a);
    for line in b.lines() {
        ThemeConfig::apply_yaml_line(&mut stepwise, line);
    }
    assert!(same_settings(&whole, &stepwise));
    assert_eq!(whole.idle_timeout_mins, 3);
    assert_eq!(whole.active_saver.as_deref(), Some("storm"));
    assert!(!whole.idle_enabled);
    assert!(same_settings(&ThemeConfig::from_yaml_content(""), &ThemeConfig::defaults()));
}

#[test]
fn merging_several_fields_then_reading_keeps_other_settings() {
    let existing = "# c\naccent_color: #112233\nidle_timeout_mins: 1\ntheme_idx: 4\n[saver]\nspeed: 3\n";
    let mut c = ThemeConfig::defaults();
    c.idle_timeout_mins = 12;
    c.show_fps_overlay = true;
    c.render_scale = Some("0.75".to_string());
    let fields = c.rendered_fields();
    let merged = merge_preserving(existing, &mut fields.clone());
    let read = ThemeConfig::from_yaml_content(&merged);
    let mut expected = ThemeConfig::from_yaml_content(existing);
    for (k, v) in &fields {
        ThemeConfig::apply_yaml_line(&mut expected, &format!("{k}: {v}"));
    }
    assert!(same_settings(&read, &expected));
    assert_eq!(read.accent_color, "#112233");
    assert_eq!(read.theme_idx, 4);
    assert_eq!(read.idle_timeout_mins, 12);
    assert!(read.show_fps_overlay);
    assert_eq!(read.render_scale.as_deref(), Some("0.75"));
}

#[test]
fn saving_the_same_fields_twice_changes_nothing() {
    let mut c = ThemeConfig::defaults();
    c.active_saver = None;
    c.idle_enabled = false;
    let fields = c.rendered_fields();
    for existing in [
        "# c\naccent_color: #112233\nidle_enabled: true\nidle_enabled: true\nfoo: 1",
        "",
        "  \n",
        "idle_timeout_mins: 7\r\n",
    ] {
        let once = merge_preserving(existing, &mut fields.clone());
        let twice = merge_preserving(&once, &mut fields.clone());
        assert_eq!(once, twice);
    }
}
