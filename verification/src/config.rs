//! Theme and settings shared with the IdleScreen daemon: the line-oriented
//! `key: value` reader and the merge that writes applet-owned keys back
//! into an existing file without touching anything else.
use vstd::prelude::*;

use crate::text::{
    append_chars, chars_of, eq_ignore_ascii_case, find_char, find_in, float_text, is_float_text, lines_of,
    parse_bool, parse_bool_chars, parse_u32, parse_unsigned, parse_usize, same_ignoring_ascii_case,
    same_text, slice_of, split_lines, string_of, strip, strip_chars, trim, Class, decimal,
    decimal_chars,
};

verus! {

/// The applet's own cosmic-config entry (version 1).
#[derive(Debug, Clone)]
pub struct Config {
    pub demo: String,
}

impl Default for Config {
    fn default() -> (r: Self)
        ensures
            r.demo@ == Seq::<char>::empty(),
    {
        Config { demo: String::new() }
    }
}

impl Default for ThemeConfig {
    /// Empty text, zero numbers, `false` flags, no saver, auto scale.
    fn default() -> (r: Self)
        ensures
            r@ == empty_settings(),
    {
        ThemeConfig {
            accent_color: String::new(),
            idle_timeout_mins: 0,
            theme_idx: 0,
            active_saver: None,
            idle_enabled: false,
            show_fps_overlay: false,
            render_scale: None,
        }
    }
}

/// Settings the applet reads from and writes to the shared config file.
#[derive(Debug, Clone)]
pub struct ThemeConfig {
    pub accent_color: String,
    pub idle_timeout_mins: u32,
    pub theme_idx: usize,
    pub active_saver: Option<String>,
    pub idle_enabled: bool,
    pub show_fps_overlay: bool,
    /// `None` = auto (`null` on disk). Otherwise the scale as the decimal
    /// text it was read or set as: text that `str::parse::<f32>` accepts.
    pub render_scale: Option<String>,
}

/// The abstract value of a [`ThemeConfig`].
pub struct Settings {
    pub accent_color: Seq<char>,
    pub idle_timeout_mins: u32,
    pub theme_idx: usize,
    pub active_saver: Option<Seq<char>>,
    pub idle_enabled: bool,
    pub show_fps_overlay: bool,
    pub render_scale: Option<Seq<char>>,
}

pub open spec fn opt_view(o: Option<String>) -> Option<Seq<char>> {
    match o {
        Some(s) => Some(s@),
        None => None,
    }
}

impl View for ThemeConfig {
    type V = Settings;

    open spec fn view(&self) -> Settings {
        Settings {
            accent_color: self.accent_color@,
            idle_timeout_mins: self.idle_timeout_mins,
            theme_idx: self.theme_idx,
            active_saver: opt_view(self.active_saver),
            idle_enabled: self.idle_enabled,
            show_fps_overlay: self.show_fps_overlay,
            render_scale: opt_view(self.render_scale),
        }
    }
}

/// Empty text, zero numbers, `false` flags, no saver, auto scale.
pub open spec fn empty_settings() -> Settings {
    Settings {
        accent_color: Seq::empty(),
        idle_timeout_mins: 0,
        theme_idx: 0,
        active_saver: None,
        idle_enabled: false,
        show_fps_overlay: false,
        render_scale: None,
    }
}

/// The settings used when no config file is present.
pub open spec fn default_settings() -> Settings {
    Settings {
        accent_color: "#00BFFF"@,
        idle_timeout_mins: 5,
        theme_idx: 0,
        active_saver: Some("beams"@),
        idle_enabled: true,
        show_fps_overlay: false,
        render_scale: None,
    }
}

/// A value with surrounding double quotes, then single quotes, removed.
pub open spec fn unquote(v: Seq<char>) -> Seq<char> {
    strip(strip(v, Class::Only('"')), Class::Only('\''))
}

/// The `(key, value)` that a config line holds: `None` for blank lines,
/// `#` comments and lines without a `:`. The key is the trimmed text before
/// the first `:`; the value the trimmed, unquoted text after it.
pub open spec fn yaml_entry(line: Seq<char>) -> Option<(Seq<char>, Seq<char>)> {
    let t = trim(line);
    if t.len() == 0 || t[0] == '#' {
        None
    } else {
        match find_char(t, ':') {
            None => None,
            Some(i) => Some((trim(t.take(i)), unquote(trim(t.skip(i + 1))))),
        }
    }
}

/// The settings after reading `key: val`. Unknown keys and values that do
/// not read as the field's type leave the settings as they were.
pub open spec fn apply_entry(c: Settings, key: Seq<char>, val: Seq<char>) -> Settings {
    if key == "accent_color"@ {
        Settings { accent_color: val, ..c }
    } else if key == "idle_timeout_mins"@ {
        match parse_u32(val) {
            Some(n) => Settings { idle_timeout_mins: n, ..c },
            None => c,
        }
    } else if key == "theme_idx"@ {
        match parse_usize(val) {
            Some(n) => Settings { theme_idx: n, ..c },
            None => c,
        }
    } else if key == "active_saver"@ {
        if val.len() > 0 && val != "none"@ {
            Settings { active_saver: Some(val), ..c }
        } else {
            Settings { active_saver: None, ..c }
        }
    } else if key == "idle_enabled"@ {
        match parse_bool(val) {
            Some(b) => Settings { idle_enabled: b, ..c },
            None => c,
        }
    } else if key == "show_fps_overlay"@ {
        match parse_bool(val) {
            Some(b) => Settings { show_fps_overlay: b, ..c },
            None => c,
        }
    } else if key == "render_scale"@ {
        if val.len() == 0 || eq_ignore_ascii_case(val, "null"@) {
            Settings { render_scale: None, ..c }
        } else if float_text(val) {
            Settings { render_scale: Some(val), ..c }
        } else {
            c
        }
    } else {
        c
    }
}

/// The settings after reading one line.
pub open spec fn apply_line(c: Settings, line: Seq<char>) -> Settings {
    match yaml_entry(line) {
        Some((k, v)) => apply_entry(c, k, v),
        None => c,
    }
}

/// The settings after reading `ls` in order.
pub open spec fn apply_lines(c: Settings, ls: Seq<Seq<char>>) -> Settings
    decreases ls.len(),
{
    if ls.len() == 0 {
        c
    } else {
        apply_line(apply_lines(c, ls.drop_last()), ls.last())
    }
}

/// The settings that a config file's content describes.
pub open spec fn parse_content(content: Seq<char>) -> Settings {
    apply_lines(default_settings(), lines_of(content))
}


/// `"true"` or `"false"` (`bool::to_string`).
pub open spec fn bool_text(b: bool) -> Seq<char> {
    if b {
        "true"@
    } else {
        "false"@
    }
}

/// `(key, value)` pairs viewed as text.
pub open spec fn fields_view(v: Seq<(&'static str, String)>) -> Seq<(Seq<char>, Seq<char>)> {
    v.map_values(|p: (&'static str, String)| (p.0@, p.1@))
}

/// The keys the applet writes, each with its value as written on disk.
pub open spec fn rendered(c: Settings) -> Seq<(Seq<char>, Seq<char>)> {
    seq![
        ("idle_timeout_mins"@, decimal(c.idle_timeout_mins as nat)),
        ("active_saver"@, seq!['"'] + match c.active_saver {
            Some(s) => s,
            None => "none"@,
        } + seq!['"']),
        ("idle_enabled"@, bool_text(c.idle_enabled)),
        ("show_fps_overlay"@, bool_text(c.show_fps_overlay)),
        ("render_scale"@, match c.render_scale {
            Some(t) => t,
            None => "null"@,
        }),
    ]
}

/// Position of the first pair in `fs` whose key is `key`.
pub open spec fn field_pos(fs: Seq<(Seq<char>, Seq<char>)>, key: Seq<char>) -> Option<int>
    decreases fs.len(),
{
    if fs.len() == 0 {
        None
    } else if fs[0].0 == key {
        Some(0)
    } else {
        match field_pos(fs.drop_first(), key) {
            Some(i) => Some(i + 1),
            None => None,
        }
    }
}

pub proof fn lemma_field_pos(fs: Seq<(Seq<char>, Seq<char>)>, key: Seq<char>)
    ensures
        match field_pos(fs, key) {
            Some(i) => 0 <= i < fs.len() && fs[i].0 == key && forall|j: int|
                0 <= j < i ==> #[trigger] fs[j].0 != key,
            None => forall|j: int| 0 <= j < fs.len() ==> #[trigger] fs[j].0 != key,
        },
    decreases fs.len(),
{
    if fs.len() > 0 && fs[0].0 != key {
        let t = fs.drop_first();
        lemma_field_pos(t, key);
        assert forall|j: int| 1 <= j < fs.len() implies fs[j] == t[j - 1] by {}
    }
}

pub proof fn lemma_field_pos_at(fs: Seq<(Seq<char>, Seq<char>)>, key: Seq<char>, i: int)
    requires
        0 <= i <= fs.len(),
        forall|j: int| 0 <= j < i ==> #[trigger] fs[j].0 != key,
        i == fs.len() || fs[i].0 == key,
    ensures
        field_pos(fs, key) == (if i < fs.len() { Some(i) } else { None::<int> }),
{
    lemma_field_pos(fs, key);
    match field_pos(fs, key) {
        Some(x) => {
            if x < i {
                assert(fs[x].0 != key);
            }
            if x > i {
                assert(fs[i].0 != key);
            }
        },
        None => {
            if i < fs.len() {
                assert(fs[i].0 != key);
            }
        },
    }
}

/// The owned field `key` of `c` with its on-disk value, if `key` is owned.
pub open spec fn owned_field(c: Settings, key: Seq<char>) -> Option<(Seq<char>, Seq<char>)> {
    match field_pos(rendered(c), key) {
        Some(i) => Some(rendered(c)[i]),
        None => None,
    }
}

/// The line `key: value`.
pub open spec fn field_line(f: (Seq<char>, Seq<char>)) -> Seq<char> {
    f.0 + ": "@ + f.1
}

/// The lines of `fs`, one `key: value` line each.
pub open spec fn field_lines(fs: Seq<(Seq<char>, Seq<char>)>) -> Seq<Seq<char>> {
    fs.map_values(|f: (Seq<char>, Seq<char>)| field_line(f))
}

/// The text made of `ls`, each line ended by `\n`.
pub open spec fn join_lines(ls: Seq<Seq<char>>) -> Seq<char>
    decreases ls.len(),
{
    if ls.len() == 0 {
        Seq::empty()
    } else {
        join_lines(ls.drop_last()) + ls.last() + seq!['\n']
    }
}

/// The key a line carries, as the reader sees it.
pub open spec fn line_key(line: Seq<char>) -> Option<Seq<char>> {
    match yaml_entry(line) {
        Some((k, _v)) => Some(k),
        None => None,
    }
}

/// A `[section]` header line.
pub open spec fn is_section_header(line: Seq<char>) -> bool {
    let t = trim(line);
    t.len() > 0 && t[0] == '[' && t.last() == ']'
}

/// Where a merge stands after some lines of the existing file.
pub struct MergeState {
    /// The lines written so far.
    pub out: Seq<Seq<char>>,
    /// Whether a `[section]` header has been passed.
    pub in_section: bool,
    /// The fields not written yet.
    pub fields: Seq<(Seq<char>, Seq<char>)>,
}

/// The merge after one more existing line: a header passes through and
/// opens the sections; an owned top-level line is replaced by its field;
/// every other line passes through unchanged.
pub open spec fn merge_step(st: MergeState, line: Seq<char>) -> MergeState {
    if is_section_header(line) {
        MergeState { out: st.out.push(line), in_section: true, fields: st.fields }
    } else if !st.in_section && line_key(line) is Some && field_pos(
        st.fields,
        line_key(line)->0,
    ) is Some {
        let p = field_pos(st.fields, line_key(line)->0)->0;
        MergeState {
            out: st.out.push(field_line(st.fields[p])),
            in_section: st.in_section,
            fields: st.fields.remove(p),
        }
    } else {
        MergeState { out: st.out.push(line), in_section: st.in_section, fields: st.fields }
    }
}

/// The merge after the lines `ls`.
pub open spec fn merge_all(st: MergeState, ls: Seq<Seq<char>>) -> MergeState
    decreases ls.len(),
{
    if ls.len() == 0 {
        st
    } else {
        merge_step(merge_all(st, ls.drop_last()), ls.last())
    }
}

/// The two comment lines that open a file the applet creates.
pub open spec fn header_lines() -> Seq<Seq<char>> {
    seq!["# IdleScreen themes and settings"@, "# dark_mode is auto-detected from system"@]
}

/// The lines of `existing` merged with `fields`.
pub open spec fn merged_lines(existing: Seq<char>, fields: Seq<(Seq<char>, Seq<char>)>) -> Seq<
    Seq<char>,
> {
    if trim(existing).len() == 0 {
        header_lines() + field_lines(fields)
    } else {
        let st = merge_all(
            MergeState { out: Seq::empty(), in_section: false, fields: fields },
            lines_of(existing),
        );
        st.out + field_lines(st.fields)
    }
}

/// The text of `existing` with `fields` merged in.
pub open spec fn merged_text(existing: Seq<char>, fields: Seq<(Seq<char>, Seq<char>)>) -> Seq<
    char,
> {
    join_lines(merged_lines(existing, fields))
}

/// Split a config line into key and value (see [`yaml_entry`]).
pub fn split_yaml_line(line: &Vec<char>) -> (r: Option<(Vec<char>, Vec<char>)>)
    ensures
        match r {
            Some(p) => yaml_entry(line@) == Some((p.0@, p.1@)),
            None => yaml_entry(line@) is None,
        },
{
    let t = strip_chars(line, Class::Space);
    if t.len() == 0 || t[0] == '#' {
        return None;
    }
    match find_in(&t, Class::Only(':')) {
        None => None,
        Some(i) => {
            let head = slice_of(&t, 0, i);
            let tail = slice_of(&t, i + 1, t.len());
            assert(head@ =~= t@.take(i as int));
            assert(tail@ =~= t@.skip(i + 1));
            let key = strip_chars(&head, Class::Space);
            let v0 = strip_chars(&tail, Class::Space);
            let v1 = strip_chars(&v0, Class::Only('"'));
            let val = strip_chars(&v1, Class::Only('\''));
            Some((key, val))
        },
    }
}


fn push_line(body: &mut Vec<char>, line: &Vec<char>)
    ensures
        final(body)@ == old(body)@ + line@ + seq!['\n'],
{
    append_chars(body, line);
    body.push('\n');
}

fn field_line_chars(f: &(&'static str, String)) -> (r: Vec<char>)
    ensures
        r@ == field_line((f.0@, f.1@)),
{
    let mut r = chars_of(f.0);
    r.push(':');
    r.push(' ');
    let v = chars_of(f.1.as_str());
    append_chars(&mut r, &v);
    proof {
        reveal_strlit(": ");
        assert(r@ =~= field_line((f.0@, f.1@)));
    }
    r
}

fn field_position(fields: &Vec<(&'static str, String)>, key: &Vec<char>) -> (r: Option<usize>)
    ensures
        match r {
            Some(i) => i < fields@.len() && field_pos(fields_view(fields@), key@) == Some(i as int),
            None => field_pos(fields_view(fields@), key@) is None,
        },
{
    let ghost fs = fields_view(fields@);
    let mut i: usize = 0;
    while i < fields.len()
        invariant
            i <= fields@.len(),
            fs == fields_view(fields@),
            forall|j: int| 0 <= j < i ==> #[trigger] fs[j].0 != key@,
        decreases fields@.len() - i,
    {
        if same_text(key, fields[i].0) {
            proof {
                lemma_field_pos_at(fs, key@, i as int);
            }
            return Some(i);
        }
        i = i + 1;
    }
    proof {
        lemma_field_pos_at(fs, key@, i as int);
    }
    None
}

fn is_header_line(line: &Vec<char>) -> (r: bool)
    ensures
        r == is_section_header(line@),
{
    let t = strip_chars(line, Class::Space);
    t.len() > 0 && t[0] == '[' && t[t.len() - 1] == ']'
}

/// Merge owned `key: value` fields into existing config text. Foreign
/// lines (comments, unknown keys, everything under `[section]` headers)
/// pass through unchanged. `fields` is drained; leftovers append at the end.
pub fn merge_preserving(existing: &str, fields: &mut Vec<(&'static str, String)>) -> (r: String)
    ensures
        r@ == merged_text(existing@, fields_view(old(fields)@)),
        final(fields)@.len() == 0,
{
    let text = chars_of(existing);
    let trimmed = strip_chars(&text, Class::Space);
    let mut body: Vec<char> = Vec::new();
    let ghost fs0 = fields_view(fields@);
    let ghost mut out: Seq<Seq<char>> = Seq::empty();
    if trimmed.len() == 0 {
        let h1 = chars_of("# IdleScreen themes and settings");
        let h2 = chars_of("# dark_mode is auto-detected from system");
        push_line(&mut body, &h1);
        let ghost b1 = body@;
        push_line(&mut body, &h2);
        proof {
            out = header_lines();
            assert(out.drop_last() =~= seq![h1@]);
            assert(seq![h1@].drop_last() =~= Seq::<Seq<char>>::empty());
            let one = seq![h1@];
            assert(one.len() == 1);
            assert(one.last() == h1@);
            assert(join_lines(one.drop_last()) =~= Seq::<char>::empty());
            assert(join_lines(one) == join_lines(one.drop_last()) + one.last() + seq!['\n']);
            assert(join_lines(one) =~= b1);
            assert(out.last() == h2@);
            assert(body@ =~= join_lines(out));
        }
    } else {
        let lines = split_lines(&text);
        let ghost ls = lines@.map_values(|l: Vec<char>| l@);
        let ghost st0 = MergeState { out: Seq::empty(), in_section: false, fields: fs0 };
        let mut in_section = false;
        let mut i: usize = 0;
        assert(ls.take(0) =~= Seq::<Seq<char>>::empty());
        while i < lines.len()
            invariant
                i <= lines@.len(),
                ls == lines@.map_values(|l: Vec<char>| l@),
                ls == lines_of(text@),
                merge_all(st0, ls.take(i as int)) == (MergeState {
                    out: out,
                    in_section: in_section,
                    fields: fields_view(fields@),
                }),
                body@ == join_lines(out),
            decreases lines@.len() - i,
        {
            let line = &lines[i];
            let ghost st = MergeState {
                out: out,
                in_section: in_section,
                fields: fields_view(fields@),
            };
            proof {
                assert(ls.take(i + 1).drop_last() =~= ls.take(i as int));
                assert(ls.take(i + 1).last() == line@);
            }
            if is_header_line(line) {
                in_section = true;
                push_line(&mut body, line);
                proof {
                    out = out.push(line@);
                    assert(out.drop_last() =~= st.out);
                }
            } else {
                let mut written = false;
                if !in_section {
                    match split_yaml_line(line) {
                        Some(p) => {
                            match field_position(fields, &p.0) {
                                Some(pos) => {
                                    let ghost old_fields = fields@;
                                    let f = fields.remove(pos);
                                    let fl = field_line_chars(&f);
                                    push_line(&mut body, &fl);
                                    proof {
                                        assert(fields_view(old_fields)[pos as int] == (f.0@, f.1@));
                                        assert(fields_view(fields@) =~= fields_view(old_fields).remove(pos as int));
                                        out = out.push(fl@);
                                        assert(out.drop_last() =~= st.out);
                                    }
                                    written = true;
                                },
                                None => {},
                            }
                        },
                        None => {},
                    }
                }
                if !written {
                    push_line(&mut body, line);
                    proof {
                        out = out.push(line@);
                        assert(out.drop_last() =~= st.out);
                    }
                }
            }
            i = i + 1;
        }
        assert(ls.take(i as int) =~= ls);
    }
    let ghost before = out;
    let mut j: usize = 0;
    while j < fields.len()
        invariant
            j <= fields@.len(),
            body@ == join_lines(out),
            out == before + field_lines(fields_view(fields@)).take(j as int),
        decreases fields@.len() - j,
    {
        let fl = field_line_chars(&fields[j]);
        push_line(&mut body, &fl);
        proof {
            let ghost prev = out;
            out = out.push(fl@);
            assert(out.drop_last() =~= prev);
            assert(field_lines(fields_view(fields@))[j as int] == fl@);
            assert(out =~= before + field_lines(fields_view(fields@)).take(j + 1));
        }
        j = j + 1;
    }
    proof {
        assert(field_lines(fields_view(fields@)).take(j as int) =~= field_lines(fields_view(fields@)));
    }
    fields.clear();
    string_of(&body)
}

fn to_string_val(s: &str) -> (r: String)
    ensures
        r@ == s@,
{
    s.to_owned()
}

fn bool_string(b: bool) -> (r: String)
    ensures
        r@ == bool_text(b),
{
    if b {
        to_string_val("true")
    } else {
        to_string_val("false")
    }
}

/// Why a config write was refused.
#[derive(Debug)]
pub enum ConfigError {
    /// The key is not one the applet writes.
    NotOwnedKey(String),
}

impl ConfigError {
    /// The error's text.
    pub fn message(&self) -> (r: String)
        ensures
            match self {
                ConfigError::NotOwnedKey(k) => r@ == "not an applet-owned config key: "@ + k@,
            },
    {
        match self {
            ConfigError::NotOwnedKey(k) => {
                let mut v = chars_of("not an applet-owned config key: ");
                let kc = chars_of(k.as_str());
                append_chars(&mut v, &kc);
                string_of(&v)
            },
        }
    }
}

impl ThemeConfig {
    /// Defaults used when no on-disk config is present.
    pub fn defaults() -> (r: Self)
        ensures
            r@ == default_settings(),
    {
        ThemeConfig {
            accent_color: to_string_val("#00BFFF"),
            idle_timeout_mins: 5,
            theme_idx: 0,
            active_saver: Some(to_string_val("beams")),
            idle_enabled: true,
            show_fps_overlay: false,
            render_scale: None,
        }
    }


    /// The keys this applet may write (only fields its UI can change),
    /// each with its value as written on disk. Every other line of the
    /// file is foreign and passes through a merge untouched.
    pub fn rendered_fields(&self) -> (r: Vec<(&'static str, String)>)
        ensures
            fields_view(r@) == rendered(self@),
    {
        let timeout = string_of(&decimal_chars(self.idle_timeout_mins as u64));
        let mut saver: Vec<char> = Vec::new();
        saver.push('"');
        let name = match &self.active_saver {
            Some(s) => chars_of(s.as_str()),
            None => chars_of("none"),
        };
        append_chars(&mut saver, &name);
        saver.push('"');
        let scale = match &self.render_scale {
            Some(t) => t.clone(),
            None => to_string_val("null"),
        };
        let mut r: Vec<(&'static str, String)> = Vec::new();
        r.push(("idle_timeout_mins", timeout));
        r.push(("active_saver", string_of(&saver)));
        r.push(("idle_enabled", bool_string(self.idle_enabled)));
        r.push(("show_fps_overlay", bool_string(self.show_fps_overlay)));
        r.push(("render_scale", scale));
        let ghost fv = fields_view(r@);
        let ghost rv = rendered(self@);
        assert(fv.len() == 5);
        assert(fv[0] == rv[0]);
        assert(fv[1] == rv[1]);
        assert(fv[2] == rv[2]);
        assert(fv[3] == rv[3]);
        assert(fv[4] == rv[4]);
        assert(fv =~= rv);
        r
    }

    /// The owned field `key` with its on-disk value; `None` when the applet
    /// does not own `key`.
    pub fn field(&self, key: &str) -> (r: Option<(&'static str, String)>)
        ensures
            match r {
                Some(f) => owned_field(self@, key@) == Some((f.0@, f.1@)),
                None => owned_field(self@, key@) is None,
            },
    {
        let mut fields = self.rendered_fields();
        let k = chars_of(key);
        match field_position(&fields, &k) {
            Some(i) => {
                let f = fields.remove(i);
                Some(f)
            },
            None => None,
        }
    }

    /// The new text of a config file whose old text is `existing`, with
    /// the owned key `key` written and everything else kept; an error when
    /// the applet does not own `key`.
    pub fn save_field_text(&self, key: &str, existing: &str) -> (r: Result<String, ConfigError>)
        ensures
            match owned_field(self@, key@) {
                Some(f) => r matches Ok(t) && t@ == merged_text(existing@, seq![f]),
                None => r matches Err(ConfigError::NotOwnedKey(k)) && k@ == key@,
            },
    {
        match self.field(key) {
            None => Err(ConfigError::NotOwnedKey(to_string_val(key))),
            Some(f) => {
                let ghost fv = (f.0@, f.1@);
                let mut fields: Vec<(&'static str, String)> = Vec::new();
                fields.push(f);
                assert(fields_view(fields@) =~= seq![fv]);
                Ok(merge_preserving(existing, &mut fields))
            },
        }
    }

    fn apply_entry(config: &mut Self, key: &Vec<char>, val: &Vec<char>)
        ensures
            final(config)@ == apply_entry(old(config)@, key@, val@),
    {
        if same_text(key, "accent_color") {
            config.accent_color = string_of(val);
        } else if same_text(key, "idle_timeout_mins") {
            match parse_unsigned(val, 0xffff_ffff) {
                Some(n) => {
                    config.idle_timeout_mins = n as u32;
                },
                None => {},
            }
        } else if same_text(key, "theme_idx") {
            match parse_unsigned(val, usize::MAX as u64) {
                Some(n) => {
                    config.theme_idx = n as usize;
                },
                None => {},
            }
        } else if same_text(key, "active_saver") {
            if val.len() > 0 && !same_text(val, "none") {
                config.active_saver = Some(string_of(val));
            } else {
                config.active_saver = None;
            }
        } else if same_text(key, "idle_enabled") {
            match parse_bool_chars(val) {
                Some(b) => {
                    config.idle_enabled = b;
                },
                None => {},
            }
        } else if same_text(key, "show_fps_overlay") {
            match parse_bool_chars(val) {
                Some(b) => {
                    config.show_fps_overlay = b;
                },
                None => {},
            }
        } else if same_text(key, "render_scale") {
            if val.len() == 0 || same_ignoring_ascii_case(val, "null") {
                config.render_scale = None;
            } else if is_float_text(val) {
                config.render_scale = Some(string_of(val));
            }
        }
    }

    /// Apply a single `key: value` line (YAML-ish) onto `config`.
    ///
    /// Unknown keys and malformed values are ignored so partial or
    /// hand-edited files still load.
    pub fn apply_yaml_line(config: &mut Self, line: &str)
        ensures
            final(config)@ == apply_line(old(config)@, line@),
    {
        let l = chars_of(line);
        Self::apply_chars_line(config, &l);
    }

    fn apply_chars_line(config: &mut Self, line: &Vec<char>)
        ensures
            final(config)@ == apply_line(old(config)@, line@),
    {
        match split_yaml_line(line) {
            Some(p) => {
                Self::apply_entry(config, &p.0, &p.1);
            },
            None => {},
        }
    }

    /// Parse multi-line YAML-ish content into a [`ThemeConfig`].
    pub fn from_yaml_content(content: &str) -> (r: Self)
        ensures
            r@ == parse_content(content@),
    {
        let mut config = Self::defaults();
        let text = chars_of(content);
        let lines = split_lines(&text);
        let ghost ls = lines@.map_values(|l: Vec<char>| l@);
        let mut i: usize = 0;
        while i < lines.len()
            invariant
                i <= lines@.len(),
                ls == lines@.map_values(|l: Vec<char>| l@),
                ls == lines_of(content@),
                config@ == apply_lines(default_settings(), ls.take(i as int)),
            decreases lines@.len() - i,
        {
            Self::apply_chars_line(&mut config, &lines[i]);
            proof {
                assert(ls.take(i + 1).drop_last() =~= ls.take(i as int));
                assert(ls.take(i + 1).last() == lines@[i as int]@);
            }
            i = i + 1;
        }
        assert(ls.take(i as int) =~= ls);
        config
    }
}

} // verus!
