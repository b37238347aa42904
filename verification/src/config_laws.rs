//! What the config reader and the merge promise together: a saved field
//! reads back, and foreign lines survive a save.
use vstd::prelude::*;

use crate::config::{
    apply_entry, apply_line, apply_lines, default_settings, field_line, field_lines, field_pos,
    header_lines, is_section_header, join_lines, lemma_field_pos_at, line_key, merge_all,
    merge_step, merged_lines, merged_text, owned_field, parse_content, rendered, unquote,
    yaml_entry, MergeState, Settings,
};
use crate::text::{
    ascii_lower, eq_ignore_ascii_case, find_char, float_char, float_text, is_digit, is_ws,
    lemma_decimal_digits, lemma_decimal_reads_back, lemma_find_char, lemma_find_char_at,
    lemma_float_text_chars, lemma_strip_front_lead, lemma_strip_noop, lemma_strip_wrapped,
    lines_of, parse_bool, parse_u32, strip_cr, strip_front, trim, Class,
};

verus! {

/// No `\n` in `l`.
pub open spec fn one_line(l: Seq<char>) -> bool {
    forall|i: int| 0 <= i < l.len() ==> #[trigger] l[i] != '\n'
}

proof fn lemma_join_lines_front(ls: Seq<Seq<char>>)
    requires
        ls.len() > 0,
    ensures
        join_lines(ls) == ls[0] + seq!['\n'] + join_lines(ls.drop_first()),
    decreases ls.len(),
{
    if ls.len() == 1 {
        assert(ls.drop_last() =~= Seq::<Seq<char>>::empty());
        assert(ls.drop_first() =~= Seq::<Seq<char>>::empty());
        assert(join_lines(ls.drop_last()) =~= Seq::<char>::empty());
        assert(join_lines(ls.drop_first()) =~= Seq::<char>::empty());
        assert(ls.last() == ls[0]);
        assert(join_lines(ls) =~= ls[0] + seq!['\n'] + join_lines(ls.drop_first()));
    } else {
        let p = ls.drop_last();
        lemma_join_lines_front(p);
        assert(p.drop_first() =~= ls.drop_first().drop_last());
        assert(ls.drop_first().last() == ls.last());
        assert(join_lines(ls) =~= ls[0] + seq!['\n'] + join_lines(ls.drop_first()));
    }
}

proof fn lemma_lines_of_step(a: Seq<char>, b: Seq<char>)
    requires
        one_line(a),
    ensures
        lines_of(a + seq!['\n'] + b) == seq![strip_cr(a)] + lines_of(b),
{
    let s = a + seq!['\n'] + b;
    assert forall|j: int| 0 <= j < a.len() implies #[trigger] s[j] != '\n' by {
        assert(s[j] == a[j]);
    }
    assert(s[a.len() as int] == '\n');
    lemma_find_char_at(s, '\n', a.len() as int);
    assert(s.take(a.len() as int) =~= a);
    assert(s.skip(a.len() as int + 1) =~= b);
}

/// Reading the lines back out of `join_lines(ls)` gives `ls`, less a final
/// carriage return on each.
pub proof fn lemma_lines_of_join(ls: Seq<Seq<char>>)
    requires
        forall|i: int| 0 <= i < ls.len() ==> one_line(#[trigger] ls[i]),
    ensures
        lines_of(join_lines(ls)) == ls.map_values(|l: Seq<char>| strip_cr(l)),
    decreases ls.len(),
{
    if ls.len() == 0 {
        assert(lines_of(join_lines(ls)) =~= ls.map_values(|l: Seq<char>| strip_cr(l)));
    } else {
        lemma_join_lines_front(ls);
        let rest = ls.drop_first();
        assert forall|i: int| 0 <= i < rest.len() implies one_line(#[trigger] rest[i]) by {
            assert(rest[i] == ls[i + 1]);
        }
        lemma_lines_of_join(rest);
        assert(one_line(ls[0]));
        lemma_lines_of_step(ls[0], join_lines(rest));
        assert(lines_of(join_lines(ls)) =~= ls.map_values(|l: Seq<char>| strip_cr(l)));
    }
}

/// No line that `lines_of` yields holds a `\n`.
pub proof fn lemma_lines_of_one_line(s: Seq<char>)
    ensures
        forall|i: int| 0 <= i < lines_of(s).len() ==> one_line(#[trigger] lines_of(s)[i]),
    decreases s.len(),
{
    if s.len() > 0 {
        lemma_find_char(s, '\n');
        match find_char(s, '\n') {
            None => {},
            Some(i) => {
                lemma_lines_of_one_line(s.skip(i + 1));
                let ls = lines_of(s);
                let head = strip_cr(s.take(i));
                assert(ls == seq![head] + lines_of(s.skip(i + 1)));
                assert forall|j: int| 0 <= j < ls.len() implies one_line(#[trigger] ls[j]) by {
                    if j == 0 {
                        assert forall|m: int| 0 <= m < head.len() implies #[trigger] head[m]
                            != '\n' by {
                            assert(head[m] == s[m]);
                        }
                    } else {
                        assert(ls[j] == lines_of(s.skip(i + 1))[j - 1]);
                    }
                }
            },
        }
    }
}

pub proof fn lemma_trim_drop_ws_last(l: Seq<char>)
    requires
        l.len() > 0,
        is_ws(l.last()),
    ensures
        trim(l.drop_last()) == trim(l),
    decreases l.len(),
{
    let k = Class::Space;
    if is_ws(l[0]) {
        if l.len() == 1 {
            assert(l.drop_last() =~= Seq::<char>::empty());
            assert(l.drop_first() =~= Seq::<char>::empty());
        } else {
            lemma_trim_drop_ws_last(l.drop_first());
            assert(l.drop_last().drop_first() =~= l.drop_first().drop_last());
            assert(l.drop_first().last() == l.last());
        }
    } else {
        assert(l.len() >= 2);
        assert(l.drop_last()[0] == l[0]);
        assert(strip_front(l, k) == l);
        assert(strip_front(l.drop_last(), k) == l.drop_last());
    }
}

/// A line reads the same without a final carriage return.
pub proof fn lemma_yaml_entry_strip_cr(l: Seq<char>)
    ensures
        yaml_entry(strip_cr(l)) == yaml_entry(l),
{
    if l.len() > 0 && l.last() == '\r' {
        lemma_trim_drop_ws_last(l);
    }
}

/// Reading lines without their final carriage returns gives the same settings.
pub proof fn lemma_apply_lines_strip_cr(c: Settings, ls: Seq<Seq<char>>)
    ensures
        apply_lines(c, ls.map_values(|l: Seq<char>| strip_cr(l))) == apply_lines(c, ls),
    decreases ls.len(),
{
    if ls.len() > 0 {
        let m = ls.map_values(|l: Seq<char>| strip_cr(l));
        lemma_apply_lines_strip_cr(c, ls.drop_last());
        assert(m.drop_last() =~= ls.drop_last().map_values(|l: Seq<char>| strip_cr(l)));
        lemma_yaml_entry_strip_cr(ls.last());
        assert(m.last() == strip_cr(ls.last()));
    }
}


/// Text cut after a line break has the lines of its two parts.
pub proof fn lemma_lines_of_concat(a: Seq<char>, b: Seq<char>)
    requires
        a.len() == 0 || a.last() == '\n',
    ensures
        lines_of(a + b) == lines_of(a) + lines_of(b),
    decreases a.len(),
{
    if a.len() == 0 {
        assert(a + b =~= b);
        assert(lines_of(a) + lines_of(b) =~= lines_of(b));
    } else {
        lemma_find_char(a, '\n');
        if find_char(a, '\n') is None {
            assert(a[a.len() - 1] != '\n');
        }
        let i = find_char(a, '\n')->0;
        let s = a + b;
        assert forall|j: int| 0 <= j < i implies #[trigger] s[j] != '\n' by {
            assert(s[j] == a[j]);
        }
        assert(s[i] == a[i]);
        lemma_find_char_at(s, '\n', i);
        assert(s.take(i) =~= a.take(i));
        let rest = a.skip(i + 1);
        assert(s.skip(i + 1) =~= rest + b);
        if rest.len() > 0 {
            assert(rest.last() == a.last());
        }
        lemma_lines_of_concat(rest, b);
        assert(lines_of(s) =~= lines_of(a) + lines_of(b));
    }
}

/// Reading `l1` then `l2` is reading them one after the other.
pub proof fn lemma_apply_lines_concat(c: Settings, l1: Seq<Seq<char>>, l2: Seq<Seq<char>>)
    ensures
        apply_lines(c, l1 + l2) == apply_lines(apply_lines(c, l1), l2),
    decreases l2.len(),
{
    if l2.len() == 0 {
        assert(l1 + l2 =~= l1);
    } else {
        lemma_apply_lines_concat(c, l1, l2.drop_last());
        assert((l1 + l2).drop_last() =~= l1 + l2.drop_last());
        assert((l1 + l2).last() == l2.last());
    }
}

/// Reading a text made of `a`, empty or ended by a line break, and then
/// `b` is reading `a` and then each line of `b` in order. The empty text
/// reads as the defaults, so a text reads as the defaults followed by its
/// lines, and a later line for a key overrides an earlier one.
pub proof fn law_read_concat(a: Seq<char>, b: Seq<char>)
    requires
        a.len() == 0 || a.last() == '\n',
    ensures
        parse_content(a + b) == apply_lines(parse_content(a), lines_of(b)),
        parse_content(Seq::<char>::empty()) == default_settings(),
{
    lemma_lines_of_concat(a, b);
    lemma_apply_lines_concat(default_settings(), lines_of(a), lines_of(b));
    assert(lines_of(Seq::<char>::empty()) =~= Seq::<Seq<char>>::empty());
}


/// The keys the applet writes.
pub open spec fn owned_key(key: Seq<char>) -> bool {
    ||| key == "idle_timeout_mins"@
    ||| key == "active_saver"@
    ||| key == "idle_enabled"@
    ||| key == "show_fps_overlay"@
    ||| key == "render_scale"@
}

/// `a` and `b` hold the same value in the field that `key` names.
pub open spec fn same_field(a: Settings, b: Settings, key: Seq<char>) -> bool {
    if key == "idle_timeout_mins"@ {
        a.idle_timeout_mins == b.idle_timeout_mins
    } else if key == "active_saver"@ {
        a.active_saver == b.active_saver
    } else if key == "idle_enabled"@ {
        a.idle_enabled == b.idle_enabled
    } else if key == "show_fps_overlay"@ {
        a.show_fps_overlay == b.show_fps_overlay
    } else if key == "render_scale"@ {
        a.render_scale == b.render_scale
    } else if key == "accent_color"@ {
        a.accent_color == b.accent_color
    } else if key == "theme_idx"@ {
        a.theme_idx == b.theme_idx
    } else {
        true
    }
}

/// The keys the reader knows: the owned ones, `accent_color` and `theme_idx`.
pub open spec fn known_key(key: Seq<char>) -> bool {
    owned_key(key) || key == "accent_color"@ || key == "theme_idx"@
}

/// The field `key` of `c` has a value that reads back as written: a saver
/// name that is not empty, not `none`, on one line and not wrapped in
/// quotes; a scale that is `f32` text.
pub open spec fn writable(c: Settings, key: Seq<char>) -> bool {
    &&& key == "active_saver"@ ==> match c.active_saver {
        Some(n) => n.len() > 0 && n != "none"@ && unquote(n) == n && one_line(n),
        None => true,
    }
    &&& key == "render_scale"@ ==> match c.render_scale {
        Some(t) => float_text(t),
        None => true,
    }
}

/// The field `key` of `c` is written as one line that sets the field
/// whatever the settings before it: a saver name without a line break, a
/// scale that is `f32` text.
pub open spec fn line_safe(c: Settings, key: Seq<char>) -> bool {
    &&& key == "active_saver"@ ==> match c.active_saver {
        Some(n) => one_line(n),
        None => true,
    }
    &&& key == "render_scale"@ ==> match c.render_scale {
        Some(t) => float_text(t),
        None => true,
    }
}

/// Reading `l` sets the field `key` names to the same value whatever the
/// settings before it.
pub open spec fn decides(l: Seq<char>, key: Seq<char>) -> bool {
    forall|x: Settings, y: Settings|
        #![trigger apply_line(x, l), apply_line(y, l)]
        same_field(apply_line(x, l), apply_line(y, l), key)
}

/// The config keys are pairwise different.
pub proof fn lemma_keys_distinct()
    ensures
        "active_saver"@ != "accent_color"@,
        "active_saver"@ != "idle_enabled"@,
        "active_saver"@ != "render_scale"@,
        "idle_enabled"@ != "accent_color"@,
        "idle_enabled"@ != "render_scale"@,
        "render_scale"@ != "accent_color"@,
        "idle_timeout_mins"@.len() == 17,
        "active_saver"@.len() == 12,
        "idle_enabled"@.len() == 12,
        "show_fps_overlay"@.len() == 16,
        "render_scale"@.len() == 12,
        "accent_color"@.len() == 12,
        "theme_idx"@.len() == 9,
{
    reveal_strlit("idle_timeout_mins");
    reveal_strlit("active_saver");
    reveal_strlit("idle_enabled");
    reveal_strlit("show_fps_overlay");
    reveal_strlit("render_scale");
    reveal_strlit("accent_color");
    reveal_strlit("theme_idx");
    assert("active_saver"@[2] != "accent_color"@[2]);
    assert("active_saver"@[0] != "idle_enabled"@[0]);
    assert("active_saver"@[0] != "render_scale"@[0]);
    assert("idle_enabled"@[0] != "accent_color"@[0]);
    assert("idle_enabled"@[0] != "render_scale"@[0]);
    assert("render_scale"@[0] != "accent_color"@[0]);
}

/// A `key: value` line reads as that key and the unquoted value.
proof fn lemma_entry_of_field_line(key: Seq<char>, v: Seq<char>)
    requires
        key.len() > 0,
        v.len() > 0,
        !is_ws(key[0]),
        !is_ws(key.last()),
        key[0] != '#',
        forall|i: int| 0 <= i < key.len() ==> #[trigger] key[i] != ':',
        !is_ws(v[0]),
        !is_ws(v.last()),
    ensures
        yaml_entry(key + ": "@ + v) == Some((key, unquote(v))),
{
    reveal_strlit(": ");
    let line = key + ": "@ + v;
    let sp = Class::Space;
    assert(line[0] == key[0]);
    assert(line.last() == v.last());
    lemma_strip_noop(line, sp);
    assert(trim(line) == line);
    assert forall|j: int| 0 <= j < key.len() implies #[trigger] line[j] != ':' by {
        assert(line[j] == key[j]);
    }
    assert(line[key.len() as int] == ':');
    lemma_find_char_at(line, ':', key.len() as int);
    assert(line.take(key.len() as int) =~= key);
    lemma_strip_noop(key, sp);
    let tail = line.skip(key.len() as int + 1);
    assert(tail =~= seq![' '] + v);
    lemma_strip_front_lead(v, sp, ' ');
    lemma_strip_noop(v, sp);
}

proof fn lemma_owned_field(c: Settings, key: Seq<char>)
    requires
        owned_key(key),
    ensures
        owned_field(c, key) is Some,
        (owned_field(c, key)->0).0 == key,
{
    reveal_strlit("idle_timeout_mins");
    reveal_strlit("active_saver");
    reveal_strlit("idle_enabled");
    reveal_strlit("show_fps_overlay");
    reveal_strlit("render_scale");
    reveal_strlit("accent_color");
    reveal_strlit("theme_idx");
    let fs = rendered(c);
    if key == "idle_timeout_mins"@ {
        lemma_field_pos_at(fs, key, 0);
    } else if key == "active_saver"@ {
        lemma_field_pos_at(fs, key, 1);
    } else if key == "idle_enabled"@ {
        lemma_field_pos_at(fs, key, 2);
    } else if key == "show_fps_overlay"@ {
        lemma_field_pos_at(fs, key, 3);
    } else {
        lemma_field_pos_at(fs, key, 4);
    }
}

proof fn lemma_float_not_null(t: Seq<char>)
    requires
        float_text(t),
    ensures
        !eq_ignore_ascii_case(t, "null"@),
        t.len() > 0,
        !is_ws(t[0]),
        !is_ws(t.last()),
        t[0] != '"' && t[0] != '\'',
        t.last() != '"' && t.last() != '\'',
        one_line(t),
{
    lemma_float_text_chars(t);
    reveal_strlit("null");
    if eq_ignore_ascii_case(t, "null"@) {
        assert(float_char(t[1]));
        assert(ascii_lower(t[1]) == ascii_lower("null"@[1]));
    }
    assert(float_char(t[0]));
    assert(float_char(t.last()));
    assert forall|i: int| 0 <= i < t.len() implies #[trigger] t[i] != '\n' by {
        assert(float_char(t[i]));
    }
}

/// The written line of an owned, writable field reads back as the field:
/// it names the key, holds no line break, and sets the field to `c`'s value
/// whatever the settings before it.
pub proof fn lemma_field_line_reads_back(c: Settings, key: Seq<char>, x: Settings)
    requires
        owned_key(key),
        writable(c, key),
    ensures
        owned_field(c, key) is Some,
        (owned_field(c, key)->0).0 == key,
        one_line(field_line(owned_field(c, key)->0)),
        yaml_entry(field_line(owned_field(c, key)->0)) is Some,
        (yaml_entry(field_line(owned_field(c, key)->0))->0).0 == key,
        same_field(apply_line(x, field_line(owned_field(c, key)->0)), c, key),
{
    reveal_strlit("idle_timeout_mins");
    reveal_strlit("active_saver");
    reveal_strlit("idle_enabled");
    reveal_strlit("show_fps_overlay");
    reveal_strlit("render_scale");
    reveal_strlit("accent_color");
    reveal_strlit("theme_idx");
    reveal_strlit(": ");
    reveal_strlit("none");
    reveal_strlit("null");
    reveal_strlit("true");
    reveal_strlit("false");
    lemma_keys_distinct();
    lemma_owned_field(c, key);
    let f = owned_field(c, key)->0;
    let v = f.1;
    let line = field_line(f);
    assert(line == key + ": "@ + v);
    let q = Class::Only('"');
    let a = Class::Only('\'');
    if key == "idle_timeout_mins"@ {
        lemma_field_pos_at(rendered(c), key, 0);
        assert(f == rendered(c)[0]);
        let n = c.idle_timeout_mins as nat;
        lemma_decimal_digits(n);
        lemma_decimal_reads_back(n);
        assert(is_digit(v[0]) && is_digit(v.last()));
        lemma_strip_noop(v, q);
        lemma_strip_noop(v, a);
        lemma_entry_of_field_line(key, v);
        assert forall|i: int| 0 <= i < v.len() implies #[trigger] v[i] != '\n' by {
            assert(is_digit(v[i]));
        }
        assert(parse_u32(v) == Some(c.idle_timeout_mins));
        assert(same_field(apply_line(x, line), c, key));
    } else if key == "active_saver"@ {
        lemma_field_pos_at(rendered(c), key, 1);
        assert(f == rendered(c)[1]);
        let name = match c.active_saver {
            Some(s) => s,
            None => "none"@,
        };
        assert(v =~= seq!['"'] + name + seq!['"']);
        lemma_strip_wrapped(name, q, '"');
        assert(unquote(v) == unquote(name));
        if c.active_saver is None {
            lemma_strip_noop(name, q);
            lemma_strip_noop(name, a);
        }
        lemma_entry_of_field_line(key, v);
        assert forall|i: int| 0 <= i < v.len() implies #[trigger] v[i] != '\n' by {
            if 0 < i < v.len() - 1 {
                assert(v[i] == name[i - 1]);
            }
        }
        assert(yaml_entry(line) == Some((key, unquote(name))));
        match c.active_saver {
            Some(n) => {
                assert(unquote(name) == n);
            },
            None => {
                assert(unquote(name) == "none"@);
            },
        }
        assert(same_field(apply_line(x, line), c, key));
    } else if key == "idle_enabled"@ || key == "show_fps_overlay"@ {
        if key == "idle_enabled"@ {
            lemma_field_pos_at(rendered(c), key, 2);
        assert(f == rendered(c)[2]);
        } else {
            lemma_field_pos_at(rendered(c), key, 3);
        assert(f == rendered(c)[3]);
        }
        lemma_strip_noop(v, q);
        lemma_strip_noop(v, a);
        lemma_entry_of_field_line(key, v);
        assert(parse_bool(v) == Some(true) || parse_bool(v) == Some(false));
        assert(same_field(apply_line(x, line), c, key));
    } else {
        lemma_field_pos_at(rendered(c), key, 4);
        assert(f == rendered(c)[4]);
        match c.render_scale {
            Some(t) => {
                lemma_float_not_null(t);
            },
            None => {},
        }
        lemma_strip_noop(v, q);
        lemma_strip_noop(v, a);
        lemma_entry_of_field_line(key, v);
    }
    assert forall|i: int| 0 <= i < line.len() implies #[trigger] line[i] != '\n' by {
        if i >= key.len() + 2 {
            assert(line[i] == v[i - key.len() - 2]);
        }
    }
}


/// Lines without a key, and lines whose key the reader does not know,
/// leave the settings as they are.
pub proof fn law_unknown_lines_ignored(c: Settings, line: Seq<char>)
    requires
        line_key(line) matches Some(k) ==> !(owned_key(k) || k == "accent_color"@ || k
            == "theme_idx"@),
    ensures
        apply_line(c, line) == c,
{
}

/// A known typed key whose value does not read as its type leaves the
/// settings as they are.
pub proof fn law_unreadable_values_ignored(c: Settings, key: Seq<char>, val: Seq<char>)
    requires
        (key == "idle_timeout_mins"@ && parse_u32(val) is None) || (key == "theme_idx"@
            && crate::text::parse_usize(val) is None) || ((key == "idle_enabled"@ || key
            == "show_fps_overlay"@) && parse_bool(val) is None) || (key == "render_scale"@ && val.len()
            > 0 && !eq_ignore_ascii_case(val, "null"@) && !float_text(val)),
    ensures
        apply_entry(c, key, val) == c,
{
    reveal_strlit("idle_timeout_mins");
    reveal_strlit("active_saver");
    reveal_strlit("idle_enabled");
    reveal_strlit("show_fps_overlay");
    reveal_strlit("render_scale");
    reveal_strlit("accent_color");
    reveal_strlit("theme_idx");
    lemma_keys_distinct();
    let a = "accent_color"@;
    assert(a.len() == 12);
    if key == "idle_timeout_mins"@ {
        assert(key.len() == 17);
        assert(apply_entry(c, key, val) == c);
    } else if key == "theme_idx"@ {
        assert(key.len() == 9);
        assert(key != "idle_timeout_mins"@);
        assert(apply_entry(c, key, val) == c);
    } else if key == "idle_enabled"@ {
        assert(apply_entry(c, key, val) == c);
    } else if key == "show_fps_overlay"@ {
        assert(key.len() == 16);
        assert(apply_entry(c, key, val) == c);
    } else {
        assert(key == "render_scale"@);
        assert(apply_entry(c, key, val) == c);
    }
}

/// A line that does not carry `key` leaves the field `key` names alone.
pub proof fn lemma_other_line_keeps(a: Settings, l: Seq<char>, key: Seq<char>)
    requires
        known_key(key),
        line_key(l) != Some(key),
    ensures
        same_field(apply_line(a, l), a, key),
{
    reveal_strlit("idle_timeout_mins");
    reveal_strlit("active_saver");
    reveal_strlit("idle_enabled");
    reveal_strlit("show_fps_overlay");
    reveal_strlit("render_scale");
    reveal_strlit("accent_color");
    reveal_strlit("theme_idx");
    lemma_keys_distinct();
}

pub proof fn lemma_same_field_trans(a: Settings, b: Settings, c: Settings, key: Seq<char>)
    requires
        same_field(a, b, key),
        same_field(b, c, key),
    ensures
        same_field(a, c, key),
{
}

/// If the line at `j` is the written line of field `key` and no later line
/// carries `key`, reading `ls` leaves `c`'s value in that field.
pub proof fn lemma_last_key_line_wins(
    c0: Settings,
    ls: Seq<Seq<char>>,
    j: int,
    c: Settings,
    key: Seq<char>,
)
    requires
        owned_key(key),
        writable(c, key),
        0 <= j < ls.len(),
        owned_field(c, key) is Some,
        ls[j] == field_line(owned_field(c, key)->0),
        forall|i: int| j < i < ls.len() ==> line_key(#[trigger] ls[i]) != Some(key),
    ensures
        same_field(apply_lines(c0, ls), c, key),
    decreases ls.len(),
{
    let prev = apply_lines(c0, ls.drop_last());
    if ls.len() == j + 1 {
        lemma_field_line_reads_back(c, key, prev);
    } else {
        let p = ls.drop_last();
        assert forall|i: int| j < i < p.len() implies line_key(#[trigger] p[i]) != Some(key) by {
            assert(p[i] == ls[i]);
        }
        lemma_last_key_line_wins(c0, p, j, c, key);
        assert(line_key(ls[ls.len() - 1]) != Some(key));
        lemma_other_line_keeps(prev, ls.last(), key);
        lemma_same_field_trans(apply_lines(c0, ls), prev, c, key);
    }
}

/// No section header at or before line `j`.
pub open spec fn top_level(ls: Seq<Seq<char>>, j: int) -> bool {
    forall|m: int| 0 <= m <= j ==> !is_section_header(#[trigger] ls[m])
}

/// A top-level line that carries `key`, if the file has one, is the only
/// line that carries `key`.
pub open spec fn key_line_unique(ls: Seq<Seq<char>>, key: Seq<char>) -> bool {
    forall|i: int, j: int|
        #![trigger line_key(ls[i]), top_level(ls, j)]
        0 <= i < ls.len() && 0 <= j < ls.len() && i != j && top_level(ls, j) && line_key(ls[j])
            == Some(key) ==> line_key(ls[i]) != Some(key)
}

/// The merge of one field into the first `n` lines: either nothing was
/// replaced and the field is still pending, or the line at the returned
/// index (top-level, carrying the field's key) was replaced by the field.
proof fn lemma_merge_one(ls: Seq<Seq<char>>, f: (Seq<char>, Seq<char>), n: int) -> (j: Option<
    int,
>)
    requires
        0 <= n <= ls.len(),
    ensures
        ({
            let st = merge_all(
                MergeState { out: Seq::empty(), in_section: false, fields: seq![f] },
                ls.take(n),
            );
            &&& !st.in_section ==> forall|m: int| 0 <= m < n ==> !is_section_header(
                #[trigger] ls[m],
            )
            &&& match j {
                None => st.fields == seq![f] && st.out == ls.take(n),
                Some(j) => {
                    &&& st.fields.len() == 0
                    &&& 0 <= j < n
                    &&& top_level(ls, j)
                    &&& line_key(ls[j]) == Some(f.0)
                    &&& st.out == ls.take(n).update(j, field_line(f))
                },
            }
        }),
    decreases n,
{
    let st0 = MergeState { out: Seq::empty(), in_section: false, fields: seq![f] };
    if n == 0 {
        assert(ls.take(0) =~= Seq::<Seq<char>>::empty());
        None
    } else {
        let pj = lemma_merge_one(ls, f, n - 1);
        let prev = merge_all(st0, ls.take(n - 1));
        let l = ls[n - 1];
        assert(ls.take(n).drop_last() =~= ls.take(n - 1));
        assert(ls.take(n).last() == l);
        let st = merge_step(prev, l);
        assert(merge_all(st0, ls.take(n)) == st);
        if is_section_header(l) {
            match pj {
                None => {
                    assert(st.out =~= ls.take(n));
                },
                Some(j) => {
                    assert(st.out =~= ls.take(n).update(j, field_line(f)));
                },
            }
            pj
        } else if !prev.in_section && line_key(l) is Some && field_pos(
            prev.fields,
            line_key(l)->0,
        ) is Some {
            let k = line_key(l)->0;
            if prev.fields.len() == 0 {
                assert(field_pos(prev.fields, k) is None);
            }
            assert(pj is None);
            assert(prev.fields == seq![f]);
            crate::config::lemma_field_pos(prev.fields, k);
            assert(f.0 == k);
            assert(prev.fields.remove(0) =~= Seq::<(Seq<char>, Seq<char>)>::empty());
            assert(st.out =~= ls.take(n).update(n - 1, field_line(f)));
            assert forall|m: int| 0 <= m <= n - 1 implies !is_section_header(#[trigger] ls[m]) by {
                if m < n - 1 {
                } else {
                    assert(ls[m] == l);
                }
            }
            Some(n - 1)
        } else {
            match pj {
                None => {
                    assert(st.out =~= ls.take(n));
                },
                Some(j) => {
                    assert(st.out =~= ls.take(n).update(j, field_line(f)));
                },
            }
            assert(!st.in_section ==> forall|m: int| 0 <= m < n ==> !is_section_header(
                #[trigger] ls[m],
            )) by {
                if !st.in_section {
                    assert forall|m: int| 0 <= m < n implies !is_section_header(
                        #[trigger] ls[m],
                    ) by {
                        if m == n - 1 {
                            assert(ls[m] == l);
                        }
                    }
                }
            }
            pj
        }
    }
}

/// Saving an owned field and reading the file back gives that field the
/// saved value, unless the old file carries the key on a top-level line and
/// on another line too (then the other line can win).
pub proof fn law_saved_field_reads_back(c: Settings, existing: Seq<char>, key: Seq<char>)
    requires
        owned_key(key),
        writable(c, key),
        key_line_unique(lines_of(existing), key),
    ensures
        owned_field(c, key) is Some,
        same_field(
            parse_content(merged_text(existing, seq![owned_field(c, key)->0])),
            c,
            key,
        ),
{
    lemma_field_line_reads_back(c, key, c);
    let f = owned_field(c, key)->0;
    let fl = field_line(f);
    let ms = merged_lines(existing, seq![f]);
    reveal_strlit("# IdleScreen themes and settings");
    reveal_strlit("# dark_mode is auto-detected from system");
    let j: int;
    if trim(existing).len() == 0 {
        assert(field_lines(seq![f]) =~= seq![fl]);
        assert(ms =~= header_lines() + seq![fl]);
        j = 2;
        assert forall|i: int| 0 <= i < ms.len() implies one_line(#[trigger] ms[i]) by {
            if i == 0 {
                assert(ms[0] == "# IdleScreen themes and settings"@);
            } else if i == 1 {
                assert(ms[1] == "# dark_mode is auto-detected from system"@);
            }
        }
    } else {
        let ls = lines_of(existing);
        lemma_lines_of_one_line(existing);
        let r = lemma_merge_one(ls, f, ls.len() as int);
        assert(ls.take(ls.len() as int) =~= ls);
        let st = merge_all(
            MergeState { out: Seq::empty(), in_section: false, fields: seq![f] },
            ls,
        );
        match r {
            None => {
                assert(field_lines(seq![f]) =~= seq![fl]);
                assert(ms =~= ls + seq![fl]);
                j = ls.len() as int;
            },
            Some(jj) => {
                assert(field_lines(st.fields) =~= Seq::<Seq<char>>::empty());
                assert(ms =~= ls.update(jj, fl));
                j = jj;
                assert forall|i: int| j < i < ms.len() implies line_key(#[trigger] ms[i]) != Some(
                    key,
                ) by {
                    assert(ms[i] == ls[i]);
                }
            },
        }
        assert forall|i: int| 0 <= i < ms.len() implies one_line(#[trigger] ms[i]) by {
            if ms[i] != fl {
                assert(ms[i] == ls[i]);
            }
        }
    }
    lemma_lines_of_join(ms);
    lemma_apply_lines_strip_cr(crate::config::default_settings(), ms);
    lemma_last_key_line_wins(crate::config::default_settings(), ms, j, c, key);
}


/// Line `i` of `ls` is foreign to `fields`: a header, under a header,
/// without a key, or with a key that no field has.
pub open spec fn foreign_line(
    ls: Seq<Seq<char>>,
    i: int,
    fields: Seq<(Seq<char>, Seq<char>)>,
) -> bool {
    ||| !top_level(ls, i)
    ||| line_key(ls[i]) is None
    ||| field_pos(fields, line_key(ls[i])->0) is None
}

/// Line `i` of `out` is the written line of a field of `fs` whose key line
/// `i` of `ls` carries.
pub open spec fn replaced_at(
    ls: Seq<Seq<char>>,
    out: Seq<Seq<char>>,
    i: int,
    fs: Seq<(Seq<char>, Seq<char>)>,
) -> bool {
    exists|q: (Seq<char>, Seq<char>)| #[trigger]
        fs.contains(q) && out[i] == field_line(q) && line_key(ls[i]) == Some(q.0)
}

/// The field `q` stands in `out` in place of a top-level line of `ls` that
/// carries its key.
pub open spec fn written_in_place(
    ls: Seq<Seq<char>>,
    out: Seq<Seq<char>>,
    q: (Seq<char>, Seq<char>),
) -> bool {
    exists|j: int|
        0 <= j < out.len() && #[trigger] out[j] == field_line(q) && top_level(ls, j) && line_key(
            ls[j],
        ) == Some(q.0)
}

/// No two fields share a key.
pub open spec fn distinct_keys(fs: Seq<(Seq<char>, Seq<char>)>) -> bool {
    forall|a: int, b: int| #![trigger fs[a], fs[b]] 0 <= a < b < fs.len() ==> fs[a].0 != fs[b].0
}

/// What the merge of `fs` into the first `n` lines of `ls` has done: one
/// output line per input line, each the input line or the written line of
/// a field whose key the input line carries; every field either still
/// pending or written in place of a top-level line with its key.
pub proof fn lemma_merge_general(ls: Seq<Seq<char>>, fs: Seq<(Seq<char>, Seq<char>)>, n: int)
    requires
        0 <= n <= ls.len(),
    ensures
        ({
            let st = merge_all(
                MergeState { out: Seq::empty(), in_section: false, fields: fs },
                ls.take(n),
            );
            &&& st.out.len() == n
            &&& !st.in_section ==> forall|m: int| 0 <= m < n ==> !is_section_header(
                #[trigger] ls[m],
            )
            &&& forall|i: int|
                0 <= i < n && #[trigger] st.out[i] != ls[i] ==> !foreign_line(ls, i, fs)
                    && replaced_at(ls, st.out, i, fs)
            &&& forall|q: (Seq<char>, Seq<char>)| #[trigger]
                st.fields.contains(q) ==> fs.contains(q)
            &&& forall|q: (Seq<char>, Seq<char>)| #[trigger]
                fs.contains(q) ==> st.fields.contains(q) || written_in_place(ls, st.out, q)
            &&& distinct_keys(fs) ==> distinct_keys(st.fields)
        }),
    decreases n,
{
    let st0 = MergeState { out: Seq::empty(), in_section: false, fields: fs };
    if n == 0 {
        assert(ls.take(0) =~= Seq::<Seq<char>>::empty());
    } else {
        lemma_merge_general(ls, fs, n - 1);
        let prev = merge_all(st0, ls.take(n - 1));
        let l = ls[n - 1];
        assert(ls.take(n).drop_last() =~= ls.take(n - 1));
        assert(ls.take(n).last() == l);
        let st = merge_step(prev, l);
        assert(merge_all(st0, ls.take(n)) == st);
        let replaces = !is_section_header(l) && !prev.in_section && line_key(l) is Some
            && field_pos(prev.fields, line_key(l)->0) is Some;
        if !st.in_section || replaces {
            assert forall|m: int| 0 <= m <= n - 1 implies !is_section_header(#[trigger] ls[m]) by {
                if m == n - 1 {
                    assert(ls[m] == l);
                }
            }
        }
        if replaces {
            let k = line_key(l)->0;
            let p = field_pos(prev.fields, k)->0;
            crate::config::lemma_field_pos(prev.fields, k);
            let q = prev.fields[p];
            assert(prev.fields.contains(q));
            assert(st.out[n - 1] == field_line(q));
            assert(top_level(ls, n - 1));
            assert(line_key(ls[n - 1]) == Some(q.0));
            assert(written_in_place(ls, st.out, q));
        }
        assert forall|q: (Seq<char>, Seq<char>)| #[trigger]
            fs.contains(q) implies st.fields.contains(q) || written_in_place(ls, st.out, q) by {
            if written_in_place(ls, prev.out, q) {
                let j = choose|j: int|
                    0 <= j < prev.out.len() && #[trigger] prev.out[j] == field_line(q) && top_level(
                        ls,
                        j,
                    ) && line_key(ls[j]) == Some(q.0);
                assert(st.out[j] == prev.out[j]);
            }
            if prev.fields.contains(q) && !st.fields.contains(q) {
                let w = choose|w: int| 0 <= w < prev.fields.len() && prev.fields[w] == q;
                if replaces {
                    let p = field_pos(prev.fields, line_key(l)->0)->0;
                    crate::config::lemma_field_pos(prev.fields, line_key(l)->0);
                    if w != p {
                        let r = prev.fields.remove(p);
                        if w < p {
                            assert(r[w] == q);
                        } else {
                            assert(r[w - 1] == q);
                        }
                    }
                }
            }
        }
        assert forall|q: (Seq<char>, Seq<char>)| #[trigger]
            st.fields.contains(q) implies fs.contains(q) by {
            let w = choose|w: int| 0 <= w < st.fields.len() && st.fields[w] == q;
            if replaces {
                let p = field_pos(prev.fields, line_key(l)->0)->0;
                crate::config::lemma_field_pos(prev.fields, line_key(l)->0);
                if w < p {
                    assert(prev.fields[w] == q);
                } else {
                    assert(prev.fields[w + 1] == q);
                }
                assert(prev.fields.contains(q));
            } else {
                assert(prev.fields[w] == q);
                assert(prev.fields.contains(q));
            }
        }
        assert forall|i: int| 0 <= i < n && #[trigger] st.out[i] != ls[i] implies !foreign_line(
            ls,
            i,
            fs,
        ) && replaced_at(ls, st.out, i, fs) by {
            if i < n - 1 {
                assert(st.out[i] == prev.out[i]);
                let q = choose|q: (Seq<char>, Seq<char>)| #[trigger]
                    fs.contains(q) && prev.out[i] == field_line(q) && line_key(ls[i]) == Some(q.0);
                assert(fs.contains(q) && st.out[i] == field_line(q));
            } else {
                assert(ls[i] == l);
                let k = line_key(l)->0;
                let p = field_pos(prev.fields, k)->0;
                crate::config::lemma_field_pos(prev.fields, k);
                let q = prev.fields[p];
                assert(prev.fields.contains(q));
                assert(fs.contains(q));
                let w = choose|w: int| 0 <= w < fs.len() && fs[w] == q;
                crate::config::lemma_field_pos(fs, k);
                if field_pos(fs, k) is None {
                    assert(fs[w].0 != k);
                }
                assert(st.out[i] == field_line(q));
            }
        }
        if distinct_keys(fs) && replaces {
            let p = field_pos(prev.fields, line_key(l)->0)->0;
            crate::config::lemma_field_pos(prev.fields, line_key(l)->0);
            let r = prev.fields.remove(p);
            assert forall|a: int, b: int| 0 <= a < b < r.len() implies #[trigger] r[a].0
                != #[trigger] r[b].0 by {
                let a2 = if a < p { a } else { a + 1 };
                let b2 = if b < p { b } else { b + 1 };
                assert(r[a] == prev.fields[a2]);
                assert(r[b] == prev.fields[b2]);
            }
        }
    }
}

/// A merge keeps every foreign line of a non-blank file in its place
/// (comments, blank lines, unknown keys, section headers and everything
/// under them) and writes every field.
pub proof fn law_merge_keeps_foreign_lines(
    existing: Seq<char>,
    fields: Seq<(Seq<char>, Seq<char>)>,
)
    requires
        trim(existing).len() > 0,
    ensures
        merged_lines(existing, fields).len() >= lines_of(existing).len(),
        forall|i: int|
            0 <= i < lines_of(existing).len() && foreign_line(lines_of(existing), i, fields)
                ==> #[trigger] merged_lines(existing, fields)[i] == lines_of(existing)[i],
        forall|q: (Seq<char>, Seq<char>)| #[trigger]
            fields.contains(q) ==> merged_lines(existing, fields).contains(field_line(q)),
{
    let ls = lines_of(existing);
    lemma_merge_general(ls, fields, ls.len() as int);
    assert(ls.take(ls.len() as int) =~= ls);
    let st = merge_all(MergeState { out: Seq::empty(), in_section: false, fields: fields }, ls);
    let ms = merged_lines(existing, fields);
    assert(ms == st.out + field_lines(st.fields));
    assert forall|i: int|
        0 <= i < ls.len() && foreign_line(ls, i, fields) implies #[trigger] ms[i] == ls[i] by {
        assert(ms[i] == st.out[i]);
    }
    assert forall|q: (Seq<char>, Seq<char>)| #[trigger]
        fields.contains(q) implies ms.contains(field_line(q)) by {
        if !st.fields.contains(q) {
            let w = choose|w: int|
                0 <= w < st.out.len() && #[trigger] st.out[w] == field_line(q) && top_level(ls, w)
                    && line_key(ls[w]) == Some(q.0);
            assert(ms[w] == st.out[w]);
        } else {
            let w = choose|w: int| 0 <= w < st.fields.len() && st.fields[w] == q;
            assert(field_lines(st.fields)[w] == field_line(q));
            assert(ms[st.out.len() + w] == field_line(q));
        }
    }
}

} // verus!
