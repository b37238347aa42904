//! What a merge of several fields promises: to a later read, the written
//! fields take their new values and every other setting keeps the value the
//! old file gave it; to a second merge of the same fields, nothing is left
//! to change.
use vstd::prelude::*;

use crate::config::{
    apply_line, apply_lines, default_settings, field_line, field_lines, field_pos, header_lines,
    is_section_header, join_lines, lemma_field_pos_at, line_key, merge_all, merge_step,
    merged_lines, merged_text, owned_field, parse_content, rendered, yaml_entry, MergeState,
    Settings,
};
use crate::config_laws::{
    decides, distinct_keys, key_line_unique, known_key, line_safe, lemma_apply_lines_concat,
    lemma_apply_lines_strip_cr, lemma_field_line_reads_back, lemma_keys_distinct,
    lemma_lines_of_join, lemma_lines_of_one_line,
    lemma_merge_general, lemma_other_line_keeps, lemma_same_field_trans, lemma_trim_drop_ws_last,
    lemma_yaml_entry_strip_cr, one_line, owned_key, replaced_at, same_field, top_level, writable,
    written_in_place,
};
use crate::text::{
    blank, in_class, is_ws, lemma_blank_lines_back, lemma_find_char_at, lemma_lines_of_blank,
    lemma_strip_back_cut, lemma_strip_front_at, lemma_strip_noop, lemma_trim_empty, lines_of,
    strip_cr, trim, Class,
};

verus! {

/// Reading one line keeps two settings that agree on the field `key`
/// names in agreement there.
proof fn lemma_line_keeps_agreement(a: Settings, b: Settings, l: Seq<char>, key: Seq<char>)
    requires
        known_key(key),
        same_field(a, b, key),
    ensures
        same_field(apply_line(a, l), apply_line(b, l), key),
{
    reveal_strlit("idle_timeout_mins");
    reveal_strlit("active_saver");
    reveal_strlit("idle_enabled");
    reveal_strlit("show_fps_overlay");
    reveal_strlit("render_scale");
    reveal_strlit("accent_color");
    reveal_strlit("theme_idx");
    lemma_keys_distinct();
    if line_key(l) != Some(key) {
        lemma_other_line_keeps(a, l, key);
        lemma_other_line_keeps(b, l, key);
    }
}

/// Lines none of which carries `key` leave the field `key` names alone.
proof fn lemma_other_lines_keep(x: Settings, ls: Seq<Seq<char>>, key: Seq<char>)
    requires
        known_key(key),
        forall|i: int| 0 <= i < ls.len() ==> line_key(#[trigger] ls[i]) != Some(key),
    ensures
        same_field(apply_lines(x, ls), x, key),
    decreases ls.len(),
{
    if ls.len() > 0 {
        let p = ls.drop_last();
        assert forall|i: int| 0 <= i < p.len() implies line_key(#[trigger] p[i]) != Some(key) by {
            assert(p[i] == ls[i]);
        }
        lemma_other_lines_keep(x, p, key);
        assert(line_key(ls[ls.len() - 1]) != Some(key));
        lemma_other_line_keeps(apply_lines(x, p), ls.last(), key);
        lemma_same_field_trans(apply_lines(x, ls), apply_lines(x, p), x, key);
    }
}

/// Two runs of lines that differ only in lines that do not carry `key`
/// agree on the field `key` names.
proof fn lemma_parallel_lines(x: Settings, l1: Seq<Seq<char>>, l2: Seq<Seq<char>>, key: Seq<char>)
    requires
        known_key(key),
        l1.len() == l2.len(),
        forall|i: int|
            0 <= i < l1.len() ==> #[trigger] l1[i] == l2[i] || (line_key(l1[i]) != Some(key)
                && line_key(l2[i]) != Some(key)),
    ensures
        same_field(apply_lines(x, l1), apply_lines(x, l2), key),
    decreases l1.len(),
{
    if l1.len() > 0 {
        let p1 = l1.drop_last();
        let p2 = l2.drop_last();
        assert forall|i: int| 0 <= i < p1.len() implies #[trigger] p1[i] == p2[i] || (line_key(
            p1[i],
        ) != Some(key) && line_key(p2[i]) != Some(key)) by {
            assert(p1[i] == l1[i]);
            assert(p2[i] == l2[i]);
        }
        lemma_parallel_lines(x, p1, p2, key);
        let a = apply_lines(x, p1);
        let b = apply_lines(x, p2);
        let k = l1.len() - 1;
        assert(l1[k] == l2[k] || (line_key(l1[k]) != Some(key) && line_key(l2[k]) != Some(key)));
        if l1.last() == l2.last() {
            lemma_line_keeps_agreement(a, b, l1.last(), key);
        } else {
            lemma_other_line_keeps(a, l1.last(), key);
            lemma_other_line_keeps(b, l2.last(), key);
        }
    }
}

/// Settings that agree on every known field are equal.
proof fn lemma_agree_everywhere(a: Settings, b: Settings)
    requires
        forall|k: Seq<char>| known_key(k) ==> #[trigger] same_field(a, b, k),
    ensures
        a == b,
{
    reveal_strlit("idle_timeout_mins");
    reveal_strlit("active_saver");
    reveal_strlit("idle_enabled");
    reveal_strlit("show_fps_overlay");
    reveal_strlit("render_scale");
    reveal_strlit("accent_color");
    reveal_strlit("theme_idx");
    lemma_keys_distinct();
    assert(same_field(a, b, "idle_timeout_mins"@));
    assert(same_field(a, b, "active_saver"@));
    assert(same_field(a, b, "idle_enabled"@));
    assert(same_field(a, b, "show_fps_overlay"@));
    assert(same_field(a, b, "render_scale"@));
    assert(same_field(a, b, "accent_color"@));
    assert(same_field(a, b, "theme_idx"@));
    assert(a.idle_timeout_mins == b.idle_timeout_mins);
    assert(a.active_saver == b.active_saver);
    assert(a.idle_enabled == b.idle_enabled);
    assert(a.show_fps_overlay == b.show_fps_overlay);
    assert(a.render_scale == b.render_scale);
    assert(a.accent_color == b.accent_color);
    assert(a.theme_idx == b.theme_idx);
}

/// Lines without a key leave the settings as they are.
proof fn lemma_keyless_lines(x: Settings, ls: Seq<Seq<char>>)
    requires
        forall|i: int| 0 <= i < ls.len() ==> yaml_entry(#[trigger] ls[i]) is None,
    ensures
        apply_lines(x, ls) == x,
    decreases ls.len(),
{
    if ls.len() > 0 {
        let p = ls.drop_last();
        assert forall|i: int| 0 <= i < p.len() implies yaml_entry(#[trigger] p[i]) is None by {
            assert(p[i] == ls[i]);
        }
        lemma_keyless_lines(x, p);
        assert(yaml_entry(ls[ls.len() - 1]) is None);
    }
}

/// Blank text reads as the defaults.
proof fn lemma_blank_reads_default(existing: Seq<char>)
    requires
        trim(existing).len() == 0,
    ensures
        parse_content(existing) == default_settings(),
{
    lemma_trim_empty(existing);
    lemma_lines_of_blank(existing);
    let ls = lines_of(existing);
    assert forall|i: int| 0 <= i < ls.len() implies yaml_entry(#[trigger] ls[i]) is None by {
        let l = ls[i];
        assert(blank(l));
        lemma_strip_front_at(l, Class::Space, l.len() as int);
        assert(l.skip(l.len() as int) =~= Seq::<char>::empty());
    }
    lemma_keyless_lines(default_settings(), ls);
}

/// The two comment lines that open a new file hold no key and no line break.
proof fn lemma_header_lines()
    ensures
        forall|i: int| 0 <= i < header_lines().len() ==> yaml_entry(#[trigger] header_lines()[i]) is None,
        forall|i: int| 0 <= i < header_lines().len() ==> one_line(#[trigger] header_lines()[i]),
        forall|i: int|
            0 <= i < header_lines().len() ==> !is_section_header(#[trigger] header_lines()[i])
                && strip_cr(header_lines()[i]) == header_lines()[i],
        header_lines().len() == 2,
        !is_ws(header_lines()[0][0]),
{
    reveal_strlit("# IdleScreen themes and settings");
    reveal_strlit("# dark_mode is auto-detected from system");
    let h = header_lines();
    assert forall|i: int| 0 <= i < h.len() implies yaml_entry(#[trigger] h[i]) is None
        && one_line(h[i]) && !is_section_header(h[i]) && strip_cr(h[i]) == h[i] by {
        let l = h[i];
        lemma_strip_noop(l, Class::Space);
    }
}

/// The written line of the owned field `key` of `c` is one line that
/// carries `key` and sets the field whatever came before it.
proof fn lemma_field_line_decides(c: Settings, key: Seq<char>)
    requires
        owned_key(key),
        line_safe(c, key),
    ensures
        owned_field(c, key) is Some,
        (owned_field(c, key)->0).0 == key,
        one_line(field_line(owned_field(c, key)->0)),
        line_key(field_line(owned_field(c, key)->0)) == Some(key),
        decides(field_line(owned_field(c, key)->0), key),
{
    reveal_strlit("idle_timeout_mins");
    reveal_strlit("active_saver");
    reveal_strlit("idle_enabled");
    reveal_strlit("show_fps_overlay");
    reveal_strlit("render_scale");
    reveal_strlit("accent_color");
    reveal_strlit("theme_idx");
    reveal_strlit("none");
    lemma_keys_distinct();
    if key == "active_saver"@ {
        lemma_field_pos_at(rendered(c), key, 1);
        let f = owned_field(c, key)->0;
        assert(f == rendered(c)[1]);
        let name = match c.active_saver {
            Some(s) => s,
            None => "none"@,
        };
        assert(f.1 =~= seq!['"'] + name + seq!['"']);
        assert forall|i: int| 0 <= i < f.1.len() implies #[trigger] f.1[i] != '\n' by {
            if 0 < i < f.1.len() - 1 {
                assert(f.1[i] == name[i - 1]);
            }
        }
        assert(plain_field(f));
        lemma_plain_field_line(f);
        let fl = field_line(f);
        assert forall|x: Settings, y: Settings| #![trigger apply_line(x, fl), apply_line(y, fl)]
            same_field(apply_line(x, fl), apply_line(y, fl), key) by {}
    } else {
        assert(writable(c, key));
        lemma_field_line_reads_back(c, key, c);
        let fl = field_line(owned_field(c, key)->0);
        assert forall|x: Settings, y: Settings| #![trigger apply_line(x, fl), apply_line(y, fl)]
            same_field(apply_line(x, fl), apply_line(y, fl), key) by {
            lemma_field_line_reads_back(c, key, x);
            lemma_field_line_reads_back(c, key, y);
            lemma_same_field_sym(apply_line(y, fl), c, key);
            lemma_same_field_trans(apply_line(x, fl), c, apply_line(y, fl), key);
        }
    }
}

/// Agreement on a field is symmetric.
proof fn lemma_same_field_sym(a: Settings, b: Settings, key: Seq<char>)
    requires
        same_field(a, b, key),
    ensures
        same_field(b, a, key),
{
}

/// If line `j` decides the field `key` names and no later line carries
/// `key`, reading `ls` leaves in that field what line `j` sets.
proof fn lemma_last_line_decides(
    c0: Settings,
    ls: Seq<Seq<char>>,
    j: int,
    key: Seq<char>,
    y: Settings,
)
    requires
        known_key(key),
        0 <= j < ls.len(),
        decides(ls[j], key),
        forall|i: int| j < i < ls.len() ==> line_key(#[trigger] ls[i]) != Some(key),
    ensures
        same_field(apply_lines(c0, ls), apply_line(y, ls[j]), key),
    decreases ls.len(),
{
    let p = ls.drop_last();
    let prev = apply_lines(c0, p);
    if ls.len() == j + 1 {
        assert(ls.last() == ls[j]);
        assert(same_field(apply_line(prev, ls[j]), apply_line(y, ls[j]), key));
    } else {
        assert(p[j] == ls[j]);
        assert forall|i: int| j < i < p.len() implies line_key(#[trigger] p[i]) != Some(key) by {
            assert(p[i] == ls[i]);
        }
        lemma_last_line_decides(c0, p, j, key, y);
        assert(line_key(ls[ls.len() - 1]) != Some(key));
        lemma_other_line_keeps(prev, ls.last(), key);
        lemma_same_field_trans(apply_lines(c0, ls), prev, apply_line(y, ls[j]), key);
    }
}

/// What the written line of each field of `fields` is, when the fields are
/// owned fields of `c` whose lines are safe.
proof fn lemma_fields_of(c: Settings, fields: Seq<(Seq<char>, Seq<char>)>)
    requires
        forall|i: int|
            0 <= i < fields.len() ==> owned_key((#[trigger] fields[i]).0) && owned_field(
                c,
                fields[i].0,
            ) == Some(fields[i]) && line_safe(c, fields[i].0),
    ensures
        forall|q: (Seq<char>, Seq<char>)| #[trigger]
            fields.contains(q) ==> owned_key(q.0) && owned_field(c, q.0) == Some(q) && one_line(
                field_line(q),
            ) && line_key(field_line(q)) == Some(q.0) && decides(field_line(q), q.0),
{
    assert forall|q: (Seq<char>, Seq<char>)| #[trigger] fields.contains(q) implies owned_key(q.0)
        && owned_field(c, q.0) == Some(q) && one_line(field_line(q)) && line_key(field_line(q))
        == Some(q.0) && decides(field_line(q), q.0) by {
        let w = choose|w: int| 0 <= w < fields.len() && fields[w] == q;
        assert(owned_key(fields[w].0));
        lemma_field_line_decides(c, q.0);
    }
}

/// Reading the text of `ms` is reading `ms`, when no line holds a break.
proof fn lemma_read_joined(ms: Seq<Seq<char>>)
    requires
        forall|i: int| 0 <= i < ms.len() ==> one_line(#[trigger] ms[i]),
    ensures
        parse_content(join_lines(ms)) == apply_lines(default_settings(), ms),
{
    lemma_lines_of_join(ms);
    lemma_apply_lines_strip_cr(default_settings(), ms);
}

/// In the merge of `fields` into a non-blank file, the field `fields[p]`
/// is the last written line that carries its key.
proof fn lemma_written_field_last(
    c: Settings,
    existing: Seq<char>,
    fields: Seq<(Seq<char>, Seq<char>)>,
    p: int,
)
    requires
        trim(existing).len() > 0,
        0 <= p < fields.len(),
        forall|i: int|
            0 <= i < fields.len() ==> owned_key((#[trigger] fields[i]).0) && owned_field(
                c,
                fields[i].0,
            ) == Some(fields[i]) && line_safe(c, fields[i].0),
        distinct_keys(fields),
        key_line_unique(lines_of(existing), fields[p].0),
    ensures
        same_field(
            apply_lines(default_settings(), merged_lines(existing, fields)),
            apply_line(default_settings(), field_line(fields[p])),
            fields[p].0,
        ),
{
    let key = fields[p].0;
    let f = fields[p];
    lemma_fields_of(c, fields);
    assert(fields.contains(f));
    let ls = lines_of(existing);
    lemma_merge_general(ls, fields, ls.len() as int);
    assert(ls.take(ls.len() as int) =~= ls);
    let st = merge_all(MergeState { out: Seq::empty(), in_section: false, fields: fields }, ls);
    let ms = merged_lines(existing, fields);
    let fl = field_lines(st.fields);
    assert(ms == st.out + fl);
    let n = st.out.len();
    let j: int;
    if st.fields.contains(f) {
        let w = choose|w: int| 0 <= w < st.fields.len() && st.fields[w] == f;
        j = n + w;
        assert(ms[j] == field_line(f));
        assert forall|i: int| j < i < ms.len() implies line_key(#[trigger] ms[i]) != Some(key) by {
            let q = st.fields[i - n];
            assert(ms[i] == field_line(q));
            assert(st.fields.contains(q));
            assert(q.0 != key);
        }
    } else {
        assert(written_in_place(ls, st.out, f));
        let jj = choose|jj: int|
            0 <= jj < st.out.len() && #[trigger] st.out[jj] == field_line(f) && top_level(ls, jj)
                && line_key(ls[jj]) == Some(f.0);
        j = jj;
        assert(ms[j] == field_line(f));
        assert forall|i: int| j < i < ms.len() implies line_key(#[trigger] ms[i]) != Some(key) by {
            if i < n {
                assert(ms[i] == st.out[i]);
                assert(line_key(ls[i]) != Some(key));
                if st.out[i] != ls[i] {
                    assert(replaced_at(ls, st.out, i, fields));
                    let q = choose|q: (Seq<char>, Seq<char>)| #[trigger]
                        fields.contains(q) && st.out[i] == field_line(q) && line_key(ls[i]) == Some(
                            q.0,
                        );
                    assert(q.0 != key);
                }
            } else {
                let q = st.fields[i - n];
                assert(ms[i] == field_line(q));
                assert(st.fields.contains(q));
                assert(fields.contains(q));
                let w = choose|w: int| 0 <= w < fields.len() && fields[w] == q;
                if q.0 == key {
                    assert(w == p);
                }
            }
        }
    }
    lemma_last_line_decides(default_settings(), ms, j, key, default_settings());
}

/// In the merge of `fields` into a non-blank file, a known key that no
/// field has keeps the value the old file gave it.
proof fn lemma_unwritten_key_kept(
    c: Settings,
    existing: Seq<char>,
    fields: Seq<(Seq<char>, Seq<char>)>,
    key: Seq<char>,
)
    requires
        trim(existing).len() > 0,
        known_key(key),
        forall|i: int| 0 <= i < fields.len() ==> (#[trigger] fields[i]).0 != key,
        forall|i: int|
            0 <= i < fields.len() ==> owned_key((#[trigger] fields[i]).0) && owned_field(
                c,
                fields[i].0,
            ) == Some(fields[i]) && line_safe(c, fields[i].0),
    ensures
        same_field(
            apply_lines(default_settings(), merged_lines(existing, fields)),
            parse_content(existing),
            key,
        ),
{
    let d = default_settings();
    lemma_fields_of(c, fields);
    let ls = lines_of(existing);
    lemma_merge_general(ls, fields, ls.len() as int);
    assert(ls.take(ls.len() as int) =~= ls);
    let st = merge_all(MergeState { out: Seq::empty(), in_section: false, fields: fields }, ls);
    let ms = merged_lines(existing, fields);
    let fl = field_lines(st.fields);
    assert(ms == st.out + fl);
    lemma_apply_lines_concat(d, st.out, fl);
    assert forall|i: int| 0 <= i < fl.len() implies line_key(#[trigger] fl[i]) != Some(key) by {
        let q = st.fields[i];
        assert(st.fields.contains(q));
        let w = choose|w: int| 0 <= w < fields.len() && fields[w] == q;
        assert(fields[w].0 != key);
    }
    lemma_other_lines_keep(apply_lines(d, st.out), fl, key);
    assert forall|i: int| 0 <= i < st.out.len() implies #[trigger] st.out[i] == ls[i] || (line_key(
        st.out[i],
    ) != Some(key) && line_key(ls[i]) != Some(key)) by {
        if st.out[i] != ls[i] {
            assert(replaced_at(ls, st.out, i, fields));
            let q = choose|q: (Seq<char>, Seq<char>)| #[trigger]
                fields.contains(q) && st.out[i] == field_line(q) && line_key(ls[i]) == Some(q.0);
            let w = choose|w: int| 0 <= w < fields.len() && fields[w] == q;
            assert(fields[w].0 != key);
        }
    }
    lemma_parallel_lines(d, st.out, ls, key);
    lemma_same_field_trans(apply_lines(d, ms), apply_lines(d, st.out), parse_content(existing), key);
}

/// Merging owned fields of `c` (distinct keys; a saver name without a line
/// break, a scale that is `f32` text) into a file and reading the result
/// gives what reading the old file and then the written lines gives: each
/// written field takes the value its line sets and every other setting
/// keeps the value the old file gave it. Each key is carried, if by a
/// top-level line of the old file, by no other line of it.
pub proof fn law_merge_then_read(
    c: Settings,
    existing: Seq<char>,
    fields: Seq<(Seq<char>, Seq<char>)>,
)
    requires
        forall|i: int|
            0 <= i < fields.len() ==> owned_key((#[trigger] fields[i]).0) && owned_field(
                c,
                fields[i].0,
            ) == Some(fields[i]) && line_safe(c, fields[i].0),
        distinct_keys(fields),
        forall|i: int|
            0 <= i < fields.len() ==> key_line_unique(lines_of(existing), (#[trigger] fields[i]).0),
    ensures
        parse_content(merged_text(existing, fields)) == apply_lines(
            parse_content(existing),
            field_lines(fields),
        ),
{
    let d = default_settings();
    let ms = merged_lines(existing, fields);
    let fl = field_lines(fields);
    let target = apply_lines(parse_content(existing), fl);
    lemma_fields_of(c, fields);
    assert forall|i: int| 0 <= i < fl.len() implies one_line(#[trigger] fl[i]) && line_key(fl[i])
        == Some(fields[i].0) by {
        assert(fields.contains(fields[i]));
    }
    if trim(existing).len() == 0 {
        lemma_header_lines();
        let h = header_lines();
        assert(ms == h + fl);
        assert forall|i: int| 0 <= i < ms.len() implies one_line(#[trigger] ms[i]) by {
            if i < h.len() {
                assert(ms[i] == h[i]);
            } else {
                assert(ms[i] == fl[i - h.len()]);
            }
        }
        lemma_read_joined(ms);
        lemma_apply_lines_concat(d, h, fl);
        lemma_keyless_lines(d, h);
        lemma_blank_reads_default(existing);
    } else {
        let ls = lines_of(existing);
        lemma_merge_general(ls, fields, ls.len() as int);
        assert(ls.take(ls.len() as int) =~= ls);
        let st = merge_all(MergeState { out: Seq::empty(), in_section: false, fields: fields }, ls);
        assert(ms == st.out + field_lines(st.fields));
        lemma_lines_of_one_line(existing);
        assert forall|i: int| 0 <= i < ms.len() implies one_line(#[trigger] ms[i]) by {
            if i < st.out.len() {
                assert(ms[i] == st.out[i]);
                if st.out[i] != ls[i] {
                    assert(replaced_at(ls, st.out, i, fields));
                    let q = choose|q: (Seq<char>, Seq<char>)| #[trigger]
                        fields.contains(q) && st.out[i] == field_line(q) && line_key(ls[i])
                            == Some(q.0);
                }
            } else {
                let q = st.fields[i - st.out.len()];
                assert(st.fields.contains(q));
                assert(ms[i] == field_line(q));
            }
        }
        lemma_read_joined(ms);
        let merged = apply_lines(d, ms);
        assert forall|k: Seq<char>| known_key(k) implies #[trigger] same_field(merged, target, k) by {
            if exists|p: int| 0 <= p < fields.len() && fields[p].0 == k {
                let p = choose|p: int| 0 <= p < fields.len() && fields[p].0 == k;
                assert(key_line_unique(lines_of(existing), fields[p].0));
                lemma_written_field_last(c, existing, fields, p);
                assert forall|i: int| p < i < fl.len() implies line_key(#[trigger] fl[i]) != Some(
                    k,
                ) by {
                    assert(fields[p].0 != fields[i].0);
                }
                assert(fields.contains(fields[p]));
                lemma_last_line_decides(parse_content(existing), fl, p, k, d);
                lemma_same_field_sym(target, apply_line(d, fl[p]), k);
                lemma_same_field_trans(merged, apply_line(d, fl[p]), target, k);
            } else {
                lemma_unwritten_key_kept(c, existing, fields, k);
                assert forall|i: int| 0 <= i < fl.len() implies line_key(#[trigger] fl[i]) != Some(
                    k,
                ) by {
                    assert(fields[i].0 != k);
                }
                lemma_other_lines_keep(parse_content(existing), fl, k);
            }
        }
        lemma_agree_everywhere(merged, target);
    }
}

/// A field whose written line reads back with its own key: the key is not
/// empty, has no white space at either end, no `:` and no line break, and
/// starts with neither `#` nor `[`; the value holds no line break.
pub open spec fn plain_field(q: (Seq<char>, Seq<char>)) -> bool {
    &&& q.0.len() > 0
    &&& !is_ws(q.0[0]) && !is_ws(q.0.last())
    &&& q.0[0] != '#' && q.0[0] != '['
    &&& forall|i: int| 0 <= i < q.0.len() ==> #[trigger] q.0[i] != ':' && q.0[i] != '\n'
    &&& forall|i: int| 0 <= i < q.1.len() ==> #[trigger] q.1[i] != '\n'
}

/// A merge that has not started: nothing written, no section, `fs` pending.
pub open spec fn merge_start(fs: Seq<(Seq<char>, Seq<char>)>) -> MergeState {
    MergeState { out: Seq::empty(), in_section: false, fields: fs }
}

/// A line reads the same, and is a header or not the same, without a
/// final carriage return.
proof fn lemma_strip_cr_same_reading(l: Seq<char>)
    ensures
        line_key(strip_cr(l)) == line_key(l),
        is_section_header(strip_cr(l)) == is_section_header(l),
{
    lemma_yaml_entry_strip_cr(l);
    if l.len() > 0 && l.last() == '\r' {
        lemma_trim_drop_ws_last(l);
    }
}

/// The written line of a plain field: one line, not a header, carrying the
/// field's key, also without a final carriage return.
proof fn lemma_plain_field_line(q: (Seq<char>, Seq<char>))
    requires
        plain_field(q),
    ensures
        one_line(field_line(q)),
        line_key(field_line(q)) == Some(q.0),
        !is_section_header(field_line(q)),
        line_key(strip_cr(field_line(q))) == Some(q.0),
        !is_section_header(strip_cr(field_line(q))),
        !blank(strip_cr(field_line(q))),
{
    reveal_strlit(": ");
    let k = q.0;
    let v = q.1;
    let line = field_line(q);
    let sp = Class::Space;
    assert(line == k + ": "@ + v);
    assert(line[0] == k[0]);
    assert(line[k.len() as int] == ':');
    lemma_strip_front_at(line, sp, 0);
    assert(line.skip(0) =~= line);
    let e = lemma_strip_back_cut(line, sp);
    if e <= k.len() {
        assert(in_class(sp, line[k.len() as int]));
    }
    let t = trim(line);
    assert(t == line.take(e));
    assert(t[0] == k[0]);
    assert forall|j: int| 0 <= j < k.len() implies #[trigger] t[j] != ':' by {
        assert(t[j] == k[j]);
    }
    assert(t[k.len() as int] == ':');
    lemma_find_char_at(t, ':', k.len() as int);
    assert(t.take(k.len() as int) =~= k);
    lemma_strip_noop(k, sp);
    assert forall|i: int| 0 <= i < line.len() implies #[trigger] line[i] != '\n' by {
        if i < k.len() {
            assert(line[i] == k[i]);
        } else if i >= k.len() + 2 {
            assert(line[i] == v[i - k.len() - 2]);
        }
    }
    lemma_strip_cr_same_reading(line);
    assert(strip_cr(line)[0] == k[0]);
}

/// Merging after `a` and then `b` is merging after `a + b`.
proof fn lemma_merge_all_concat(st: MergeState, a: Seq<Seq<char>>, b: Seq<Seq<char>>)
    ensures
        merge_all(st, a + b) == merge_all(merge_all(st, a), b),
    decreases b.len(),
{
    if b.len() == 0 {
        assert(a + b =~= a);
    } else {
        lemma_merge_all_concat(st, a, b.drop_last());
        assert((a + b).drop_last() =~= a + b.drop_last());
        assert((a + b).last() == b.last());
    }
}

/// A merge writes one line per line read, and what it wrote after a prefix
/// of the lines stays the start of what it writes after all of them.
proof fn lemma_merge_out_prefix(st: MergeState, ls: Seq<Seq<char>>, n: int)
    requires
        0 <= n <= ls.len(),
    ensures
        merge_all(st, ls).out.len() == st.out.len() + ls.len(),
        merge_all(st, ls.take(n)).out == merge_all(st, ls).out.take(st.out.len() + n),
    decreases ls.len(),
{
    if ls.len() == 0 {
        assert(ls.take(n) =~= ls);
        assert(st.out.take(st.out.len() as int) =~= st.out);
    } else {
        let p = ls.drop_last();
        let m = if n == ls.len() { n - 1 } else { n };
        lemma_merge_out_prefix(st, p, m);
        let all = merge_all(st, ls).out;
        if n == ls.len() {
            assert(ls.take(n) =~= ls);
            assert(all.take(st.out.len() + n) =~= all);
        } else {
            assert(ls.take(n) =~= p.take(n));
            assert(all.take(st.out.len() + n) =~= merge_all(st, p).out.take(st.out.len() + n));
        }
    }
}

/// Merging plain fields `rs` into their own written lines, read back with
/// or without final carriage returns, writes each line again and leaves no
/// field pending.
proof fn lemma_refeed(out: Seq<Seq<char>>, rs: Seq<(Seq<char>, Seq<char>)>, n: int)
    requires
        0 <= n <= rs.len(),
        forall|i: int| 0 <= i < rs.len() ==> plain_field(#[trigger] rs[i]),
    ensures
        merge_all(
            MergeState { out: out, in_section: false, fields: rs },
            field_lines(rs).map_values(|l: Seq<char>| strip_cr(l)).take(n),
        ) == (MergeState {
            out: out + field_lines(rs).take(n),
            in_section: false,
            fields: rs.skip(n),
        }),
    decreases n,
{
    let st = MergeState { out: out, in_section: false, fields: rs };
    let l2 = field_lines(rs).map_values(|l: Seq<char>| strip_cr(l));
    if n == 0 {
        assert(l2.take(0) =~= Seq::<Seq<char>>::empty());
        assert(out + field_lines(rs).take(0) =~= out);
        assert(rs.skip(0) =~= rs);
    } else {
        lemma_refeed(out, rs, n - 1);
        let q = rs[n - 1];
        lemma_plain_field_line(q);
        assert(l2.take(n).drop_last() =~= l2.take(n - 1));
        assert(l2.take(n).last() == strip_cr(field_line(q)));
        let pend = rs.skip(n - 1);
        assert(pend[0] == q);
        lemma_field_pos_at(pend, q.0, 0);
        assert(pend.remove(0) =~= rs.skip(n));
        assert((out + field_lines(rs).take(n - 1)).push(field_line(q)) =~= out + field_lines(
            rs,
        ).take(n));
    }
}

/// A second merge of the same fields, over the lines the first merge wrote
/// in place of the file's lines, decides each line as the first did.
proof fn lemma_second_pass(ls: Seq<Seq<char>>, fs: Seq<(Seq<char>, Seq<char>)>, n: int)
    requires
        0 <= n <= ls.len(),
        forall|i: int| 0 <= i < fs.len() ==> plain_field(#[trigger] fs[i]),
        forall|i: int|
            0 <= i < ls.len() && #[trigger] merge_all(merge_start(fs), ls).out[i] == ls[i]
                ==> strip_cr(ls[i]) == ls[i],
    ensures
        merge_all(
            merge_start(fs),
            merge_all(merge_start(fs), ls).out.map_values(|l: Seq<char>| strip_cr(l)).take(n),
        ) == merge_all(merge_start(fs), ls.take(n)),
        (forall|i: int| 0 <= i < ls.len() ==> !is_section_header(#[trigger] ls[i])) ==> !merge_all(
            merge_start(fs),
            ls.take(n),
        ).in_section,
    decreases n,
{
    let st0 = merge_start(fs);
    let out1 = merge_all(st0, ls).out;
    let l2 = out1.map_values(|l: Seq<char>| strip_cr(l));
    lemma_merge_out_prefix(st0, ls, n);
    if n == 0 {
        assert(l2.take(0) =~= Seq::<Seq<char>>::empty());
        assert(ls.take(0) =~= Seq::<Seq<char>>::empty());
    } else {
        lemma_second_pass(ls, fs, n - 1);
        lemma_merge_general(ls, fs, n - 1);
        let prev = merge_all(st0, ls.take(n - 1));
        let l = ls[n - 1];
        let o = out1[n - 1];
        assert(l2.take(n).drop_last() =~= l2.take(n - 1));
        assert(l2.take(n).last() == strip_cr(o));
        assert(ls.take(n).drop_last() =~= ls.take(n - 1));
        assert(ls.take(n).last() == l);
        let s1 = merge_step(prev, l);
        assert(merge_all(st0, ls.take(n)) == s1);
        assert(s1.out[n - 1] == o);
        lemma_strip_cr_same_reading(l);
        if !is_section_header(l) && !prev.in_section && line_key(l) is Some && field_pos(
            prev.fields,
            line_key(l)->0,
        ) is Some {
            let key = line_key(l)->0;
            let p = field_pos(prev.fields, key)->0;
            crate::config::lemma_field_pos(prev.fields, key);
            let q = prev.fields[p];
            assert(prev.fields.contains(q));
            let w = choose|w: int| 0 <= w < fs.len() && fs[w] == q;
            assert(plain_field(fs[w]));
            lemma_plain_field_line(q);
            assert(o == field_line(q));
        } else {
            assert(o == l);
        }
    }
}

/// No line that the merge of plain fields writes holds a line break.
proof fn lemma_merged_one_line(existing: Seq<char>, fields: Seq<(Seq<char>, Seq<char>)>)
    requires
        forall|i: int| 0 <= i < fields.len() ==> plain_field(#[trigger] fields[i]),
    ensures
        forall|i: int|
            0 <= i < merged_lines(existing, fields).len() ==> one_line(
                #[trigger] merged_lines(existing, fields)[i],
            ),
{
    let ms = merged_lines(existing, fields);
    assert forall|q: (Seq<char>, Seq<char>)| #[trigger] fields.contains(q) implies plain_field(
        q,
    ) by {
        let w = choose|w: int| 0 <= w < fields.len() && fields[w] == q;
        assert(plain_field(fields[w]));
    }
    if trim(existing).len() == 0 {
        lemma_header_lines();
        let h = header_lines();
        assert forall|i: int| 0 <= i < ms.len() implies one_line(#[trigger] ms[i]) by {
            if i < h.len() {
                assert(ms[i] == h[i]);
            } else {
                let q = fields[i - h.len()];
                assert(fields.contains(q));
                lemma_plain_field_line(q);
            }
        }
    } else {
        let ls = lines_of(existing);
        lemma_merge_general(ls, fields, ls.len() as int);
        assert(ls.take(ls.len() as int) =~= ls);
        let st = merge_all(merge_start(fields), ls);
        lemma_lines_of_one_line(existing);
        assert forall|i: int| 0 <= i < ms.len() implies one_line(#[trigger] ms[i]) by {
            if i < st.out.len() {
                if st.out[i] != ls[i] {
                    assert(replaced_at(ls, st.out, i, fields));
                    let q = choose|q: (Seq<char>, Seq<char>)| #[trigger]
                        fields.contains(q) && st.out[i] == field_line(q) && line_key(ls[i])
                            == Some(q.0);
                    lemma_plain_field_line(q);
                }
            } else {
                let q = st.fields[i - st.out.len()];
                assert(st.fields.contains(q));
                lemma_plain_field_line(q);
            }
        }
    }
}

/// Saving the same fields a second time changes nothing: merging plain
/// fields into a file, and then merging them again into the result, gives
/// the first result. The file has no section header, or the first merge
/// writes every field in place (else fields appended after a section are
/// read as part of it). Each line of the file that the first merge writes
/// back unchanged must not end in a carriage return (a second read would
/// drop it).
pub proof fn law_merge_idempotent(existing: Seq<char>, fields: Seq<(Seq<char>, Seq<char>)>)
    requires
        forall|i: int| 0 <= i < fields.len() ==> plain_field(#[trigger] fields[i]),
        (forall|i: int|
            0 <= i < lines_of(existing).len() ==> !is_section_header(
                #[trigger] lines_of(existing)[i],
            )) || merged_lines(existing, fields).len() == lines_of(existing).len(),
        forall|i: int|
            0 <= i < lines_of(existing).len() && #[trigger] merged_lines(existing, fields)[i]
                == lines_of(existing)[i] ==> strip_cr(lines_of(existing)[i]) == lines_of(
                existing,
            )[i],
    ensures
        merged_text(merged_text(existing, fields), fields) == merged_text(existing, fields),
{
    let m1 = merged_lines(existing, fields);
    let t1 = join_lines(m1);
    lemma_merged_one_line(existing, fields);
    lemma_lines_of_join(m1);
    let r1 = m1.map_values(|l: Seq<char>| strip_cr(l));
    assert(lines_of(t1) == r1);
    let st0 = merge_start(fields);
    if trim(existing).len() == 0 {
        lemma_header_lines();
        let h = header_lines();
        let fl = field_lines(fields);
        assert(m1 == h + fl);
        assert(r1 =~= h + fl.map_values(|l: Seq<char>| strip_cr(l)));
        lemma_trim_empty(t1);
        if blank(t1) {
            lemma_lines_of_blank(t1);
            assert(blank(r1[0]));
            assert(r1[0] == h[0]);
        }
        lemma_merge_all_concat(st0, h, fl.map_values(|l: Seq<char>| strip_cr(l)));
        let one = h.drop_last();
        assert(one.drop_last() =~= Seq::<Seq<char>>::empty());
        assert(one.last() == h[0]);
        assert(h.last() == h[1]);
        assert(yaml_entry(h[0]) is None && yaml_entry(h[1]) is None);
        let sa = merge_step(st0, h[0]);
        assert(merge_all(st0, one.drop_last()) == st0);
        assert(merge_all(st0, one) == sa);
        let sb = merge_step(sa, h[1]);
        assert(merge_all(st0, h) == sb);
        assert(sb.out =~= h);
        lemma_refeed(h, fields, fields.len() as int);
        assert(fl.map_values(|l: Seq<char>| strip_cr(l)).take(fields.len() as int) =~= fl.map_values(
            |l: Seq<char>| strip_cr(l),
        ));
        assert(fl.take(fields.len() as int) =~= fl);
        assert(fields.skip(fields.len() as int) =~= Seq::<(Seq<char>, Seq<char>)>::empty());
        assert(field_lines(Seq::<(Seq<char>, Seq<char>)>::empty()) =~= Seq::<Seq<char>>::empty());
        assert(merged_lines(t1, fields) =~= m1);
    } else {
        let ls = lines_of(existing);
        lemma_merge_general(ls, fields, ls.len() as int);
        assert(ls.take(ls.len() as int) =~= ls);
        let st1 = merge_all(st0, ls);
        let out1 = st1.out;
        let rs = st1.fields;
        let fl = field_lines(rs);
        assert(m1 == out1 + fl);
        assert forall|i: int|
            0 <= i < ls.len() && #[trigger] merge_all(merge_start(fields), ls).out[i] == ls[i]
                implies strip_cr(ls[i]) == ls[i] by {
            assert(m1[i] == out1[i]);
        }
        assert forall|i: int| 0 <= i < rs.len() implies plain_field(#[trigger] rs[i]) by {
            assert(rs.contains(rs[i]));
            let w = choose|w: int| 0 <= w < fields.len() && fields[w] == rs[i];
            assert(plain_field(fields[w]));
        }
        lemma_second_pass(ls, fields, ls.len() as int);
        let o2 = out1.map_values(|l: Seq<char>| strip_cr(l));
        assert(o2.take(ls.len() as int) =~= o2);
        assert(r1 =~= o2 + fl.map_values(|l: Seq<char>| strip_cr(l)));
        lemma_trim_empty(t1);
        if blank(t1) {
            lemma_lines_of_blank(t1);
            assert forall|i: int| 0 <= i < ls.len() implies blank(#[trigger] ls[i]) by {
                assert(blank(r1[i]));
                assert(r1[i] == strip_cr(out1[i]));
                if out1[i] != ls[i] {
                    assert(replaced_at(ls, out1, i, fields));
                    let q = choose|q: (Seq<char>, Seq<char>)| #[trigger]
                        fields.contains(q) && out1[i] == field_line(q) && line_key(ls[i])
                            == Some(q.0);
                    let w = choose|w: int| 0 <= w < fields.len() && fields[w] == q;
                    assert(plain_field(fields[w]));
                    lemma_plain_field_line(q);
                }
            }
            lemma_blank_lines_back(existing);
            lemma_trim_empty(existing);
        }
        lemma_merge_all_concat(st0, o2, fl.map_values(|l: Seq<char>| strip_cr(l)));
        if rs.len() == 0 {
            assert(fl.map_values(|l: Seq<char>| strip_cr(l)) =~= Seq::<Seq<char>>::empty());
            assert(fl =~= Seq::<Seq<char>>::empty());
        }
        lemma_refeed(out1, rs, rs.len() as int);
        assert(fl.map_values(|l: Seq<char>| strip_cr(l)).take(rs.len() as int) =~= fl.map_values(
            |l: Seq<char>| strip_cr(l),
        ));
        assert(fl.take(rs.len() as int) =~= fl);
        assert(rs.skip(rs.len() as int) =~= Seq::<(Seq<char>, Seq<char>)>::empty());
        assert(field_lines(Seq::<(Seq<char>, Seq<char>)>::empty()) =~= Seq::<Seq<char>>::empty());
        assert(merged_lines(t1, fields) =~= m1);
    }
}

} // verus!
