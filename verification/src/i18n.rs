//! Localized strings. The applet ships one English catalog of Fluent-style
//! `id = text` lines; `{$name}` placeholders in a text are replaced by
//! arguments. An unknown id renders as the id itself.
use vstd::prelude::*;

use crate::text::{
    append_chars, chars_of, find_char, find_in, lines_of, same_chars, slice_of, split_lines, string_of,
    strip_chars, trim, Class,
};

verus! {

/// The English catalog.
pub open spec fn catalog_text() -> Seq<char> {
    "# IdleScreen COSMIC applet\napp-title = IdleScreen\ntooltip = IdleScreen screensaver\nstatus-running-short = running\nstatus-stopped-short = stopped\nidle-activation = Idle activation\nidle-timeout = Idle timeout\ntimeout-minutes = {$mins} min\npreview-now = Preview now\npreview-starts-daemon = Preview (starts daemon)\nadvanced = Advanced\nrender-scale = Render scale\nscale-percent = {$pct}%\nfps-overlay = FPS overlay\ndaemon-service = Daemon service\nopen-dashboard = Open dashboard\nno-savers = No screensavers installed\nrandom = Random\nerror-start = Could not start idle-daemon\nerror-stop = Could not stop idle-daemon\nerror-tui = Could not open the dashboard in a terminal\nerror-preview = Preview failed\n"@
}

fn catalog_source() -> (r: &'static str)
    ensures
        r@ == catalog_text(),
{
    "# IdleScreen COSMIC applet\napp-title = IdleScreen\ntooltip = IdleScreen screensaver\nstatus-running-short = running\nstatus-stopped-short = stopped\nidle-activation = Idle activation\nidle-timeout = Idle timeout\ntimeout-minutes = {$mins} min\npreview-now = Preview now\npreview-starts-daemon = Preview (starts daemon)\nadvanced = Advanced\nrender-scale = Render scale\nscale-percent = {$pct}%\nfps-overlay = FPS overlay\ndaemon-service = Daemon service\nopen-dashboard = Open dashboard\nno-savers = No screensavers installed\nrandom = Random\nerror-start = Could not start idle-daemon\nerror-stop = Could not stop idle-daemon\nerror-tui = Could not open the dashboard in a terminal\nerror-preview = Preview failed\n"
}

/// The `(id, text)` a catalog line defines: none for blank lines, `#`
/// comments and lines without `=`; else the trimmed text on either side of
/// the first `=`.
pub open spec fn catalog_entry(line: Seq<char>) -> Option<(Seq<char>, Seq<char>)> {
    let t = trim(line);
    if t.len() == 0 || t[0] == '#' {
        None
    } else {
        match find_char(t, '=') {
            None => None,
            Some(i) => Some((trim(t.take(i)), trim(t.skip(i + 1)))),
        }
    }
}

/// The entries that the lines `ls` define, in order.
pub open spec fn catalog_entries(ls: Seq<Seq<char>>) -> Seq<(Seq<char>, Seq<char>)>
    decreases ls.len(),
{
    if ls.len() == 0 {
        Seq::empty()
    } else {
        let rest = catalog_entries(ls.drop_last());
        match catalog_entry(ls.last()) {
            Some(e) => rest.push(e),
            None => rest,
        }
    }
}

/// The text of the first entry whose id is `id`.
pub open spec fn lookup(es: Seq<(Seq<char>, Seq<char>)>, id: Seq<char>) -> Option<Seq<char>>
    decreases es.len(),
{
    if es.len() == 0 {
        None
    } else if es[0].0 == id {
        Some(es[0].1)
    } else {
        lookup(es.drop_first(), id)
    }
}

/// `s` with every occurrence of `p` replaced by `r`, left to right and
/// without overlaps (`str::replace`); `s` itself when `p` is empty.
pub open spec fn replace_all(s: Seq<char>, p: Seq<char>, r: Seq<char>) -> Seq<char>
    decreases s.len(),
{
    if p.len() == 0 || s.len() < p.len() {
        s
    } else if s.take(p.len() as int) == p {
        r + replace_all(s.skip(p.len() as int), p, r)
    } else {
        seq![s[0]] + replace_all(s.skip(1), p, r)
    }
}

/// The placeholder `{$name}`.
pub open spec fn placeholder(name: Seq<char>) -> Seq<char> {
    seq!['{', '$'] + name + seq!['}']
}

/// `tpl` with each `{$name}` replaced by its value, arguments taken in order.
pub open spec fn substitute(tpl: Seq<char>, args: Seq<(Seq<char>, Seq<char>)>) -> Seq<char>
    decreases args.len(),
{
    if args.len() == 0 {
        tpl
    } else {
        let a = args.last();
        replace_all(substitute(tpl, args.drop_last()), placeholder(a.0), a.1)
    }
}

/// Arguments viewed as text.
pub open spec fn args_view(args: Seq<(&str, String)>) -> Seq<(Seq<char>, Seq<char>)> {
    args.map_values(|a: (&str, String)| (a.0@, a.1@))
}

/// The localized text for `id` with `args` substituted; `id` itself when
/// the catalog has no such id.
pub open spec fn message_text(id: Seq<char>, args: Seq<(Seq<char>, Seq<char>)>) -> Seq<char> {
    match lookup(catalog_entries(lines_of(catalog_text())), id) {
        Some(tpl) => substitute(tpl, args),
        None => id,
    }
}

/// An id the catalog lacks renders as itself, whatever the arguments.
pub proof fn law_unknown_id_renders_id(id: Seq<char>, args: Seq<(Seq<char>, Seq<char>)>)
    requires
        lookup(catalog_entries(lines_of(catalog_text())), id) is None,
    ensures
        message_text(id, args) == id,
{
}

/// Without arguments a message is its catalog text unchanged.
pub proof fn law_no_args_keeps_text(id: Seq<char>)
    ensures
        message_text(id, Seq::empty()) == match lookup(
            catalog_entries(lines_of(catalog_text())),
            id,
        ) {
            Some(t) => t,
            None => id,
        },
{
}

fn entry_of(line: &Vec<char>) -> (r: Option<(Vec<char>, Vec<char>)>)
    ensures
        match r {
            Some(e) => catalog_entry(line@) == Some((e.0@, e.1@)),
            None => catalog_entry(line@) is None,
        },
{
    let t = strip_chars(line, Class::Space);
    if t.len() == 0 || t[0] == '#' {
        return None;
    }
    match find_in(&t, Class::Only('=')) {
        None => None,
        Some(i) => {
            let head = slice_of(&t, 0, i);
            let tail = slice_of(&t, i + 1, t.len());
            assert(head@ =~= t@.take(i as int));
            assert(tail@ =~= t@.skip(i + 1));
            Some((strip_chars(&head, Class::Space), strip_chars(&tail, Class::Space)))
        },
    }
}

/// The catalog's entries, in order.
fn catalog() -> (r: Vec<(Vec<char>, Vec<char>)>)
    ensures
        r@.map_values(|e: (Vec<char>, Vec<char>)| (e.0@, e.1@)) == catalog_entries(
            lines_of(catalog_text()),
        ),
{
    let text = chars_of(catalog_source());
    let lines = split_lines(&text);
    let ghost ls = lines@.map_values(|l: Vec<char>| l@);
    let mut out: Vec<(Vec<char>, Vec<char>)> = Vec::new();
    let mut i: usize = 0;
    while i < lines.len()
        invariant
            i <= lines@.len(),
            ls == lines@.map_values(|l: Vec<char>| l@),
            ls == lines_of(catalog_text()),
            out@.map_values(|e: (Vec<char>, Vec<char>)| (e.0@, e.1@)) == catalog_entries(
                ls.take(i as int),
            ),
        decreases lines@.len() - i,
    {
        proof {
            assert(ls.take(i + 1).drop_last() =~= ls.take(i as int));
            assert(ls.take(i + 1).last() == lines@[i as int]@);
        }
        let ghost before = out@.map_values(|e: (Vec<char>, Vec<char>)| (e.0@, e.1@));
        match entry_of(&lines[i]) {
            Some(e) => {
                let ghost ev = (e.0@, e.1@);
                out.push(e);
                assert(out@.map_values(|e: (Vec<char>, Vec<char>)| (e.0@, e.1@)) =~= before.push(
                    ev,
                ));
            },
            None => {},
        }
        i = i + 1;
    }
    assert(ls.take(i as int) =~= ls);
    out
}

/// Whether `p` occurs in `s` at `i`.
fn occurs_at(s: &Vec<char>, p: &Vec<char>, i: usize) -> (r: bool)
    requires
        i <= s@.len(),
    ensures
        r == (s@.len() - i >= p@.len() && s@.skip(i as int).take(p@.len() as int) == p@),
{
    let n = s.len();
    if n - i < p.len() {
        return false;
    }
    let mut j: usize = 0;
    while j < p.len()
        invariant
            n == s@.len(),
            i + p@.len() <= s@.len(),
            j <= p@.len(),
            forall|m: int| 0 <= m < j ==> s@[i + m] == p@[m],
        decreases p@.len() - j,
    {
        assert(i + j < s@.len());
        if s[i + j] != p[j] {
            assert(s@.skip(i as int).take(p@.len() as int)[j as int] == s@[i + j]);
            return false;
        }
        j = j + 1;
    }
    assert(s@.skip(i as int).take(p@.len() as int) =~= p@);
    true
}

/// Every occurrence of `p` in `s` replaced by `r` (`str::replace`).
pub fn replace_chars(s: &Vec<char>, p: &Vec<char>, r: &Vec<char>) -> (out: Vec<char>)
    ensures
        out@ == replace_all(s@, p@, r@),
{
    let mut out: Vec<char> = Vec::new();
    if p.len() == 0 {
        append_chars(&mut out, s);
        return out;
    }
    let mut i: usize = 0;
    assert(s@.skip(0) =~= s@);
    while i < s.len()
        invariant
            i <= s@.len(),
            p@.len() > 0,
            replace_all(s@, p@, r@) == out@ + replace_all(s@.skip(i as int), p@, r@),
        decreases s@.len() - i,
    {
        let ghost rest = s@.skip(i as int);
        if occurs_at(s, p, i) {
            append_chars(&mut out, r);
            assert(rest.skip(p@.len() as int) =~= s@.skip(i + p@.len()));
            i = i + p.len();
            assert(replace_all(s@, p@, r@) =~= out@ + replace_all(s@.skip(i as int), p@, r@));
        } else {
            let ghost o = out@;
            out.push(s[i]);
            assert(rest.skip(1) =~= s@.skip(i + 1));
            assert(rest[0] == s@[i as int]);
            i = i + 1;
            assert(replace_all(s@, p@, r@) =~= out@ + replace_all(s@.skip(i as int), p@, r@));
        }
    }
    assert(s@.skip(i as int).len() == 0);
    assert(out@ + s@.skip(i as int) =~= out@);
    out
}

/// Look up `id` and substitute `{$name}` placeholders with `args`.
pub fn message(id: &str, args: &[(&str, String)]) -> (r: String)
    ensures
        r@ == message_text(id@, args_view(args@)),
{
    let es = catalog();
    let ghost ev = es@.map_values(|e: (Vec<char>, Vec<char>)| (e.0@, e.1@));
    let idc = chars_of(id);
    let mut i: usize = 0;
    assert(ev.skip(0) =~= ev);
    while i < es.len()
        invariant
            i <= es@.len(),
            ev == es@.map_values(|e: (Vec<char>, Vec<char>)| (e.0@, e.1@)),
            ev == catalog_entries(lines_of(catalog_text())),
            idc@ == id@,
            lookup(ev, idc@) == lookup(ev.skip(i as int), idc@),
        decreases es@.len() - i,
    {
        assert(ev.skip(i as int).drop_first() =~= ev.skip(i + 1));
        if same_chars(&es[i].0, &idc) {
            let tpl = &es[i].1;
            assert(ev.skip(i as int)[0] == ev[i as int]);
            assert(ev[i as int] == (es@[i as int].0@, es@[i as int].1@));
            assert(lookup(ev, idc@) == Some(tpl@));
            let mut out: Vec<char> = Vec::new();
            append_chars(&mut out, tpl);
            let ghost av = args_view(args@);
            assert(av.take(0) =~= Seq::<(Seq<char>, Seq<char>)>::empty());
            let mut j: usize = 0;
            while j < args.len()
                invariant
                    j <= args@.len(),
                    av == args_view(args@),
                    out@ == substitute(tpl@, av.take(j as int)),
                decreases args@.len() - j,
            {
                let mut p: Vec<char> = Vec::new();
                p.push('{');
                p.push('$');
                let name = chars_of(args[j].0);
                append_chars(&mut p, &name);
                p.push('}');
                let v = chars_of(args[j].1.as_str());
                out = replace_chars(&out, &p, &v);
                proof {
                    assert(p@ =~= placeholder(av[j as int].0));
                    assert(av.take(j + 1).drop_last() =~= av.take(j as int));
                    assert(av.take(j + 1).last() == av[j as int]);
                }
                j = j + 1;
            }
            assert(av.take(j as int) =~= av);
            return string_of(&out);
        }
        i = i + 1;
    }
    assert(ev.skip(i as int).len() == 0);
    string_of(&idc)
}

/// The message `id` with no arguments.
pub fn localized(id: &str) -> (r: String)
    ensures
        r@ == message_text(id@, Seq::empty()),
{
    let args: Vec<(&str, String)> = Vec::new();
    let r = message(id, args.as_slice());
    assert(args_view(args@) =~= Seq::empty());
    r
}

} // verus!
