//! Defensive reading of the daemon's pidfile: the pid it holds, and
//! whether a process is the daemon (by both `/proc/<pid>/cmdline` and
//! `/proc/<pid>/comm`) before any signal is sent.
use vstd::prelude::*;

use crate::text::{
    all_digits, chars_of, digits_only, digits_value, parse_unsigned, same_text, slice_of,
    strip_chars, trim, unsigned_text, Class,
};

verus! {

/// The value of `s` read as a signed decimal (`str::parse` of a signed
/// integer before its range check): an optional sign, then digits.
pub open spec fn signed_text(s: Seq<char>) -> Option<int> {
    if s.len() > 0 && s[0] == '-' {
        let d = s.drop_first();
        if d.len() > 0 && all_digits(d) {
            Some(-(digits_value(d) as int))
        } else {
            None
        }
    } else {
        match unsigned_text(s) {
            Some(v) => Some(v as int),
            None => None,
        }
    }
}

/// `str::parse::<i32>`.
pub open spec fn parse_i32(s: Seq<char>) -> Option<i32> {
    match signed_text(s) {
        Some(v) => if i32::MIN <= v <= i32::MAX {
            Some(v as i32)
        } else {
            None
        },
        None => None,
    }
}

/// The pid that pidfile content holds: the trimmed text read as an `i32`.
pub fn parse_pid(content: &str) -> (r: Option<i32>)
    ensures
        r == parse_i32(trim(content@)),
{
    let all = chars_of(content);
    let t = strip_chars(&all, Class::Space);
    let n = t.len();
    if n > 0 && t[0] == '-' {
        let d = slice_of(&t, 1, n);
        assert(d@ =~= t@.drop_first());
        if d.len() == 0 || !digits_only(&d, 0, d.len()) {
            assert(d@.subrange(0, d@.len() as int) =~= d@);
            return None;
        }
        assert(d@.subrange(0, d@.len() as int) =~= d@);
        assert(unsigned_text(d@) == Some(digits_value(d@))) by {
            assert(d@[0] != '+');
        }
        match parse_unsigned(&d, 0x8000_0000) {
            Some(v) => {
                if v == 0x8000_0000 {
                    Some(-2147483648i32)
                } else {
                    Some(-(v as i32))
                }
            },
            None => None,
        }
    } else {
        match parse_unsigned(&t, 0x7fff_ffff) {
            Some(v) => Some(v as i32),
            None => None,
        }
    }
}

/// Some NUL-separated argument of `cmdline` ends with `x` (which holds no
/// NUL): `x` occurs in `cmdline` ending at the end or just before a NUL.
pub open spec fn some_arg_ends_with(cmdline: Seq<char>, x: Seq<char>) -> bool {
    exists|e: int|
        x.len() <= e <= cmdline.len() && #[trigger] cmdline.subrange(e - x.len(), e) == x && (e
            == cmdline.len() || cmdline[e] == '\0')
}

/// Whether `cmdline` names the daemon binary: some argument ends with
/// `/idle-daemon` or `/idlescreen-daemon`.
pub open spec fn cmdline_names_daemon(cmdline: Seq<char>) -> bool {
    some_arg_ends_with(cmdline, "/idle-daemon"@) || some_arg_ends_with(
        cmdline,
        "/idlescreen-daemon"@,
    )
}

/// Whether the trimmed `comm` is one of the daemon's names (including the
/// 15-byte kernel-truncated `idlescreen-`).
pub open spec fn comm_names_daemon(comm: Seq<char>) -> bool {
    let c = trim(comm);
    c == "idle-daemon"@ || c == "idlescreen-"@ || c == "idlescreen-daemon"@
}

/// A process is taken for the daemon only when both its command line and
/// its name say so; an unreadable file (`None`) says no.
pub open spec fn is_daemon_process(cmdline: Option<Seq<char>>, comm: Option<Seq<char>>) -> bool {
    &&& cmdline matches Some(c) && cmdline_names_daemon(c)
    &&& comm matches Some(n) && comm_names_daemon(n)
}

/// A command line one of whose NUL-separated arguments ends with the
/// daemon's path (`/idle-daemon` or `/idlescreen-daemon`) names the
/// daemon, whatever comes before that argument and whether or not a NUL
/// ends it; such a process is taken for the daemon exactly when its name
/// says so too.
pub proof fn law_daemon_argument_recognised(
    pre: Seq<char>,
    x: Seq<char>,
    post: Seq<char>,
    comm: Seq<char>,
)
    requires
        x == "/idle-daemon"@ || x == "/idlescreen-daemon"@,
        post.len() == 0 || post[0] == '\0',
    ensures
        cmdline_names_daemon(pre + x + post),
        is_daemon_process(Some(pre + x + post), Some(comm)) == comm_names_daemon(comm),
{
    let c = pre + x + post;
    let e: int = pre.len() + x.len() as int;
    assert(c.subrange(e - x.len(), e) =~= x);
    if post.len() > 0 {
        assert(c[e] == post[0]);
    }
    assert(some_arg_ends_with(c, x));
}

fn arg_ends_with(s: &Vec<char>, x: &str) -> (r: bool)
    ensures
        r == some_arg_ends_with(s@, x@),
{
    let xv = chars_of(x);
    let m = xv.len();
    let n = s.len();
    if m > n {
        return false;
    }
    let mut e: usize = m;
    while e < n
        invariant
            m == xv@.len() == x@.len(),
            n == s@.len(),
            m <= n,
            m <= e <= n,
            forall|f: int|
                m <= f < e ==> !(#[trigger] s@.subrange(f - m, f) == x@ && (f == n || s@[f]
                    == '\0')),
        decreases n - e,
    {
        let piece = slice_of(s, e - m, e);
        if same_text(&piece, x) && s[e] == '\0' {
            return true;
        }
        e = e + 1;
    }
    let piece = slice_of(s, n - m, n);
    same_text(&piece, x)
}

/// Whether the process with this `cmdline` and `comm` content is the daemon.
pub fn targets_idle_daemon(cmdline: Option<&str>, comm: Option<&str>) -> (r: bool)
    ensures
        r == is_daemon_process(
            match cmdline {
                Some(c) => Some(c@),
                None => None,
            },
            match comm {
                Some(c) => Some(c@),
                None => None,
            },
        ),
{
    let cmd_ok = match cmdline {
        Some(c) => {
            let cv = chars_of(c);
            arg_ends_with(&cv, "/idle-daemon") || arg_ends_with(&cv, "/idlescreen-daemon")
        },
        None => false,
    };
    if !cmd_ok {
        return false;
    }
    match comm {
        Some(c) => {
            let cv = chars_of(c);
            let t = strip_chars(&cv, Class::Space);
            same_text(&t, "idle-daemon") || same_text(&t, "idlescreen-") || same_text(
                &t,
                "idlescreen-daemon",
            )
        },
        None => false,
    }
}

} // verus!
