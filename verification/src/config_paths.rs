//! Where the shared config file lives: `$XDG_CONFIG_HOME` first, then
//! `$HOME/.config`; under each `idle/config.yaml` before the legacy
//! `trance/config.yaml`.
use vstd::prelude::*;

use crate::config::{default_settings, parse_content, ThemeConfig};
use crate::text::{append_chars, chars_of, string_of};

verus! {

/// `base` joined with the relative component `c`, with a `/` between them
/// unless `base` is empty or already ends with `/` (`Path::join` on Unix).
pub open spec fn join_path(base: Seq<char>, c: Seq<char>) -> Seq<char> {
    if base.len() == 0 || base.last() == '/' {
        base + c
    } else {
        base + seq!['/'] + c
    }
}

/// The config directories: `$XDG_CONFIG_HOME` when set and not empty,
/// then `$HOME/.config` when `HOME` is set.
pub open spec fn config_bases(xdg: Option<Seq<char>>, home: Option<Seq<char>>) -> Seq<Seq<char>> {
    let a = match xdg {
        Some(x) => if x.len() > 0 {
            seq![x]
        } else {
            Seq::empty()
        },
        None => Seq::empty(),
    };
    let b = match home {
        Some(h) => seq![join_path(h, ".config"@)],
        None => Seq::empty(),
    };
    a + b
}

/// The candidate files under the directories `bases`, idle first, then
/// the legacy trance file, for each directory in turn.
pub open spec fn candidates_under(bases: Seq<Seq<char>>) -> Seq<Seq<char>>
    decreases bases.len(),
{
    if bases.len() == 0 {
        Seq::empty()
    } else {
        let b = bases.last();
        candidates_under(bases.drop_last()).push(
            join_path(join_path(b, "idle"@), "config.yaml"@),
        ).push(join_path(join_path(b, "trance"@), "config.yaml"@))
    }
}

pub open spec fn str_opt_view(o: Option<&str>) -> Option<Seq<char>> {
    match o {
        Some(s) => Some(s@),
        None => None,
    }
}

/// The first present content among `reads`.
pub open spec fn first_read(reads: Seq<Option<String>>) -> Option<Seq<char>>
    decreases reads.len(),
{
    if reads.len() == 0 {
        None
    } else {
        match reads[0] {
            Some(c) => Some(c@),
            None => first_read(reads.drop_first()),
        }
    }
}

fn join(base: &Vec<char>, c: &str) -> (r: Vec<char>)
    ensures
        r@ == join_path(base@, c@),
{
    let mut r: Vec<char> = Vec::new();
    append_chars(&mut r, base);
    if base.len() > 0 && base[base.len() - 1] != '/' {
        r.push('/');
    }
    let cv = chars_of(c);
    append_chars(&mut r, &cv);
    r
}

impl ThemeConfig {
    /// Candidate config files, in the order they are read: idle first,
    /// legacy trance second, for `$XDG_CONFIG_HOME` then `$HOME/.config`.
    pub fn config_path_candidates(xdg: Option<&str>, home: Option<&str>) -> (r: Vec<String>)
        ensures
            r@.map_values(|s: String| s@) == candidates_under(
                config_bases(str_opt_view(xdg), str_opt_view(home)),
            ),
    {
        let mut bases: Vec<Vec<char>> = Vec::new();
        match xdg {
            Some(x) => {
                let xv = chars_of(x);
                if xv.len() > 0 {
                    bases.push(xv);
                }
            },
            None => {},
        }
        match home {
            Some(h) => {
                let hv = chars_of(h);
                bases.push(join(&hv, ".config"));
            },
            None => {},
        }
        let ghost bv = bases@.map_values(|v: Vec<char>| v@);
        assert(bv =~= config_bases(str_opt_view(xdg), str_opt_view(home)));
        let mut out: Vec<String> = Vec::new();
        let mut i: usize = 0;
        while i < bases.len()
            invariant
                i <= bases@.len(),
                bv == bases@.map_values(|v: Vec<char>| v@),
                out@.map_values(|s: String| s@) == candidates_under(bv.take(i as int)),
            decreases bases@.len() - i,
        {
            let idle = join(&join(&bases[i], "idle"), "config.yaml");
            let trance = join(&join(&bases[i], "trance"), "config.yaml");
            let ghost before = out@.map_values(|s: String| s@);
            out.push(string_of(&idle));
            out.push(string_of(&trance));
            proof {
                assert(bv.take(i + 1).drop_last() =~= bv.take(i as int));
                assert(bv.take(i + 1).last() == bases@[i as int]@);
                assert(out@.map_values(|s: String| s@) =~= before.push(idle@).push(trance@));
            }
            i = i + 1;
        }
        assert(bv.take(i as int) =~= bv);
        out
    }

    /// The write path and primary read path: the first candidate.
    pub fn get_config_path(xdg: Option<&str>, home: Option<&str>) -> (r: Option<String>)
        ensures
            ({
                let c = candidates_under(config_bases(str_opt_view(xdg), str_opt_view(home)));
                match r {
                    Some(p) => c.len() > 0 && p@ == c[0],
                    None => c.len() == 0,
                }
            }),
    {
        let mut all = Self::config_path_candidates(xdg, home);
        if all.len() == 0 {
            None
        } else {
            Some(all.remove(0))
        }
    }

    /// The settings of the first candidate file that could be read
    /// (`reads` holds each candidate's content, `None` where unreadable);
    /// the defaults when none could.
    pub fn load_from(reads: &Vec<Option<String>>) -> (r: Self)
        ensures
            r@ == match first_read(reads@) {
                Some(c) => parse_content(c),
                None => default_settings(),
            },
    {
        let mut i: usize = 0;
        assert(reads@.skip(0) =~= reads@);
        while i < reads.len()
            invariant
                i <= reads@.len(),
                first_read(reads@) == first_read(reads@.skip(i as int)),
            decreases reads@.len() - i,
        {
            assert(reads@.skip(i as int).drop_first() =~= reads@.skip(i + 1));
            assert(reads@.skip(i as int)[0] == reads@[i as int]);
            match &reads[i] {
                Some(c) => {
                    return Self::from_yaml_content(c.as_str());
                },
                None => {},
            }
            i = i + 1;
        }
        Self::defaults()
    }
}

} // verus!
