//! How saver names are shown: `my_cool-saver` reads `My Cool Saver`.
use vstd::prelude::*;

use crate::i18n::{localized, message_text};
use crate::text::{append_chars, chars_of, eq_ignore_ascii_case, same_ignoring_ascii_case, string_of};

verus! {

/// What `char::to_uppercase` yields for `c`.
pub uninterp spec fn upper_of(c: char) -> Seq<char>;

/// What `char::to_lowercase` yields for `c`.
pub uninterp spec fn lower_of(c: char) -> Seq<char>;

/// The ASCII upper-case form of `c`: a letter `a`..`z` becomes `A`..`Z`,
/// every other character stays.
pub open spec fn ascii_upper_char(c: char) -> char {
    if 'a' <= c <= 'z' {
        ((c as u32) - 32) as char
    } else {
        c
    }
}

/// The ASCII lower-case form of `c`: a letter `A`..`Z` becomes `a`..`z`,
/// every other character stays.
pub open spec fn ascii_lower_char(c: char) -> char {
    if 'A' <= c <= 'Z' {
        ((c as u32) + 32) as char
    } else {
        c
    }
}

/// Every character of `s` is ASCII.
pub open spec fn is_ascii_text(s: Seq<char>) -> bool {
    forall|i: int| 0 <= i < s.len() ==> (#[trigger] s[i] as u32) < 0x80
}

/// ASCII text in title case: `-` and `_` become spaces and start a new
/// word; the first character of a word is upper-cased, the others
/// lower-cased.
pub open spec fn ascii_title(s: Seq<char>, cap: bool) -> Seq<char>
    decreases s.len(),
{
    if s.len() == 0 {
        Seq::empty()
    } else {
        let c = s[0];
        if c == '-' || c == '_' {
            seq![' '] + ascii_title(s.drop_first(), true)
        } else if cap {
            seq![ascii_upper_char(c)] + ascii_title(s.drop_first(), false)
        } else {
            seq![ascii_lower_char(c)] + ascii_title(s.drop_first(), false)
        }
    }
}

/// `up` and `low` hold the ASCII upper- and lower-case form of each
/// character of `s`.
pub open spec fn ascii_forms(s: Seq<char>, up: Seq<Seq<char>>, low: Seq<Seq<char>>) -> bool {
    &&& up.len() == s.len()
    &&& low.len() == s.len()
    &&& forall|i: int|
        0 <= i < s.len() ==> #[trigger] up[i] == seq![ascii_upper_char(s[i])] && low[i] == seq![
            ascii_lower_char(s[i]),
        ]
}

/// With the ASCII case forms given for each character, title casing is
/// ASCII title casing.
proof fn lemma_ascii_title(s: Seq<char>, up: Seq<Seq<char>>, low: Seq<Seq<char>>, cap: bool)
    requires
        ascii_forms(s, up, low),
    ensures
        title_case_by(s, up, low, cap) == ascii_title(s, cap),
    decreases s.len(),
{
    if s.len() > 0 {
        let (s1, u1, l1) = (s.drop_first(), up.drop_first(), low.drop_first());
        assert forall|i: int| 0 <= i < s1.len() implies #[trigger] u1[i] == seq![
            ascii_upper_char(s1[i]),
        ] && l1[i] == seq![ascii_lower_char(s1[i])] by {
            assert(u1[i] == up[i + 1]);
            assert(l1[i] == low[i + 1]);
            assert(s1[i] == s[i + 1]);
        }
        assert(ascii_forms(s1, u1, l1));
        lemma_ascii_title(s1, u1, l1, s[0] == '-' || s[0] == '_');
        assert(up[0] == seq![ascii_upper_char(s[0])]);
    }
}

/// std's `char::to_uppercase`, collected. The contract claims that the
/// characters are a function of `c` alone (named `upper_of`) and, as std
/// documents, that an ASCII lower-case letter becomes the one matching
/// upper-case letter and that every other ASCII character, having no
/// upper-case mapping, stays as it is; the Unicode case tables beyond ASCII
/// are not stated.
#[verifier::external_body]
fn upper_chars(c: char) -> (r: Vec<char>)
    ensures
        r@ == upper_of(c),
        (c as u32) < 0x80 ==> r@ == seq![ascii_upper_char(c)],
{
    c.to_uppercase().collect()
}

/// std's `char::to_lowercase`, collected. The contract claims that the
/// characters are a function of `c` alone (named `lower_of`) and, as std
/// documents, that an ASCII upper-case letter becomes the one matching
/// lower-case letter and that every other ASCII character, having no
/// lower-case mapping, stays as it is; the Unicode case tables beyond ASCII
/// are not stated.
#[verifier::external_body]
fn lower_chars(c: char) -> (r: Vec<char>)
    ensures
        r@ == lower_of(c),
        (c as u32) < 0x80 ==> r@ == seq![ascii_lower_char(c)],
{
    c.to_lowercase().collect()
}

/// `s` in title case, given the upper-case form `up[i]` and the lower-case
/// form `low[i]` of each character `s[i]`: `-` and `_` become spaces and
/// start a new word; the first character of a word takes its upper-case
/// form, the others their lower-case form.
pub open spec fn title_case_by(
    s: Seq<char>,
    up: Seq<Seq<char>>,
    low: Seq<Seq<char>>,
    cap: bool,
) -> Seq<char>
    decreases s.len(),
{
    if s.len() == 0 {
        Seq::empty()
    } else {
        let c = s[0];
        if c == '-' || c == '_' {
            seq![' '] + title_case_by(s.drop_first(), up.drop_first(), low.drop_first(), true)
        } else if cap {
            up[0] + title_case_by(s.drop_first(), up.drop_first(), low.drop_first(), false)
        } else {
            low[0] + title_case_by(s.drop_first(), up.drop_first(), low.drop_first(), false)
        }
    }
}

/// `s` in title case with std's case mappings.
pub open spec fn title_case(s: Seq<char>) -> Seq<char> {
    title_case_by(
        s,
        s.map_values(|c: char| upper_of(c)),
        s.map_values(|c: char| lower_of(c)),
        true,
    )
}

/// The label of a saver: the localized "random" for `random` in any ASCII
/// case, else the name in title case.
pub open spec fn saver_label(raw: Seq<char>) -> Seq<char> {
    if eq_ignore_ascii_case(raw, "random"@) {
        message_text("random"@, Seq::empty())
    } else {
        title_case(raw)
    }
}

/// The texts of a list of character vectors.
pub open spec fn texts(v: Seq<Vec<char>>) -> Seq<Seq<char>> {
    v.map_values(|x: Vec<char>| x@)
}

/// `raw` in title case, given for each of its characters its upper-case
/// form (`uppers[i]`) and its lower-case form (`lowers[i]`).
pub fn title_case_with(raw: &Vec<char>, uppers: &Vec<Vec<char>>, lowers: &Vec<Vec<char>>) -> (r:
    Vec<char>)
    requires
        uppers@.len() == raw@.len(),
        lowers@.len() == raw@.len(),
    ensures
        r@ == title_case_by(raw@, texts(uppers@), texts(lowers@), true),
{
    let ghost up = texts(uppers@);
    let ghost low = texts(lowers@);
    let mut out: Vec<char> = Vec::new();
    let mut cap = true;
    let mut i: usize = 0;
    assert(raw@.skip(0) =~= raw@);
    assert(up.skip(0) =~= up);
    assert(low.skip(0) =~= low);
    while i < raw.len()
        invariant
            i <= raw@.len(),
            up.len() == raw@.len(),
            low.len() == raw@.len(),
            up == texts(uppers@),
            low == texts(lowers@),
            title_case_by(raw@, up, low, true) == out@ + title_case_by(
                raw@.skip(i as int),
                up.skip(i as int),
                low.skip(i as int),
                cap,
            ),
        decreases raw@.len() - i,
    {
        let c = raw[i];
        assert(raw@.skip(i as int)[0] == c);
        assert(up.skip(i as int)[0] == uppers@[i as int]@);
        assert(low.skip(i as int)[0] == lowers@[i as int]@);
        assert(raw@.skip(i as int).drop_first() =~= raw@.skip(i + 1));
        assert(up.skip(i as int).drop_first() =~= up.skip(i + 1));
        assert(low.skip(i as int).drop_first() =~= low.skip(i + 1));
        if c == '-' || c == '_' {
            out.push(' ');
            cap = true;
        } else if cap {
            append_chars(&mut out, &uppers[i]);
            cap = false;
        } else {
            append_chars(&mut out, &lowers[i]);
        }
        i = i + 1;
        assert(title_case_by(raw@, up, low, true) =~= out@ + title_case_by(
            raw@.skip(i as int),
            up.skip(i as int),
            low.skip(i as int),
            cap,
        ));
    }
    assert(out@ + title_case_by(raw@.skip(i as int), up.skip(i as int), low.skip(i as int), cap)
        =~= out@);
    out
}

/// The label shown for the saver `raw`. An ASCII name other than `random`
/// reads in ASCII title case: `my_cool-saver` reads `My Cool Saver`.
pub fn display_saver_name(raw: &str) -> (r: String)
    ensures
        r@ == saver_label(raw@),
        is_ascii_text(raw@) && !eq_ignore_ascii_case(raw@, "random"@) ==> r@ == ascii_title(
            raw@,
            true,
        ),
{
    let s = chars_of(raw);
    if same_ignoring_ascii_case(&s, "random") {
        return localized("random");
    }
    let mut uppers: Vec<Vec<char>> = Vec::new();
    let mut lowers: Vec<Vec<char>> = Vec::new();
    let mut i: usize = 0;
    while i < s.len()
        invariant
            i <= s@.len(),
            uppers@.len() == i,
            lowers@.len() == i,
            texts(uppers@) =~= s@.take(i as int).map_values(|c: char| upper_of(c)),
            texts(lowers@) =~= s@.take(i as int).map_values(|c: char| lower_of(c)),
            forall|j: int|
                0 <= j < i && (s@[j] as u32) < 0x80 ==> #[trigger] texts(uppers@)[j] == seq![
                    ascii_upper_char(s@[j]),
                ] && texts(lowers@)[j] == seq![ascii_lower_char(s@[j])],
        decreases s@.len() - i,
    {
        let ghost old_up = uppers@;
        let ghost old_low = lowers@;
        uppers.push(upper_chars(s[i]));
        lowers.push(lower_chars(s[i]));
        i = i + 1;
        assert forall|j: int| 0 <= j < i implies texts(uppers@)[j] == upper_of(s@[j]) && texts(
            lowers@,
        )[j] == lower_of(s@[j]) by {
            if j < i - 1 {
                assert(uppers@[j] == old_up[j]);
                assert(lowers@[j] == old_low[j]);
                assert(texts(old_up)[j] == old_up[j]@);
                assert(texts(old_up)[j] == s@.take(i - 1).map_values(|c: char| upper_of(c))[j]);
                assert(texts(old_low)[j] == s@.take(i - 1).map_values(|c: char| lower_of(c))[j]);
            }
        }
        assert(texts(uppers@) =~= s@.take(i as int).map_values(|c: char| upper_of(c)));
        assert(texts(lowers@) =~= s@.take(i as int).map_values(|c: char| lower_of(c)));
        assert forall|j: int|
            0 <= j < i && (s@[j] as u32) < 0x80 implies #[trigger] texts(uppers@)[j] == seq![
                ascii_upper_char(s@[j]),
            ] && texts(lowers@)[j] == seq![ascii_lower_char(s@[j])] by {
            if j < i - 1 {
                assert(uppers@[j] == old_up[j]);
                assert(lowers@[j] == old_low[j]);
                assert(texts(old_up)[j] == old_up[j]@);
                assert(texts(old_low)[j] == old_low[j]@);
            }
        }
    }
    assert(s@.take(i as int) =~= s@);
    proof {
        if is_ascii_text(s@) {
            let up = texts(uppers@);
            let low = texts(lowers@);
            assert forall|j: int| 0 <= j < s@.len() implies #[trigger] up[j] == seq![
                ascii_upper_char(s@[j]),
            ] && low[j] == seq![ascii_lower_char(s@[j])] by {
                assert((s@[j] as u32) < 0x80);
            }
            assert(up.len() == s@.len() && low.len() == s@.len());
            assert(ascii_forms(s@, up, low));
            lemma_ascii_title(s@, up, low, true);
        }
    }
    let out = title_case_with(&s, &uppers, &lowers);
    string_of(&out)
}

} // verus!
