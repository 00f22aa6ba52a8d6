//! Turning arbitrary text (a comic or chapter title) into a name that can
//! stand as one component of a directory path.
use vstd::prelude::*;
use crate::text::{chars_of, string_of};

verus! {

/// Unicode `White_Space`, the set `char::is_whitespace` tests for.
pub open spec fn is_white_space(c: char) -> bool {
    ||| ('\u{9}' <= c && c <= '\u{d}')
    ||| c == ' '
    ||| c == '\u{85}'
    ||| c == '\u{a0}'
    ||| c == '\u{1680}'
    ||| ('\u{2000}' <= c && c <= '\u{200a}')
    ||| c == '\u{2028}'
    ||| c == '\u{2029}'
    ||| c == '\u{202f}'
    ||| c == '\u{205f}'
    ||| c == '\u{3000}'
}

/// Characters that file systems refuse, or treat specially, in a name.
pub open spec fn is_reserved(c: char) -> bool {
    ||| c == '\\'
    ||| c == '/'
    ||| c == ':'
    ||| c == '*'
    ||| c == '?'
    ||| c == '"'
    ||| c == '<'
    ||| c == '>'
    ||| c == '|'
}

/// The stand-in for a character in a name: each reserved character is
/// replaced by a look-alike that file systems accept.
pub open spec fn safe_char(c: char) -> char {
    if c == '\\' || c == '/' {
        ' '
    } else if c == ':' {
        '：'
    } else if c == '*' {
        '⭐'
    } else if c == '?' {
        '？'
    } else if c == '"' {
        '\''
    } else if c == '<' {
        '《'
    } else if c == '>' {
        '》'
    } else if c == '|' {
        '丨'
    } else {
        c
    }
}

/// `s` without its trailing white space.
pub open spec fn trim_end_ws(s: Seq<char>) -> Seq<char>
    decreases s.len(),
{
    if s.len() > 0 && is_white_space(s.last()) {
        trim_end_ws(s.drop_last())
    } else {
        s
    }
}

/// `s` without its leading white space.
pub open spec fn trim_start_ws(s: Seq<char>) -> Seq<char>
    decreases s.len(),
{
    if s.len() > 0 && is_white_space(s[0]) {
        trim_start_ws(s.drop_first())
    } else {
        s
    }
}

/// `s` without leading and trailing white space (`str::trim`).
pub open spec fn trim_ws(s: Seq<char>) -> Seq<char> {
    trim_end_ws(trim_start_ws(s))
}

/// `s` without its trailing dots (`str::trim_end_matches('.')`).
pub open spec fn trim_end_dots(s: Seq<char>) -> Seq<char>
    decreases s.len(),
{
    if s.len() > 0 && s.last() == '.' {
        trim_end_dots(s.drop_last())
    } else {
        s
    }
}

/// The name that `filename_filter` makes of `s`: reserved characters
/// replaced, then white space trimmed, trailing dots dropped, and white
/// space trimmed again.
pub open spec fn safe_name(s: Seq<char>) -> Seq<char> {
    trim_ws(trim_end_dots(trim_ws(s.map_values(|c: char| safe_char(c)))))
}

fn white_space(c: char) -> (r: bool)
    ensures
        r == is_white_space(c),
{
    ('\u{9}' <= c && c <= '\u{d}') || c == ' ' || c == '\u{85}' || c == '\u{a0}' || c == '\u{1680}'
        || ('\u{2000}' <= c && c <= '\u{200a}') || c == '\u{2028}' || c == '\u{2029}' || c
        == '\u{202f}' || c == '\u{205f}' || c == '\u{3000}'
}

fn replace_reserved(c: char) -> (r: char)
    ensures
        r == safe_char(c),
{
    if c == '\\' || c == '/' {
        ' '
    } else if c == ':' {
        '：'
    } else if c == '*' {
        '⭐'
    } else if c == '?' {
        '？'
    } else if c == '"' {
        '\''
    } else if c == '<' {
        '《'
    } else if c == '>' {
        '》'
    } else if c == '|' {
        '丨'
    } else {
        c
    }
}

fn drop_trailing_ws(v: &mut Vec<char>)
    ensures
        final(v)@ == trim_end_ws(old(v)@),
{
    while v.len() > 0 && white_space(v[v.len() - 1])
        invariant
            trim_end_ws(v@) == trim_end_ws(old(v)@),
        decreases v@.len(),
    {
        let ghost before = v@;
        v.pop();
        assert(v@ =~= before.drop_last());
    }
}

fn drop_trailing_dots(v: &mut Vec<char>)
    ensures
        final(v)@ == trim_end_dots(old(v)@),
{
    while v.len() > 0 && v[v.len() - 1] == '.'
        invariant
            trim_end_dots(v@) == trim_end_dots(old(v)@),
        decreases v@.len(),
    {
        let ghost before = v@;
        v.pop();
        assert(v@ =~= before.drop_last());
    }
}

fn without_leading_ws(v: &Vec<char>) -> (r: Vec<char>)
    ensures
        r@ == trim_start_ws(v@),
{
    let mut k: usize = 0;
    assert(v@.skip(0) =~= v@);
    while k < v.len() && white_space(v[k])
        invariant
            k <= v@.len(),
            trim_start_ws(v@.skip(k as int)) == trim_start_ws(v@),
        decreases v@.len() - k,
    {
        assert(v@.skip(k as int).drop_first() =~= v@.skip(k + 1));
        k = k + 1;
    }
    let mut r: Vec<char> = Vec::new();
    let mut j: usize = k;
    while j < v.len()
        invariant
            k <= j <= v@.len(),
            r@ == v@.subrange(k as int, j as int),
        decreases v@.len() - j,
    {
        r.push(v[j]);
        assert(v@.subrange(k as int, j + 1) =~= v@.subrange(k as int, j as int).push(v@[j as int]));
        j = j + 1;
    }
    assert(r@ =~= v@.skip(k as int));
    r
}

fn trimmed(v: &Vec<char>) -> (r: Vec<char>)
    ensures
        r@ == trim_ws(v@),
{
    let mut r = without_leading_ws(v);
    drop_trailing_ws(&mut r);
    r
}

/// Makes `s` usable as one component of a directory path: reserved
/// characters become look-alikes, surrounding white space and trailing dots
/// are removed.
pub fn filename_filter(s: &str) -> (name: String)
    ensures
        name@ == safe_name(s@),
{
    let cs = chars_of(s);
    let mut mapped: Vec<char> = Vec::new();
    let mut i: usize = 0;
    while i < cs.len()
        invariant
            cs@ == s@,
            i <= cs@.len(),
            mapped@ == s@.take(i as int).map_values(|c: char| safe_char(c)),
        decreases cs@.len() - i,
    {
        mapped.push(replace_reserved(cs[i]));
        assert(s@.take(i + 1).map_values(|c: char| safe_char(c)) =~= s@.take(
            i as int,
        ).map_values(|c: char| safe_char(c)).push(safe_char(s@[i as int])));
        i = i + 1;
    }
    assert(s@.take(cs@.len() as int) =~= s@);
    let mut once = trimmed(&mapped);
    drop_trailing_dots(&mut once);
    let twice = trimmed(&once);
    string_of(twice.as_slice())
}

// ---------------------------------------------------------------------
// What a filtered name is
// ---------------------------------------------------------------------

proof fn lemma_trim_end_ws_prefix(s: Seq<char>)
    ensures
        trim_end_ws(s).len() <= s.len(),
        trim_end_ws(s) == s.take(trim_end_ws(s).len() as int),
        trim_end_ws(s).len() > 0 ==> !is_white_space(trim_end_ws(s).last()),
    decreases s.len(),
{
    if s.len() > 0 && is_white_space(s.last()) {
        lemma_trim_end_ws_prefix(s.drop_last());
        assert(s.drop_last().take(trim_end_ws(s).len() as int) =~= s.take(
            trim_end_ws(s).len() as int,
        ));
    } else {
        assert(s.take(s.len() as int) =~= s);
    }
}

proof fn lemma_trim_end_dots_prefix(s: Seq<char>)
    ensures
        trim_end_dots(s).len() <= s.len(),
        trim_end_dots(s) == s.take(trim_end_dots(s).len() as int),
    decreases s.len(),
{
    if s.len() > 0 && s.last() == '.' {
        lemma_trim_end_dots_prefix(s.drop_last());
        assert(s.drop_last().take(trim_end_dots(s).len() as int) =~= s.take(
            trim_end_dots(s).len() as int,
        ));
    } else {
        assert(s.take(s.len() as int) =~= s);
    }
}

proof fn lemma_trim_start_ws_suffix(s: Seq<char>)
    ensures
        trim_start_ws(s).len() <= s.len(),
        trim_start_ws(s) == s.skip(s.len() - trim_start_ws(s).len()),
        trim_start_ws(s).len() > 0 ==> !is_white_space(trim_start_ws(s)[0]),
    decreases s.len(),
{
    if s.len() > 0 && is_white_space(s[0]) {
        lemma_trim_start_ws_suffix(s.drop_first());
        assert(s.drop_first().skip(s.drop_first().len() - trim_start_ws(s).len()) =~= s.skip(
            s.len() - trim_start_ws(s).len(),
        ));
    } else {
        assert(s.skip(0) =~= s);
    }
}

proof fn lemma_trim_ws_shape(s: Seq<char>)
    ensures
        trim_ws(s).len() <= s.len(),
        forall|i: int|
            0 <= i < trim_ws(s).len() ==> exists|j: int| 0 <= j < s.len() && #[trigger] trim_ws(s)[i] == s[j],
        trim_ws(s).len() > 0 ==> !is_white_space(trim_ws(s)[0]),
        trim_ws(s).len() > 0 ==> !is_white_space(trim_ws(s).last()),
{
    let t = trim_start_ws(s);
    lemma_trim_start_ws_suffix(s);
    lemma_trim_end_ws_prefix(t);
    let off = s.len() - t.len();
    assert forall|i: int| 0 <= i < trim_ws(s).len() implies exists|j: int|
        0 <= j < s.len() && #[trigger] trim_ws(s)[i] == s[j] by {
        assert(trim_ws(s)[i] == t[i]);
        assert(t[i] == s[i + off]);
    }
    if trim_ws(s).len() > 0 {
        assert(trim_ws(s)[0] == t[0]);
    }
}

/// A name that is already clean (no reserved character, no white space
/// at either end, no trailing dot) is left as it is.
pub proof fn lemma_clean_name_unchanged(s: Seq<char>)
    requires
        forall|i: int| 0 <= i < s.len() ==> !is_reserved(#[trigger] s[i]),
        s.len() > 0 ==> !is_white_space(s[0]) && !is_white_space(s.last()) && s.last() != '.',
    ensures
        safe_name(s) == s,
{
    let m = s.map_values(|c: char| safe_char(c));
    assert forall|i: int| 0 <= i < s.len() implies m[i] == s[i] by {
        assert(!is_reserved(s[i]));
    }
    assert(m =~= s);
    assert(trim_start_ws(s) == s);
    assert(trim_end_ws(s) == s);
    assert(trim_end_dots(s) == s);
}

/// When nothing needs trimming, making a name safe replaces each reserved
/// character in place by one other character and keeps every other
/// character where it is.
pub proof fn lemma_safe_name_replaces_in_place(s: Seq<char>)
    requires
        s.len() > 0 ==> !is_white_space(s[0]) && s[0] != '/' && s[0] != '\\',
        s.len() > 0 ==> !is_white_space(s.last()) && s.last() != '/' && s.last() != '\\'
            && s.last() != '.',
    ensures
        safe_name(s).len() == s.len(),
        forall|i: int| 0 <= i < s.len() && !is_reserved(s[i]) ==> #[trigger] safe_name(s)[i] == s[i],
        forall|i: int| 0 <= i < s.len() && is_reserved(s[i]) ==> !is_reserved(#[trigger] safe_name(s)[i]),
{
    let m = s.map_values(|c: char| safe_char(c));
    if s.len() > 0 {
        assert(m[0] == safe_char(s[0]));
        assert(m.last() == safe_char(s.last()));
        assert(!is_white_space(m[0]));
        assert(!is_white_space(m.last()));
        assert(m.last() != '.');
    }
    assert(trim_start_ws(m) == m);
    assert(trim_end_ws(m) == m);
    assert(trim_end_dots(m) == m);
    assert(safe_name(s) == m);
    assert forall|i: int| 0 <= i < s.len() && is_reserved(s[i]) implies !is_reserved(#[trigger] safe_name(s)[i]) by {
        assert(m[i] == safe_char(s[i]));
    }
    assert forall|i: int| 0 <= i < s.len() && !is_reserved(s[i]) implies #[trigger] safe_name(s)[i] == s[i] by {
        assert(m[i] == safe_char(s[i]));
    }
}

/// A name never grows when it is made safe.
pub proof fn lemma_safe_name_not_longer(s: Seq<char>)
    ensures
        safe_name(s).len() <= s.len(),
{
    let m = s.map_values(|c: char| safe_char(c));
    lemma_trim_ws_shape(m);
    lemma_trim_end_dots_prefix(trim_ws(m));
    lemma_trim_ws_shape(trim_end_dots(trim_ws(m)));
}

/// A name made by `filename_filter` holds no reserved character and has no
/// white space at either end.
pub proof fn lemma_safe_name_is_clean(s: Seq<char>)
    ensures
        forall|i: int| 0 <= i < safe_name(s).len() ==> !is_reserved(#[trigger] safe_name(s)[i]),
        safe_name(s).len() > 0 ==> !is_white_space(safe_name(s)[0]),
        safe_name(s).len() > 0 ==> !is_white_space(safe_name(s).last()),
{
    let m = s.map_values(|c: char| safe_char(c));
    assert forall|j: int| 0 <= j < m.len() implies !is_reserved(#[trigger] m[j]) by {
        assert(m[j] == safe_char(s[j]));
    }
    let a = trim_ws(m);
    lemma_trim_ws_shape(m);
    assert forall|j: int| 0 <= j < a.len() implies !is_reserved(#[trigger] a[j]) by {
        let k = choose|k: int| 0 <= k < m.len() && a[j] == m[k];
        assert(!is_reserved(m[k]));
    }
    let b = trim_end_dots(a);
    lemma_trim_end_dots_prefix(a);
    assert forall|j: int| 0 <= j < b.len() implies !is_reserved(#[trigger] b[j]) by {
        assert(b[j] == a[j]);
    }
    let c = trim_ws(b);
    lemma_trim_ws_shape(b);
    assert forall|j: int| 0 <= j < c.len() implies !is_reserved(#[trigger] c[j]) by {
        let k = choose|k: int| 0 <= k < b.len() && c[j] == b[k];
        assert(!is_reserved(b[k]));
    }
}

} // verus!
