//! Glob patterns over paths: `*` matches any run of characters, `?` any
//! one character, and every other character itself. A path matches a
//! pattern when the whole path or its final component does.
use vstd::prelude::*;

use crate::text::chars_of;

verus! {

/// Whether the pattern `p` matches all of `s`.
pub open spec fn glob_match(p: Seq<char>, s: Seq<char>) -> bool
    decreases p.len() + s.len(),
{
    if p.len() == 0 {
        s.len() == 0
    } else if p[0] == '*' {
        glob_match(p.drop_first(), s) || (s.len() > 0 && glob_match(p, s.drop_first()))
    } else if s.len() == 0 {
        false
    } else if p[0] == '?' || p[0] == s[0] {
        glob_match(p.drop_first(), s.drop_first())
    } else {
        false
    }
}

/// The final component of a path: what follows its last `/`.
pub open spec fn file_name(s: Seq<char>) -> Seq<char>
    decreases s.len(),
{
    if s.len() == 0 {
        s
    } else if s.last() == '/' {
        Seq::empty()
    } else {
        file_name(s.drop_last()).push(s.last())
    }
}

/// Whether `p` matches the path `s` or its final component.
pub open spec fn path_matches(p: Seq<char>, s: Seq<char>) -> bool {
    glob_match(p, s) || glob_match(p, file_name(s))
}

/// Whether any of `patterns` matches the path `s`.
pub open spec fn matches_any(patterns: Seq<Seq<char>>, s: Seq<char>) -> bool {
    exists|i: int| 0 <= i < patterns.len() && path_matches(#[trigger] patterns[i], s)
}

fn glob_from(p: &Vec<char>, i: usize, s: &Vec<char>, j: usize) -> (b: bool)
    requires
        i <= p@.len(),
        j <= s@.len(),
    ensures
        b == glob_match(p@.subrange(i as int, p@.len() as int), s@.subrange(j as int, s@.len() as int)),
    decreases (p@.len() - i) + (s@.len() - j),
{
    let ghost ps = p@.subrange(i as int, p@.len() as int);
    let ghost ss = s@.subrange(j as int, s@.len() as int);
    proof {
        if i < p@.len() {
            assert(ps.drop_first() =~= p@.subrange(i + 1, p@.len() as int));
        }
        if j < s@.len() {
            assert(ss.drop_first() =~= s@.subrange(j + 1, s@.len() as int));
        }
    }
    if i == p.len() {
        return j == s.len();
    }
    if p[i] == '*' {
        if glob_from(p, i + 1, s, j) {
            return true;
        }
        return j < s.len() && glob_from(p, i, s, j + 1);
    }
    if j == s.len() {
        return false;
    }
    if p[i] == '?' || p[i] == s[j] {
        return glob_from(p, i + 1, s, j + 1);
    }
    false
}

/// Whether the glob pattern `pattern` matches all of `text`.
pub fn glob_matches(pattern: &str, text: &str) -> (b: bool)
    ensures
        b == glob_match(pattern@, text@),
{
    let p = chars_of(pattern);
    let s = chars_of(text);
    proof {
        assert(p@.subrange(0, p@.len() as int) == p@);
        assert(s@.subrange(0, s@.len() as int) == s@);
    }
    glob_from(&p, 0, &s, 0)
}

/// The final component of the path `path`.
pub fn file_name_of(path: &str) -> (r: String)
    ensures
        r@ == file_name(path@),
{
    let s = chars_of(path);
    let mut k: usize = s.len();
    proof {
        assert(s@.subrange(0, s@.len() as int) == s@);
        assert(s@.subrange(s@.len() as int, s@.len() as int) == Seq::<char>::empty());
        assert(file_name(s@) + Seq::<char>::empty() == file_name(s@));
    }
    while k > 0 && s[k - 1] != '/'
        invariant
            k <= s@.len(),
            file_name(s@) == file_name(s@.subrange(0, k as int)) + s@.subrange(k as int, s@.len() as int),
        decreases k,
    {
        proof {
            let t = s@.subrange(0, k as int);
            assert(t.drop_last() == s@.subrange(0, k - 1));
            assert(s@.subrange(k - 1, s@.len() as int) == seq![t.last()] + s@.subrange(k as int, s@.len() as int));
            assert(file_name(t) == file_name(t.drop_last()).push(t.last()));
            assert(file_name(t.drop_last()).push(t.last()) + s@.subrange(k as int, s@.len() as int)
                =~= file_name(t.drop_last()) + (seq![t.last()] + s@.subrange(k as int, s@.len() as int)));
        }
        k = k - 1;
    }
    let mut out: Vec<char> = Vec::new();
    let mut i = k;
    while i < s.len()
        invariant
            k <= i <= s@.len(),
            out@ == s@.subrange(k as int, i as int),
        decreases s@.len() - i,
    {
        out.push(s[i]);
        proof {
            assert(s@.subrange(k as int, i + 1) == s@.subrange(k as int, i as int) + seq![s@[i as int]]);
        }
        i = i + 1;
    }
    proof {
        let t = s@.subrange(0, k as int);
        if k > 0 {
            assert(t.last() == '/');
        }
        assert(file_name(t) == Seq::<char>::empty());
        assert(Seq::<char>::empty() + s@.subrange(k as int, s@.len() as int) == s@.subrange(k as int, s@.len() as int));
    }
    crate::text::string_from_chars(out.as_slice())
}

/// Whether `pattern` matches the path or its final component.
pub fn path_matches_pattern(pattern: &str, path: &str) -> (b: bool)
    ensures
        b == path_matches(pattern@, path@),
{
    if glob_matches(pattern, path) {
        return true;
    }
    let name = file_name_of(path);
    glob_matches(pattern, name.as_str())
}

/// Whether any of `patterns` matches the path.
pub fn matches_any_pattern(patterns: &Vec<String>, path: &str) -> (b: bool)
    ensures
        b == matches_any(crate::text::views(patterns@), path@),
{
    let ghost ps = crate::text::views(patterns@);
    let mut i: usize = 0;
    while i < patterns.len()
        invariant
            0 <= i <= patterns@.len(),
            ps == crate::text::views(patterns@),
            forall|k: int| 0 <= k < i ==> !path_matches(#[trigger] ps[k], path@),
        decreases patterns@.len() - i,
    {
        if path_matches_pattern(patterns[i].as_str(), path) {
            assert(path_matches(ps[i as int], path@));
            return true;
        }
        i = i + 1;
    }
    false
}

} // verus!
