//! Placeholder expansion in environment values and the accounting of
//! bounded file reads.
use vstd::prelude::*;
use vstd::utf8::*;

use crate::text::{
    byte_len, bytes_of, chars_of, concat, string_from_chars, truncate_safe, truncated,
};

verus! {

/// Where `c` first occurs in `s`, or -1.
pub open spec fn first_index_of(s: Seq<char>, c: char) -> int
    decreases s.len(),
{
    if s.len() == 0 {
        -1
    } else if s[0] == c {
        0
    } else {
        let r = first_index_of(s.drop_first(), c);
        if r < 0 {
            -1
        } else {
            r + 1
        }
    }
}

/// The opening of a placeholder.
pub open spec fn placeholder_open() -> Seq<char> {
    seq!['$', '{', 'e', 'n', 'v', ':']
}

/// Where the placeholder `${env:NAME}` that starts `s` ends, just after its
/// closing brace; NAME holds at least one character and no `}`.
pub open spec fn placeholder_end(s: Seq<char>) -> Option<int> {
    if s.len() >= 6 && s.subrange(0, 6) == placeholder_open() {
        let j = first_index_of(s.subrange(6, s.len() as int), '}');
        if j >= 1 {
            Some(7 + j)
        } else {
            None
        }
    } else {
        None
    }
}

/// The value of the first variable named `name`, if any.
pub open spec fn lookup(vars: Seq<(Seq<char>, Seq<char>)>, name: Seq<char>) -> Option<Seq<char>>
    decreases vars.len(),
{
    if vars.len() == 0 {
        None
    } else if vars[0].0 == name {
        Some(vars[0].1)
    } else {
        lookup(vars.drop_first(), name)
    }
}

/// What a placeholder naming `name` becomes: the variable's value, or
/// `${NAME}` when it is not set.
pub open spec fn substitute(vars: Seq<(Seq<char>, Seq<char>)>, name: Seq<char>) -> Seq<char> {
    match lookup(vars, name) {
        Some(v) => v,
        None => seq!['$', '{'] + name + seq!['}'],
    }
}

/// `s` with every placeholder `${env:NAME}`, left to right, replaced.
pub open spec fn expanded(s: Seq<char>, vars: Seq<(Seq<char>, Seq<char>)>) -> Seq<char>
    decreases s.len(),
{
    if s.len() == 0 {
        s
    } else {
        match placeholder_end(s) {
            Some(e) => if 7 < e <= s.len() {
                substitute(vars, s.subrange(6, e - 1)) + expanded(s.subrange(e, s.len() as int), vars)
            } else {
                s
            },
            None => seq![s[0]] + expanded(s.subrange(1, s.len() as int), vars),
        }
    }
}

/// The variables of an environment, as text.
pub open spec fn vars_view(v: Seq<(String, String)>) -> Seq<(Seq<char>, Seq<char>)> {
    v.map_values(|p: (String, String)| (p.0@, p.1@))
}

proof fn lemma_first_index_bounds(s: Seq<char>, c: char)
    ensures
        -1 <= first_index_of(s, c) < s.len(),
        first_index_of(s, c) >= 0 ==> s[first_index_of(s, c)] == c,
        forall|k: int| 0 <= k < s.len() && (first_index_of(s, c) < 0 || k < first_index_of(s, c)) ==> s[k] != c,
    decreases s.len(),
{
    if s.len() > 0 && s[0] != c {
        lemma_first_index_bounds(s.drop_first(), c);
        assert forall|k: int| 0 <= k < s.len() && (first_index_of(s, c) < 0 || k < first_index_of(s, c)) implies s[k] != c by {
            if k > 0 {
                assert(s[k] == s.drop_first()[k - 1]);
            }
        }
    }
}

/// Finds the end of a placeholder that starts at `i`.
fn placeholder_end_at(s: &Vec<char>, i: usize) -> (r: Option<usize>)
    requires
        i < s@.len(),
    ensures
        r is None <==> placeholder_end(s@.subrange(i as int, s@.len() as int)) is None,
        r matches Some(e) ==> placeholder_end(s@.subrange(i as int, s@.len() as int)) == Some(e - i)
            && i + 7 < e + 0 + 1 && e <= s@.len(),
{
    let ghost t = s@.subrange(i as int, s@.len() as int);
    let n = s.len();
    if n - i < 6 || s[i] != '$' || s[i + 1] != '{' || s[i + 2] != 'e' || s[i + 3] != 'n' || s[i + 4]
        != 'v' || s[i + 5] != ':' {
        proof {
            if t.len() >= 6 && t.subrange(0, 6) == placeholder_open() {
                assert(t.subrange(0, 6)[0] == '$');
                assert(t.subrange(0, 6)[1] == '{');
                assert(t.subrange(0, 6)[2] == 'e');
                assert(t.subrange(0, 6)[3] == 'n');
                assert(t.subrange(0, 6)[4] == 'v');
                assert(t.subrange(0, 6)[5] == ':');
            }
        }
        return None;
    }
    proof {
        assert(t.subrange(0, 6) =~= placeholder_open());
    }
    let ghost u = t.subrange(6, t.len() as int);
    proof {
        lemma_first_index_bounds(u, '}');
    }
    let mut k = i + 6;
    while k < n && s[k] != '}'
        invariant
            n == s@.len(),
            i + 6 <= k <= n,
            u == s@.subrange(i + 6, n as int),
            forall|m: int| i + 6 <= m < k ==> s@[m] != '}',
        decreases n - k,
    {
        k = k + 1;
    }
    proof {
        if k < n {
            assert(u[k - i - 6] == '}');
            assert(forall|m: int| 0 <= m < k - i - 6 ==> u[m] == s@[i + 6 + m]);
            if first_index_of(u, '}') < k - i - 6 {
                assert(u[first_index_of(u, '}')] == s@[i + 6 + first_index_of(u, '}')]);
            }
            assert(first_index_of(u, '}') == k - i - 6);
        } else {
            if first_index_of(u, '}') >= 0 {
                assert(u[first_index_of(u, '}')] == s@[i + 6 + first_index_of(u, '}')]);
            }
            assert(first_index_of(u, '}') == -1);
        }
    }
    if k == n || k == i + 6 {
        return None;
    }
    Some(k + 1)
}

/// The value of the first variable named `name`.
fn find_var<'a>(vars: &'a Vec<(String, String)>, name: &str) -> (r: Option<&'a String>)
    ensures
        lookup(vars_view(vars@), name@) is None <==> r is None,
        r matches Some(v) ==> lookup(vars_view(vars@), name@) == Some(v@),
{
    let mut i: usize = 0;
    assert(vars_view(vars@).skip(0) == vars_view(vars@));
    while i < vars.len()
        invariant
            0 <= i <= vars@.len(),
            lookup(vars_view(vars@), name@) == lookup(vars_view(vars@).skip(i as int), name@),
        decreases vars@.len() - i,
    {
        let ghost rest = vars_view(vars@).skip(i as int);
        proof {
            assert(rest.drop_first() == vars_view(vars@).skip(i + 1));
        }
        if vars[i].0.eq(&name.to_owned()) {
            return Some(&vars[i].1);
        }
        i = i + 1;
    }
    None
}

/// Replaces each placeholder `${env:NAME}` in `value` with the value of
/// the variable NAME among `vars`, or with `${NAME}` when none is set.
pub fn expand_value(value: &str, vars: &Vec<(String, String)>) -> (r: String)
    ensures
        r@ == expanded(value@, vars_view(vars@)),
{
    let s = chars_of(value);
    let ghost vv = vars_view(vars@);
    let mut out: Vec<char> = Vec::new();
    let mut i: usize = 0;
    proof {
        assert(s@.subrange(0, s@.len() as int) == s@);
        assert(Seq::<char>::empty() + s@ == s@);
    }
    while i < s.len()
        invariant
            0 <= i <= s@.len(),
            vv == vars_view(vars@),
            expanded(value@, vv) == out@ + expanded(s@.subrange(i as int, s@.len() as int), vv),
            s@ == value@,
        decreases s@.len() - i,
    {
        let ghost t = s@.subrange(i as int, s@.len() as int);
        let ghost before = out@;
        match placeholder_end_at(&s, i) {
            Some(e) => {
                let mut name_chars: Vec<char> = Vec::new();
                let mut k = i + 6;
                while k < e - 1
                    invariant
                        i + 6 <= k <= e - 1,
                        e <= s@.len(),
                        name_chars@ == s@.subrange(i + 6, k as int),
                    decreases e - 1 - k,
                {
                    name_chars.push(s[k]);
                    proof {
                        assert(s@.subrange(i + 6, k + 1) == s@.subrange(i + 6, k as int).push(s@[k as int]));
                    }
                    k = k + 1;
                }
                let name = string_from_chars(name_chars.as_slice());
                proof {
                    assert(t.subrange(6, e - i - 1) =~= s@.subrange(i + 6, e - 1));
                    assert(t.subrange(e - i, t.len() as int) =~= s@.subrange(e as int, s@.len() as int));
                }
                match find_var(vars, name.as_str()) {
                    Some(v) => {
                        let vc = chars_of(v.as_str());
                        let mut m: usize = 0;
                        while m < vc.len()
                            invariant
                                0 <= m <= vc@.len(),
                                out@ == before + vc@.subrange(0, m as int),
                            decreases vc@.len() - m,
                        {
                            out.push(vc[m]);
                            proof {
                                assert(vc@.subrange(0, m + 1) == vc@.subrange(0, m as int).push(vc@[m as int]));
                            }
                            m = m + 1;
                        }
                        proof {
                            assert(vc@.subrange(0, vc@.len() as int) == vc@);
                        }
                    },
                    None => {
                        out.push('$');
                        out.push('{');
                        let mut m: usize = 0;
                        while m < name_chars.len()
                            invariant
                                0 <= m <= name_chars@.len(),
                                out@ == before + seq!['$', '{'] + name_chars@.subrange(0, m as int),
                            decreases name_chars@.len() - m,
                        {
                            out.push(name_chars[m]);
                            proof {
                                assert(name_chars@.subrange(0, m + 1) == name_chars@.subrange(0, m as int).push(name_chars@[m as int]));
                            }
                            m = m + 1;
                        }
                        out.push('}');
                        proof {
                            assert(name_chars@.subrange(0, name_chars@.len() as int) == name_chars@);
                            assert(out@ =~= before + (seq!['$', '{'] + name_chars@ + seq!['}']));
                        }
                    },
                }
                proof {
                    assert(out@ == before + substitute(vv, t.subrange(6, e - i - 1)));
                    assert(expanded(t, vv) == substitute(vv, t.subrange(6, e - i - 1)) + expanded(
                        s@.subrange(e as int, s@.len() as int),
                        vv,
                    ));
                    assert(before + (substitute(vv, t.subrange(6, e - i - 1)) + expanded(
                        s@.subrange(e as int, s@.len() as int),
                        vv,
                    )) =~= out@ + expanded(s@.subrange(e as int, s@.len() as int), vv));
                }
                i = e;
            },
            None => {
                out.push(s[i]);
                proof {
                    assert(t.subrange(1, t.len() as int) =~= s@.subrange(i + 1, s@.len() as int));
                    assert(out@ + expanded(s@.subrange(i + 1, s@.len() as int), vv) =~= before + (
                    seq![t[0]] + expanded(t.subrange(1, t.len() as int), vv)));
                }
                i = i + 1;
            },
        }
    }
    proof {
        assert(s@.subrange(s@.len() as int, s@.len() as int) == Seq::<char>::empty());
        assert(out@ + Seq::<char>::empty() == out@);
    }
    string_from_chars(out.as_slice())
}

/// Expands the placeholders in every value of `env_vars`, looking names
/// up among `vars`. Names and order stay as they are.
pub fn expand_env_vars_impl(env_vars: &mut Vec<(String, String)>, vars: &Vec<(String, String)>)
    ensures
        final(env_vars)@.len() == old(env_vars)@.len(),
        forall|i: int|
            0 <= i < final(env_vars)@.len() ==> (#[trigger] final(env_vars)@[i]).0@ == old(env_vars)@[i].0@
                && final(env_vars)@[i].1@ == expanded(old(env_vars)@[i].1@, vars_view(vars@)),
{
    let ghost orig = env_vars@;
    let mut i: usize = 0;
    while i < env_vars.len()
        invariant
            0 <= i <= env_vars@.len(),
            env_vars@.len() == orig.len(),
            forall|j: int| i <= j < orig.len() ==> #[trigger] env_vars@[j] == orig[j],
            forall|j: int|
                0 <= j < i ==> (#[trigger] env_vars@[j]).0@ == orig[j].0@ && env_vars@[j].1@
                    == expanded(orig[j].1@, vars_view(vars@)),
        decreases orig.len() - i,
    {
        let v = expand_value(env_vars[i].1.as_str(), vars);
        let name = env_vars[i].0.clone();
        env_vars.set(i, (name, v));
        i = i + 1;
    }
}

/// The content and truncated byte count of a read of at most
/// `max_file_length` bytes from a file of `file_len` bytes: when the file
/// is longer, the content is cut to leave room for `suffix` and ends with
/// it, the whole within `max` bytes, and the count covers what was cut;
/// when even `suffix` does not fit, nothing is returned and the whole file
/// counts as cut.
pub open spec fn limited(content: Seq<char>, file_len: u64, max: u64, suffix: Seq<char>) -> (Seq<char>, int) {
    if file_len <= max {
        (content, 0)
    } else if bytes_of(suffix).len() > max {
        (Seq::empty(), file_len as int)
    } else {
        let kept = if bytes_of(content).len() <= max {
            bytes_of(content).len() as int
        } else {
            max as int
        };
        let keep = if kept >= bytes_of(suffix).len() {
            kept - bytes_of(suffix).len()
        } else {
            0
        };
        (truncated(content, keep) + suffix, file_len - max + bytes_of(suffix).len())
    }
}

/// Finishes a bounded read: `content` holds what was read, at most
/// `max_file_length` bytes of a file of `file_len` bytes.
pub fn limit_content(content: &str, file_len: u64, max_file_length: u64, suffix: &str) -> (r: (String, u64))
    ensures
        r.0@ == limited(content@, file_len, max_file_length, suffix@).0,
        r.1 == limited(content@, file_len, max_file_length, suffix@).1,
        file_len > max_file_length ==> bytes_of(r.0@).len() <= max_file_length,
{
    if file_len <= max_file_length {
        return (content.to_owned(), 0);
    }
    let sl = byte_len(suffix);
    if sl as u64 > max_file_length {
        return (String::new(), file_len);
    }
    let cl = byte_len(content);
    let kept: usize = if (cl as u64) <= max_file_length { cl } else { max_file_length as usize };
    let keep = if kept >= sl { kept - sl } else { 0 };
    let head = truncate_safe(content, keep);
    proof {
        crate::text::lemma_truncated_is_char_prefix(content@, keep as int);
        crate::text::lemma_bytes_of_concat(head@, suffix@);
    }
    (concat(head, suffix), file_len - max_file_length + sl as u64)
}

/// What bstr's lossy decoding makes of some bytes: the same text where
/// they are valid UTF-8, a replacement character for each invalid part.
pub uninterp spec fn lossy_utf8(b: Seq<u8>) -> Seq<char>;

/// Relies on bstr's `ByteSlice::to_str_lossy`: valid UTF-8 decodes as is,
/// and the result depends on the bytes alone.
#[verifier::external_body]
pub(crate) fn decode_lossy(b: &[u8]) -> (r: String)
    ensures
        r@ == lossy_utf8(b@),
        valid_utf8(b@) ==> r@ == decode_utf8(b@),
{
    bstr::ByteSlice::to_str_lossy(b).into_owned()
}

/// Finishes a bounded read from the raw bytes read.
pub fn limit_bytes(bytes: &Vec<u8>, file_len: u64, max_file_length: u64, suffix: &str) -> (r: (String, u64))
    ensures
        r.0@ == limited(lossy_utf8(bytes@), file_len, max_file_length, suffix@).0,
        r.1 == limited(lossy_utf8(bytes@), file_len, max_file_length, suffix@).1,
        file_len > max_file_length ==> bytes_of(r.0@).len() <= max_file_length,
        valid_utf8(bytes@) ==> lossy_utf8(bytes@) == decode_utf8(bytes@),
{
    let content = decode_lossy(bytes.as_slice());
    limit_content(content.as_str(), file_len, max_file_length, suffix)
}

} // verus!
