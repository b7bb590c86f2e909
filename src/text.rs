//! UTF-8 safe truncation and bounded reads.
use vstd::prelude::*;
use vstd::std_specs::iter::IteratorSpec;
use vstd::string::*;
use vstd::utf8::*;

verus! {

broadcast use group_utf8_lib, group_string_axioms;

/// The UTF-8 encoding of a character sequence.
pub open spec fn bytes_of(s: Seq<char>) -> Seq<u8> {
    encode_utf8(s)
}

/// The encoding of two texts one after the other is their encodings one
/// after the other.
pub proof fn lemma_bytes_of_concat(a: Seq<char>, b: Seq<char>)
    ensures
        bytes_of(a + b) == bytes_of(a) + bytes_of(b),
    decreases a.len(),
{
    if a.len() == 0 {
        assert(a + b == b);
        assert(Seq::<u8>::empty() + bytes_of(b) == bytes_of(b));
    } else {
        lemma_bytes_of_concat(a.drop_first(), b);
        assert((a + b).drop_first() == a.drop_first() + b);
        assert((a + b)[0] == a[0]);
        assert(bytes_of(a + b) =~= bytes_of(a) + bytes_of(b));
    }
}

/// The largest character boundary of `b` that is at most `n`.
pub open spec fn floor_boundary(b: Seq<u8>, n: int) -> int
    decreases n,
{
    if n <= 0 {
        0
    } else if is_char_boundary(b, n) {
        n
    } else {
        floor_boundary(b, n - 1)
    }
}

/// `s` cut to at most `n` bytes of encoding without splitting a character.
pub open spec fn truncated(s: Seq<char>, n: int) -> Seq<char> {
    if bytes_of(s).len() <= n {
        s
    } else {
        decode_utf8(bytes_of(s).subrange(0, floor_boundary(bytes_of(s), n)))
    }
}

proof fn lemma_floor_boundary(b: Seq<u8>, n: int)
    requires
        valid_utf8(b),
        0 <= n <= b.len(),
    ensures
        0 <= floor_boundary(b, n) <= n,
        is_char_boundary(b, floor_boundary(b, n)),
        forall|j: int| floor_boundary(b, n) < j <= n ==> !is_char_boundary(b, j),
    decreases n,
{
    is_char_boundary_start_end_of_seq(b);
    if n > 0 && !is_char_boundary(b, n) {
        lemma_floor_boundary(b, n - 1);
    }
}

/// Truncation keeps a prefix of the characters, never splits a character,
/// and fits in the byte budget.
pub proof fn lemma_truncated_is_char_prefix(s: Seq<char>, n: int)
    requires
        n >= 0,
    ensures
        truncated(s, n).len() <= s.len(),
        truncated(s, n) == s.subrange(0, truncated(s, n).len() as int),
        bytes_of(truncated(s, n)).len() <= n,
        bytes_of(s) == bytes_of(truncated(s, n)) + bytes_of(
            s.subrange(truncated(s, n).len() as int, s.len() as int),
        ),
{
    let b = bytes_of(s);
    encode_utf8_valid_utf8(s);
    encode_utf8_decode_utf8(s);
    if b.len() > n {
        lemma_floor_boundary(b, n);
        let k = floor_boundary(b, n);
        decode_utf8_split(b, k);
        valid_utf8_split(b, k);
        let p = decode_utf8(b.subrange(0, k));
        let q = decode_utf8(b.subrange(k, b.len() as int));
        assert(s == p + q);
        assert(p == s.subrange(0, p.len() as int));
        assert(q == s.subrange(p.len() as int, s.len() as int));
        decode_utf8_encode_utf8(b.subrange(0, k));
        decode_utf8_encode_utf8(b.subrange(k, b.len() as int));
        assert(b.subrange(0, k) + b.subrange(k, b.len() as int) == b);
    } else {
        assert(s.subrange(0, s.len() as int) == s);
        assert(s.subrange(s.len() as int, s.len() as int) == Seq::<char>::empty());
        assert(b + bytes_of(Seq::<char>::empty()) == b);
    }
}

/// The length of `s` in bytes.
pub fn byte_len(s: &str) -> (n: usize)
    ensures
        n == bytes_of(s@).len(),
{
    s.as_bytes().len()
}

/// Returns the longest prefix of `s` that fits in `max_bytes` bytes and
/// ends on a character boundary.
pub fn truncate_safe(s: &str, max_bytes: usize) -> (r: &str)
    ensures
        r@ == truncated(s@, max_bytes as int),
{
    if byte_len(s) <= max_bytes {
        return s;
    }
    let ghost b = s.spec_bytes();
    proof {
        encode_utf8_valid_utf8(s@);
        is_char_boundary_start_end_of_seq(b);
    }
    let mut k: usize = max_bytes;
    while !s.is_char_boundary(k)
        invariant
            b == s.spec_bytes(),
            valid_utf8(b),
            k <= max_bytes < b.len(),
            floor_boundary(b, max_bytes as int) == floor_boundary(b, k as int),
        decreases k,
    {
        k = k - 1;
    }
    let (head, _) = s.split_at(k);
    proof {
        decode_utf8_encode_utf8(head.spec_bytes());
        encode_utf8_decode_utf8(head@);
    }
    head
}

/// Truncates `s` to at most `max_bytes` bytes, ending it with `suffix` when
/// it was cut. When `suffix` alone is longer than `max_bytes`, `s` becomes
/// the truncated `suffix`.
pub fn truncate_safe_in_place(s: &mut String, max_bytes: usize, suffix: &str)
    ensures
        bytes_of(old(s)@).len() <= max_bytes ==> final(s)@ == old(s)@,
        bytes_of(old(s)@).len() > max_bytes && bytes_of(suffix@).len() > max_bytes
            ==> final(s)@ == truncated(suffix@, max_bytes as int),
        bytes_of(old(s)@).len() > max_bytes && bytes_of(suffix@).len() <= max_bytes
            ==> final(s)@ == truncated(old(s)@, max_bytes - bytes_of(suffix@).len()) + suffix@,
{
    if byte_len(s.as_str()) <= max_bytes {
        return;
    }
    if byte_len(suffix) > max_bytes {
        *s = truncate_safe(suffix, max_bytes).to_owned();
        return;
    }
    let mut r = truncate_safe(s.as_str(), max_bytes - byte_len(suffix)).to_owned();
    r.append(suffix);
    *s = r;
}

/// The characters of `s`, in order.
pub fn chars_of(s: &str) -> (r: Vec<char>)
    ensures
        r@ == s@,
{
    let mut v: Vec<char> = Vec::new();
    let mut it = s.chars();
    loop
        invariant
            v@ + it.remaining() == s@,
            it.decrease() is Some,
        ensures
            v@ == s@,
        decreases it.decrease()->0,
    {
        match it.next() {
            Some(c) => {
                v.push(c);
            },
            None => {
                assert(v@ + it.remaining() =~= v@);
                break ;
            },
        }
    }
    v
}

/// Relies on std's `FromIterator<char>` for `String`: the string holds the
/// characters in order.
#[verifier::external_body]
pub(crate) fn string_from_chars(v: &[char]) -> (r: String)
    ensures
        r@ == v@,
{
    v.iter().collect()
}

/// `parts` with `sep` between each two of them.
pub open spec fn joined(parts: Seq<Seq<char>>, sep: Seq<char>) -> Seq<char>
    decreases parts.len(),
{
    if parts.len() == 0 {
        Seq::empty()
    } else if parts.len() == 1 {
        parts[0]
    } else {
        joined(parts.drop_last(), sep) + sep + parts.last()
    }
}

/// The views of a sequence of strings.
pub open spec fn views(v: Seq<String>) -> Seq<Seq<char>> {
    v.map_values(|s: String| s@)
}

/// Joins `parts` with `sep` between each two of them.
pub fn join(parts: &Vec<String>, sep: &str) -> (r: String)
    ensures
        r@ == joined(views(parts@), sep@),
{
    let mut r = String::new();
    let mut i: usize = 0;
    while i < parts.len()
        invariant
            0 <= i <= parts@.len(),
            r@ == joined(views(parts@).take(i as int), sep@),
        decreases parts@.len() - i,
    {
        if i > 0 {
            r.append(sep);
        }
        r.append(parts[i].as_str());
        proof {
            let vs = views(parts@);
            assert(vs.take(i + 1).drop_last() == vs.take(i as int));
            if i == 0 {
                assert(r@ == Seq::<char>::empty() + vs[0]);
                assert(Seq::<char>::empty() + vs[0] == vs[0]);
            }
        }
        i = i + 1;
    }
    proof {
        assert(views(parts@).take(parts@.len() as int) == views(parts@));
    }
    r
}

/// The decimal digit for `d`.
pub open spec fn digit_char(d: nat) -> char {
    if d == 0 { '0' }
    else if d == 1 { '1' }
    else if d == 2 { '2' }
    else if d == 3 { '3' }
    else if d == 4 { '4' }
    else if d == 5 { '5' }
    else if d == 6 { '6' }
    else if d == 7 { '7' }
    else if d == 8 { '8' }
    else { '9' }
}

/// The decimal notation of `n`, without leading zeros.
pub open spec fn decimal(n: nat) -> Seq<char>
    decreases n,
{
    if n < 10 {
        seq![digit_char(n)]
    } else {
        decimal(n / 10) + seq![digit_char(n % 10)]
    }
}

/// The decimal notation of `n`, with a minus sign when negative.
pub open spec fn signed_decimal(n: int) -> Seq<char> {
    if n < 0 {
        seq!['-'] + decimal((-n) as nat)
    } else {
        decimal(n as nat)
    }
}

fn push_decimal(n: u128, out: &mut Vec<char>)
    ensures
        final(out)@ == old(out)@ + decimal(n as nat),
    decreases n,
{
    if n >= 10 {
        push_decimal(n / 10, out);
    }
    let d = n % 10;
    let c = if d == 0 { '0' }
        else if d == 1 { '1' }
        else if d == 2 { '2' }
        else if d == 3 { '3' }
        else if d == 4 { '4' }
        else if d == 5 { '5' }
        else if d == 6 { '6' }
        else if d == 7 { '7' }
        else if d == 8 { '8' }
        else { '9' };
    out.push(c);
}

/// The decimal notation of `n`.
pub fn decimal_string(n: u128) -> (r: String)
    ensures
        r@ == decimal(n as nat),
{
    let mut v: Vec<char> = Vec::new();
    push_decimal(n, &mut v);
    proof {
        assert(Seq::<char>::empty() + decimal(n as nat) == decimal(n as nat));
    }
    string_from_chars(v.as_slice())
}

/// The decimal notation of `n`, signed.
pub fn signed_decimal_string(n: i64) -> (r: String)
    ensures
        r@ == signed_decimal(n as int),
{
    let mut v: Vec<char> = Vec::new();
    if n < 0 {
        v.push('-');
        let m: u128 = (0i128 - n as i128) as u128;
        push_decimal(m, &mut v);
    } else {
        push_decimal(n as u128, &mut v);
        proof {
            assert(Seq::<char>::empty() + decimal(n as nat) == decimal(n as nat));
        }
    }
    string_from_chars(v.as_slice())
}

/// Appends `b` to `a`.
pub fn concat(a: &str, b: &str) -> (r: String)
    ensures
        r@ == a@ + b@,
{
    let mut r = a.to_owned();
    r.append(b);
    r
}

} // verus!
