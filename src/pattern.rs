use vstd::prelude::*;

use vstd::std_specs::iter::IteratorSpec;

use crate::error::AobScanError;
use crate::image::TextRegion;

verus! {

broadcast use vstd::string::axiom_spec_iter, vstd::string::next_postcondition;

/// The byte that stands for a wildcard position in a compiled signature.
pub const WILDCARD: u8 = 0x00;

/// Unicode white space, the class that `char::is_whitespace` tests.
pub open spec fn is_space(c: char) -> bool {
    let u = c as u32;
    (0x09 <= u && u <= 0x0d) || u == 0x20 || u == 0x85 || u == 0xa0 || u == 0x1680 || (0x2000
        <= u && u <= 0x200a) || u == 0x2028 || u == 0x2029 || u == 0x202f || u == 0x205f || u
        == 0x3000
}

pub open spec fn is_hex_digit(c: char) -> bool {
    ('0' <= c && c <= '9') || ('A' <= c && c <= 'F') || ('a' <= c && c <= 'f')
}

pub open spec fn hex_digit_value(c: char) -> int {
    if '0' <= c && c <= '9' {
        (c as u32) - 0x30
    } else if 'A' <= c && c <= 'F' {
        (c as u32) - 0x41 + 10
    } else {
        (c as u32) - 0x61 + 10
    }
}

/// A two-character token: two hex digits, or the wildcard marker `??`.
pub open spec fn is_token(a: char, b: char) -> bool {
    (is_hex_digit(a) && is_hex_digit(b)) || (a == '?' && b == '?')
}

pub open spec fn token_value(a: char, b: char) -> u8 {
    if a == '?' && b == '?' {
        WILDCARD
    } else {
        (hex_digit_value(a) * 16 + hex_digit_value(b)) as u8
    }
}

/// The signature grammar: tokens of two characters separated by white space.
/// `None` when some token is malformed.
pub open spec fn compile(s: Seq<char>) -> Option<Seq<u8>>
    decreases s.len(),
{
    if s.len() == 0 {
        Some(Seq::empty())
    } else if is_space(s[0]) {
        compile(s.drop_first())
    } else if s.len() >= 2 && is_token(s[0], s[1]) && (s.len() == 2 || is_space(s[2])) {
        match compile(s.subrange(2, s.len() as int)) {
            Some(rest) => Some(seq![token_value(s[0], s[1])] + rest),
            None => None,
        }
    } else {
        None
    }
}

/// The number of maximal runs of non-space characters in `s`, given whether
/// the character before `s` was white space.
pub open spec fn run_count(s: Seq<char>, after_space: bool) -> nat
    decreases s.len(),
{
    if s.len() == 0 {
        0
    } else {
        (if !is_space(s[0]) && after_space { 1nat } else { 0nat }) + run_count(
            s.drop_first(),
            is_space(s[0]),
        )
    }
}

/// The number of white-space separated tokens of `s`.
pub open spec fn token_count(s: Seq<char>) -> nat {
    run_count(s, true)
}

proof fn lemma_run_count_after_space(s: Seq<char>)
    requires
        s.len() == 0 || is_space(s[0]),
    ensures
        run_count(s, false) == run_count(s, true),
{
}

proof fn lemma_compile_length(s: Seq<char>)
    requires
        compile(s) is Some,
    ensures
        compile(s)->Some_0.len() == token_count(s),
    decreases s.len(),
{
    if s.len() == 0 {
    } else if is_space(s[0]) {
        lemma_compile_length(s.drop_first());
    } else {
        let rest = s.subrange(2, s.len() as int);
        lemma_compile_length(rest);
        assert(s.drop_first().drop_first() =~= rest);
        lemma_run_count_after_space(rest);
        assert(run_count(s.drop_first(), false) == run_count(rest, false));
        assert(run_count(s, true) == 1 + run_count(s.drop_first(), false));
    }
}

/// Every token of a pattern that compiles gives exactly one signature byte.
pub proof fn lemma_signature_length_is_token_count(text: Seq<char>)
    requires
        compile(text) is Some,
    ensures
        compile(text)->Some_0.len() == token_count(text),
{
    lemma_compile_length(text);
}

fn is_space_char(c: char) -> (r: bool)
    ensures
        r == is_space(c),
{
    let u = c as u32;
    (0x09 <= u && u <= 0x0d) || u == 0x20 || u == 0x85 || u == 0xa0 || u == 0x1680 || (0x2000
        <= u && u <= 0x200a) || u == 0x2028 || u == 0x2029 || u == 0x202f || u == 0x205f || u
        == 0x3000
}

fn hex_digit(c: char) -> (r: Option<u8>)
    ensures
        is_hex_digit(c) <==> r is Some,
        r is Some ==> r->Some_0 == hex_digit_value(c) && r->Some_0 < 16,
{
    if '0' <= c && c <= '9' {
        Some(((c as u32) - 0x30) as u8)
    } else if 'A' <= c && c <= 'F' {
        Some(((c as u32) - 0x41 + 10) as u8)
    } else if 'a' <= c && c <= 'f' {
        Some(((c as u32) - 0x61 + 10) as u8)
    } else {
        None
    }
}

fn token_byte(a: char, b: char) -> (r: Option<u8>)
    ensures
        is_token(a, b) <==> r is Some,
        r is Some ==> r->Some_0 == token_value(a, b),
{
    if a == '?' && b == '?' {
        return Some(WILDCARD);
    }
    match (hex_digit(a), hex_digit(b)) {
        (Some(hi), Some(lo)) => Some(hi * 16 + lo),
        _ => None,
    }
}

fn chars_of(s: &str) -> (r: Vec<char>)
    ensures
        r@ == s@,
{
    let mut it = s.chars();
    let mut out: Vec<char> = Vec::new();
    loop
        invariant
            out@ + it.remaining() == s@,
            it.decrease() is Some,
        decreases it.decrease()->0,
    {
        match it.next() {
            Some(c) => {
                out.push(c);
                assert(out@ + it.remaining() =~= s@);
            },
            None => {
                assert(out@ =~= s@);
                return out;
            },
        }
    }
}

/// Compiles a signature such as `"48 8B ?? ?? 89"` into its bytes, with
/// `WILDCARD` at each `??` position. A malformed token, or a text with no
/// token at all, is refused.
pub fn convert_pattern(pattern: &str) -> (r: Result<Vec<u8>, AobScanError>)
    ensures
        match r {
            Ok(sig) => compile(pattern@) == Some(sig@) && sig@.len() > 0,
            Err(e) => e == AobScanError::InvalidPattern && (compile(pattern@) is None || compile(
                pattern@,
            )->Some_0.len() == 0),
        },
{
    let s = chars_of(pattern);
    let ghost full = s@;
    let n = s.len();
    let mut out: Vec<u8> = Vec::new();
    let mut i: usize = 0;
    assert(full.subrange(0, n as int) =~= full);
    assert forall|rest: Seq<u8>| out@ + rest =~= rest by {}
    while i < n
        invariant
            s@ == full,
            full == pattern@,
            n == s@.len(),
            i <= n,
            compile(full) == (match compile(full.subrange(i as int, n as int)) {
                Some(rest) => Some(out@ + rest),
                None => None::<Seq<u8>>,
            }),
        decreases n - i,
    {
        let ghost tail = full.subrange(i as int, n as int);
        assert(tail[0] == s@[i as int]);
        assert(i + 1 < n ==> tail[1] == s@[i + 1]);
        assert(i + 2 < n ==> tail[2] == s@[i + 2]);
        if is_space_char(s[i]) {
            assert(tail.drop_first() =~= full.subrange(i + 1, n as int));
            i += 1;
        } else {
            if i + 1 >= n {
                assert(compile(tail) is None);
                return Err(AobScanError::InvalidPattern);
            }
            if i + 2 < n && !is_space_char(s[i + 2]) {
                assert(compile(tail) is None);
                return Err(AobScanError::InvalidPattern);
            }
            match token_byte(s[i], s[i + 1]) {
                Some(v) => {
                    assert(tail.subrange(2, tail.len() as int) =~= full.subrange(
                        i + 2,
                        n as int,
                    ));
                    let ghost before = out@;
                    out.push(v);
                    assert forall|rest: Seq<u8>| before + (seq![v] + rest) =~= out@ + rest by {}
                    i += 2;
                },
                None => {
                    assert(compile(tail) is None);
                    return Err(AobScanError::InvalidPattern);
                },
            }
        }
    }
    assert(full.subrange(n as int, n as int) =~= Seq::<char>::empty());
    assert(out@ + Seq::<u8>::empty() =~= out@);
    if out.len() == 0 {
        return Err(AobScanError::InvalidPattern);
    }
    Ok(out)
}

/// A signature byte accepts a haystack byte when it is a wildcard or equal to it.
pub open spec fn byte_matches(p: u8, d: u8) -> bool {
    p == WILDCARD || p == d
}

/// The signature `p` matches the haystack `h` at offset `i`.
pub open spec fn matches_at(h: Seq<u8>, p: Seq<u8>, i: int) -> bool {
    0 <= i && i + p.len() <= h.len() && forall|k: int|
        0 <= k < p.len() ==> #[trigger] byte_matches(p[k], h[i + k])
}

/// The first `len` bytes of `p` match the `len` bytes of `h` that end at `end`.
pub open spec fn prefix_matches_before(h: Seq<u8>, p: Seq<u8>, len: int, end: int) -> bool {
    0 <= len <= p.len() && len <= end <= h.len() && forall|k: int|
        0 <= k < len ==> #[trigger] byte_matches(p[k], h[end - len + k])
}

/// Two signature bytes could match the same haystack byte.
pub open spec fn bytes_compatible(a: u8, b: u8) -> bool {
    a == WILDCARD || b == WILDCARD || a == b
}

/// The first `l` bytes of `p` and the `l` bytes of `p` that end at `e` could
/// match the same bytes.
pub open spec fn is_compatible(p: Seq<u8>, l: int, e: int) -> bool {
    forall|k: int| 0 <= k < l ==> #[trigger] bytes_compatible(p[k], p[e - l + k])
}

/// The failure-function value for the prefix of length `e`.
pub open spec fn border_at(lps: Seq<usize>, e: int) -> int {
    lps[e - 1] as int
}

/// `lps[e - 1]` is the longest proper prefix length `l < e` whose prefix is
/// compatible with the bytes of `p` that end at `e`, a wildcard comparing
/// equal to any byte.
pub open spec fn is_failure_table(p: Seq<u8>, lps: Seq<usize>) -> bool {
    &&& lps.len() == p.len()
    &&& forall|e: int|
        0 < e <= p.len() ==> #[trigger] border_at(lps, e) < e && is_compatible(
            p,
            border_at(lps, e),
            e,
        )
    &&& forall|l: int, e: int|
        0 < e <= p.len() && border_at(lps, e) < l < e ==> !#[trigger] is_compatible(p, l, e)
}

fn compatible_exec(p: &[u8], l: usize, e: usize) -> (r: bool)
    requires
        l <= e <= p@.len(),
    ensures
        r == is_compatible(p@, l as int, e as int),
{
    let mut k: usize = 0;
    while k < l
        invariant
            l <= e <= p@.len(),
            k <= l,
            forall|x: int| 0 <= x < k ==> #[trigger] bytes_compatible(p@[x], p@[e - l + x]),
        decreases l - k,
    {
        let a = p[k];
        let b = p[e - l + k];
        if !(a == WILDCARD || b == WILDCARD || a == b) {
            assert(!bytes_compatible(p@[k as int], p@[e - l + k]));
            return false;
        }
        k += 1;
    }
    true
}

fn covers_exec(p: &[u8], l: usize, e: usize) -> (r: bool)
    requires
        l <= e <= p@.len(),
    ensures
        r == prefix_matches_before(p@, p@, l as int, e as int),
{
    let mut k: usize = 0;
    while k < l
        invariant
            l <= e <= p@.len(),
            k <= l,
            forall|x: int| 0 <= x < k ==> #[trigger] byte_matches(p@[x], p@[e - l + x]),
        decreases l - k,
    {
        if !(p[k] == WILDCARD || p[k] == p[e - l + k]) {
            assert(!byte_matches(p@[k as int], p@[e - l + k]));
            return false;
        }
        k += 1;
    }
    true
}

fn longest_compatible(p: &[u8], e: usize) -> (l: usize)
    requires
        0 < e <= p@.len(),
    ensures
        l < e,
        is_compatible(p@, l as int, e as int),
        forall|x: int| l < x < e ==> !#[trigger] is_compatible(p@, x, e as int),
{
    let mut l: usize = e - 1;
    while l > 0
        invariant
            0 < e <= p@.len(),
            l < e,
            forall|x: int| l < x < e ==> !#[trigger] is_compatible(p@, x, e as int),
        decreases l,
    {
        if compatible_exec(p, l, e) {
            return l;
        }
        l -= 1;
    }
    0
}

/// Builds the failure function of `pattern`: for each prefix, its longest
/// proper border, a wildcard comparing equal to any byte on either side.
pub fn compute_lps(pattern: &[u8]) -> (lps: Vec<usize>)
    ensures
        is_failure_table(pattern@, lps@),
{
    let n = pattern.len();
    let mut lps: Vec<usize> = Vec::new();
    let mut k: usize = 0;
    while k < n
        invariant
            n == pattern@.len(),
            k <= n,
            lps@.len() == k,
            forall|x: int|
                0 < x <= k ==> #[trigger] border_at(lps@, x) < x && is_compatible(
                    pattern@,
                    border_at(lps@, x),
                    x,
                ),
            forall|l: int, x: int|
                0 < x <= k && border_at(lps@, x) < l < x ==> !#[trigger] is_compatible(pattern@, l, x),
        decreases n - k,
    {
        let e = k + 1;
        let l = longest_compatible(pattern, e);
        let ghost before = lps@;
        lps.push(l);
        assert(border_at(lps@, e as int) == l);
        assert(forall|x: int| 0 < x < e ==> #[trigger] border_at(lps@, x) == border_at(before, x));
        k += 1;
    }
    lps
}

/// For each prefix length `e`, whether the border `lps[e - 1]` is covered by
/// the prefix itself, so that a partial match can resume from it.
fn compute_resume(pattern: &[u8], lps: &Vec<usize>) -> (r: Vec<bool>)
    requires
        is_failure_table(pattern@, lps@),
    ensures
        r@.len() == pattern@.len(),
        forall|e: int|
            0 < e <= pattern@.len() ==> r@[e - 1] == prefix_matches_before(
                pattern@,
                pattern@,
                #[trigger] border_at(lps@, e),
                e,
            ),
{
    let n = pattern.len();
    let mut r: Vec<bool> = Vec::new();
    let mut k: usize = 0;
    while k < n
        invariant
            n == pattern@.len(),
            is_failure_table(pattern@, lps@),
            k <= n,
            r@.len() == k,
            forall|x: int|
                0 < x <= k ==> r@[x - 1] == prefix_matches_before(
                    pattern@,
                    pattern@,
                    #[trigger] border_at(lps@, x),
                    x,
                ),
        decreases n - k,
    {
        let e = k + 1;
        assert(border_at(lps@, e as int) < e);
        let c = covers_exec(pattern, lps[k], e);
        r.push(c);
        k += 1;
    }
    r
}

/// Falling back from a partial match of length `len` to the border `lps[len - 1]`
/// keeps a partial match.
proof fn lemma_fallback(h: Seq<u8>, p: Seq<u8>, len: int, end: int, l: int)
    requires
        0 < len <= p.len(),
        prefix_matches_before(h, p, len, end),
        l <= len - 1,
        prefix_matches_before(p, p, l, len),
    ensures
        prefix_matches_before(h, p, l, end),
{
    assert forall|k: int| 0 <= k < l implies #[trigger] byte_matches(p[k], h[end - l + k]) by {
        assert(byte_matches(p[k], p[len - l + k]));
        assert(byte_matches(p[len - l + k], h[end - len + (len - l + k)]));
    }
}

/// No match starts strictly between a partial match of length `j` ending at
/// `i` and the border that the scan falls back to.
proof fn lemma_skip(h: Seq<u8>, p: Seq<u8>, lps: Seq<usize>, i: int, j: int)
    requires
        is_failure_table(p, lps),
        0 < j <= p.len(),
        prefix_matches_before(h, p, j, i),
    ensures
        forall|s: int| i - j < s < i - border_at(lps, j) ==> !#[trigger] matches_at(h, p, s),
{
    assert(border_at(lps, j) < j);
    assert forall|s: int| i - j < s < i - border_at(lps, j) implies !#[trigger] matches_at(h, p, s) by {
        let l = i - s;
        if matches_at(h, p, s) {
            assert forall|k: int| 0 <= k < l implies #[trigger] bytes_compatible(p[k], p[j - l + k]) by {
                assert(byte_matches(p[k], h[s + k]));
                assert(byte_matches(p[j - l + k], h[i - j + (j - l + k)]));
            }
            assert(is_compatible(p, l, j));
        }
    }
}

/// A match at `i - j` would match `h[i]` against the literal `p[j]`.
proof fn lemma_mismatch(h: Seq<u8>, p: Seq<u8>, i: int, j: int)
    requires
        0 <= j < p.len(),
        0 <= i < h.len(),
        p[j] != WILDCARD,
        p[j] != h[i],
    ensures
        !matches_at(h, p, i - j),
{
    if matches_at(h, p, i - j) {
        assert(byte_matches(p[j], h[i - j + j]));
    }
}

/// Returns the lowest offset at which `pattern` matches `data`, a wildcard
/// matching any byte. An empty pattern is refused.
pub fn kmp_search_unique(data: &[u8], pattern: &[u8]) -> (r: Result<usize, AobScanError>)
    ensures
        (r == Err::<usize, AobScanError>(AobScanError::InvalidPattern)) <==> pattern@.len() == 0,
        r matches Ok(i) ==> matches_at(data@, pattern@, i as int) && forall|s: int|
            0 <= s < i ==> !#[trigger] matches_at(data@, pattern@, s),
        r is Err && pattern@.len() > 0 ==> r == Err::<usize, AobScanError>(
            AobScanError::PatternNotFound,
        ) && forall|s: int| !#[trigger] matches_at(data@, pattern@, s),
{
    if pattern.len() == 0 {
        return Err(AobScanError::InvalidPattern);
    }
    let lps = compute_lps(pattern);
    let resume = compute_resume(pattern, &lps);
    let n = data.len();
    let m = pattern.len();
    let mut i: usize = 0;
    let mut j: usize = 0;
    while i < n
        invariant
            n == data@.len(),
            m == pattern@.len(),
            m > 0,
            is_failure_table(pattern@, lps@),
            resume@.len() == m,
            forall|e: int|
                0 < e <= m ==> resume@[e - 1] == prefix_matches_before(
                    pattern@,
                    pattern@,
                    #[trigger] border_at(lps@, e),
                    e,
                ),
            j < m,
            j <= i <= n,
            prefix_matches_before(data@, pattern@, j as int, i as int),
            forall|s: int| 0 <= s < i - j ==> !#[trigger] matches_at(data@, pattern@, s),
        decreases n - (i - j), n - i,
    {
        if pattern[j] == data[i] || pattern[j] == WILDCARD {
            proof {
                lemma_extend(data@, pattern@, j as int, i as int);
            }
            i += 1;
            j += 1;
        }
        if j == m {
            return Ok(i - j);
        } else if i < n && pattern[j] != data[i] && pattern[j] != WILDCARD {
            proof {
                lemma_mismatch(data@, pattern@, i as int, j as int);
            }
            if j != 0 {
                let l = lps[j - 1];
                proof {
                    assert(border_at(lps@, j as int) == l);
                    lemma_skip(data@, pattern@, lps@, i as int, j as int);
                }
                if resume[j - 1] {
                    proof {
                        lemma_fallback(data@, pattern@, j as int, i as int, l as int);
                    }
                    j = l;
                } else {
                    i = i - l;
                    j = 0;
                }
            } else {
                i += 1;
            }
        }
    }
    proof {
        assert forall|s: int| !#[trigger] matches_at(data@, pattern@, s) by {
            if s >= i - j && matches_at(data@, pattern@, s) {
                assert(s + m > n);
            }
        }
    }
    Err(AobScanError::PatternNotFound)
}

/// Returns every offset at which `pattern` matches `data`, overlapping ones
/// included, in ascending order; after each match the scan resumes through
/// the failure function.
pub fn kmp_search_all(data: &[u8], pattern: &[u8]) -> (r: Result<Vec<usize>, AobScanError>)
    ensures
        (r == Err::<Vec<usize>, AobScanError>(AobScanError::InvalidPattern)) <==> pattern@.len()
            == 0,
        r matches Ok(v) ==> {
            &&& v@.len() > 0
            &&& forall|k: int| 0 <= k < v@.len() ==> matches_at(data@, pattern@, #[trigger] v@[k] as int)
            &&& forall|a: int, b: int| 0 <= a < b < v@.len() ==> v@[a] < v@[b]
            &&& forall|s: int|
                #[trigger] matches_at(data@, pattern@, s) ==> exists|k: int|
                    0 <= k < v@.len() && v@[k] == s
            &&& forall|s: int| 0 <= s < v@[0] ==> !#[trigger] matches_at(data@, pattern@, s)
        },
        r is Err && pattern@.len() > 0 ==> r == Err::<Vec<usize>, AobScanError>(
            AobScanError::PatternNotFound,
        ) && forall|s: int| !#[trigger] matches_at(data@, pattern@, s),
{
    if pattern.len() == 0 {
        return Err(AobScanError::InvalidPattern);
    }
    let lps = compute_lps(pattern);
    let resume = compute_resume(pattern, &lps);
    let n = data.len();
    let m = pattern.len();
    let mut indices: Vec<usize> = Vec::new();
    let mut i: usize = 0;
    let mut j: usize = 0;
    while i < n
        invariant
            n == data@.len(),
            m == pattern@.len(),
            m > 0,
            is_failure_table(pattern@, lps@),
            resume@.len() == m,
            forall|e: int|
                0 < e <= m ==> resume@[e - 1] == prefix_matches_before(
                    pattern@,
                    pattern@,
                    #[trigger] border_at(lps@, e),
                    e,
                ),
            j < m,
            j <= i <= n,
            prefix_matches_before(data@, pattern@, j as int, i as int),
            forall|k: int| 0 <= k < indices@.len() ==> matches_at(data@, pattern@, #[trigger] indices@[k] as int),
            forall|a: int, b: int| 0 <= a < b < indices@.len() ==> indices@[a] < indices@[b],
            forall|k: int| 0 <= k < indices@.len() ==> #[trigger] indices@[k] < i - j,
            forall|s: int|
                0 <= s < i - j && #[trigger] matches_at(data@, pattern@, s) ==> exists|k: int|
                    0 <= k < indices@.len() && indices@[k] == s,
        decreases n - (i - j), n - i,
    {
        if pattern[j] == data[i] || pattern[j] == WILDCARD {
            proof {
                lemma_extend(data@, pattern@, j as int, i as int);
            }
            i += 1;
            j += 1;
        }
        if j == m {
            let ghost before = indices@;
            indices.push(i - j);
            let l = lps[j - 1];
            proof {
                assert(border_at(lps@, j as int) == l);
                lemma_skip(data@, pattern@, lps@, i as int, j as int);
                assert forall|s: int|
                    0 <= s < i - l && #[trigger] matches_at(data@, pattern@, s) implies exists|k: int|
                    0 <= k < indices@.len() && indices@[k] == s by {
                    if s < i - j {
                        let k = choose|k: int| 0 <= k < before.len() && before[k] == s;
                        assert(indices@[k] == s);
                    } else {
                        assert(s == i - j);
                        assert(indices@[before.len() as int] == s);
                    }
                }
            }
            if resume[j - 1] {
                proof {
                    lemma_fallback(data@, pattern@, j as int, i as int, l as int);
                }
                j = l;
            } else {
                i = i - l;
                j = 0;
            }
        } else if i < n && pattern[j] != data[i] && pattern[j] != WILDCARD {
            proof {
                lemma_mismatch(data@, pattern@, i as int, j as int);
            }
            if j != 0 {
                let l = lps[j - 1];
                proof {
                    assert(border_at(lps@, j as int) == l);
                    lemma_skip(data@, pattern@, lps@, i as int, j as int);
                }
                if resume[j - 1] {
                    proof {
                        lemma_fallback(data@, pattern@, j as int, i as int, l as int);
                    }
                    j = l;
                } else {
                    i = i - l;
                    j = 0;
                }
            } else {
                i += 1;
            }
        }
    }
    proof {
        assert forall|s: int| #[trigger] matches_at(data@, pattern@, s) implies exists|k: int|
            0 <= k < indices@.len() && indices@[k] == s by {
            if s >= i - j {
                assert(s + m > n);
            }
        }
    }
    if indices.len() == 0 {
        proof {
            assert forall|s: int| !#[trigger] matches_at(data@, pattern@, s) by {
                if matches_at(data@, pattern@, s) {
                    let k = choose|k: int| 0 <= k < indices@.len() && indices@[k] == s;
                }
            }
        }
        Err(AobScanError::PatternNotFound)
    } else {
        proof {
            assert forall|s: int| 0 <= s < indices@[0] implies !#[trigger] matches_at(data@, pattern@, s) by {
                if matches_at(data@, pattern@, s) {
                    let k = choose|k: int| 0 <= k < indices@.len() && indices@[k] == s;
                    if k > 0 {
                        assert(indices@[0] < indices@[k]);
                    }
                }
            }
        }
        let ghost found = indices@;
        let r: Result<Vec<usize>, AobScanError> = Ok(indices);
        assert(r->Ok_0@ == found);
        r
    }
}

proof fn lemma_extend(h: Seq<u8>, p: Seq<u8>, len: int, end: int)
    requires
        prefix_matches_before(h, p, len, end),
        len < p.len(),
        end < h.len(),
        byte_matches(p[len], h[end]),
    ensures
        prefix_matches_before(h, p, len + 1, end + 1),
{
    assert forall|k: int| 0 <= k < len + 1 implies #[trigger] byte_matches(p[k], h[end + 1 - (len + 1) + k]) by {
        if k < len {
            assert(byte_matches(p[k], h[end - len + k]));
        }
    }
}

/// The text compiles to a non-empty signature.
pub open spec fn compiles(text: Seq<char>) -> bool {
    compile(text) is Some && compile(text)->Some_0.len() > 0
}

/// Compiles `pattern` and returns the address of its lowest match in the
/// code-section snapshot `region`. No check is made that the match is the
/// only one.
pub fn scan_unique(region: &TextRegion, pattern: &str) -> (r: Result<usize, AobScanError>)
    requires
        region.wf(),
    ensures
        (r == Err::<usize, AobScanError>(AobScanError::InvalidPattern)) <==> !compiles(pattern@),
        r matches Ok(a) ==> a >= region.base && matches_at(region.bytes@, compile(pattern@)->Some_0, a - region.base)
            && forall|s: int| 0 <= s < a - region.base ==> !#[trigger] matches_at(region.bytes@, compile(pattern@)->Some_0, s),
        r is Err && compiles(pattern@) ==> r == Err::<usize, AobScanError>(
            AobScanError::PatternNotFound,
        ) && forall|s: int| !#[trigger] matches_at(region.bytes@, compile(pattern@)->Some_0, s),
{
    let signature = convert_pattern(pattern)?;
    let index = kmp_search_unique(region.bytes.as_slice(), signature.as_slice())?;
    Ok(region.base + index)
}

/// Compiles `pattern` and returns the addresses of all its matches in the
/// code-section snapshot `region`, in ascending order.
pub fn scan_all(region: &TextRegion, pattern: &str) -> (r: Result<Vec<usize>, AobScanError>)
    requires
        region.wf(),
    ensures
        (r == Err::<Vec<usize>, AobScanError>(AobScanError::InvalidPattern)) <==> !compiles(
            pattern@,
        ),
        r matches Ok(v) ==> {
            &&& v@.len() > 0
            &&& forall|k: int|
                0 <= k < v@.len() ==> #[trigger] v@[k] >= region.base && v@[k] < region.base
                    + region.bytes@.len() && matches_at(region.bytes@, compile(pattern@)->Some_0, v@[k] - region.base)
            &&& forall|a: int, b: int| 0 <= a < b < v@.len() ==> v@[a] < v@[b]
            &&& forall|s: int|
                #[trigger] matches_at(region.bytes@, compile(pattern@)->Some_0, s) ==> exists|k: int|
                    0 <= k < v@.len() && v@[k] == region.base + s
        },
        r is Err && compiles(pattern@) ==> r == Err::<Vec<usize>, AobScanError>(
            AobScanError::PatternNotFound,
        ) && forall|s: int| !#[trigger] matches_at(region.bytes@, compile(pattern@)->Some_0, s),
{
    let signature = convert_pattern(pattern)?;
    let indices = kmp_search_all(region.bytes.as_slice(), signature.as_slice())?;
    let mut out: Vec<usize> = Vec::new();
    let mut k: usize = 0;
    while k < indices.len()
        invariant
            region.wf(),
            k <= indices@.len(),
            out@.len() == k,
            forall|x: int| 0 <= x < k ==> #[trigger] out@[x] == region.base + indices@[x],
            forall|x: int| 0 <= x < indices@.len() ==> matches_at(region.bytes@, signature@, #[trigger] indices@[x] as int),
        decreases indices@.len() - k,
    {
        out.push(region.base + indices[k]);
        k += 1;
    }
    proof {
        assert forall|s: int| #[trigger] matches_at(region.bytes@, signature@, s) implies exists|x: int|
            0 <= x < out@.len() && out@[x] == region.base + s by {
            let x = choose|x: int| 0 <= x < indices@.len() && indices@[x] == s;
            assert(out@[x] == region.base + indices@[x]);
        }
    }
    let ghost found = out@;
    let r: Result<Vec<usize>, AobScanError> = Ok(out);
    assert(r->Ok_0@ == found);
    r
}

/// A wildcard position matches whatever byte stands at its offset.
pub proof fn lemma_wildcard_matches_any(h: Seq<u8>, p: Seq<u8>, i: int, k: int, b: u8)
    requires
        matches_at(h, p, i),
        0 <= k < p.len(),
        p[k] == WILDCARD,
    ensures
        matches_at(h.update(i + k, b), p, i),
{
    let h2 = h.update(i + k, b);
    assert forall|x: int| 0 <= x < p.len() implies #[trigger] byte_matches(p[x], h2[i + x]) by {
        assert(byte_matches(p[x], h[i + x]));
    }
}

} // verus!
