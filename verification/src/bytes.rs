//! Small verified utilities over UTF-8 byte strings.
//!
//! All text in this crate is carried as `Vec<u8>`; these helpers give the
//! exact-specification building blocks the renderer and interpreter share:
//! equality, substring search, ASCII case folding, trimming and hex digits.

use vstd::prelude::*;

verus! {

/// Byte-for-byte copy of a byte string.
pub fn clone_bytes(b: &Vec<u8>) -> (r: Vec<u8>)
    ensures
        r@ == b@,
{
    let mut out: Vec<u8> = Vec::new();
    let mut i: usize = 0;
    while i < b.len()
        invariant
            i <= b@.len(),
            out@ == b@.subrange(0, i as int),
        decreases b@.len() - i,
    {
        out.push(b[i]);
        proof {
            assert(out@ =~= b@.subrange(0, i + 1 as int));
        }
        i = i + 1;
    }
    proof {
        assert(out@ =~= b@);
    }
    out
}

/// Appends a constant byte string.
pub fn push_bytes(out: &mut Vec<u8>, s: &[u8])
    ensures
        final(out)@ == old(out)@ + s@,
{
    let mut i: usize = 0;
    while i < s.len()
        invariant
            i <= s@.len(),
            out@ == old(out)@ + s@.subrange(0, i as int),
        decreases s@.len() - i,
    {
        out.push(s[i]);
        proof {
            assert(out@ =~= old(out)@ + s@.subrange(0, i + 1 as int));
        }
        i = i + 1;
    }
    proof {
        assert(out@ =~= old(out)@ + s@);
    }
}

/// Whether a byte string equals a constant.
pub fn bytes_eq(a: &Vec<u8>, b: &[u8]) -> (r: bool)
    ensures
        r <==> a@ == b@,
{
    if a.len() != b.len() {
        proof {
            assert(a@ != b@);
        }
        return false;
    }
    let mut i: usize = 0;
    while i < a.len()
        invariant
            i <= a@.len(),
            a@.len() == b@.len(),
            forall|j: int| 0 <= j < i ==> a@[j] == b@[j],
        decreases a@.len() - i,
    {
        if a[i] != b[i] {
            return false;
        }
        i = i + 1;
    }
    proof {
        assert(a@ =~= b@);
    }
    true
}

/// Whether `h` holds `n` as a contiguous substring.
pub open spec fn spec_contains(h: Seq<u8>, n: Seq<u8>) -> bool {
    exists|k: int|
        0 <= k && k + n.len() <= h.len() && #[trigger] h.subrange(k, k + n.len() as int) == n
}

/// Substring search against a constant needle.
pub fn bytes_contain(h: &Vec<u8>, n: &[u8]) -> (r: bool)
    ensures
        r <==> spec_contains(h@, n@),
{
    if n.len() > h.len() {
        return false;
    }
    let mut k: usize = 0;
    while k <= h.len() - n.len()
        invariant
            n@.len() <= h@.len(),
            k <= h@.len() - n@.len() + 1,
            forall|kk: int|
                0 <= kk < k ==> #[trigger] h@.subrange(kk, kk + n@.len() as int) != n@,
        decreases h@.len() + 1 - n@.len() - k,
    {
        let mut j: usize = 0;
        let mut hit = true;
        while j < n.len()
            invariant_except_break
                hit,
            invariant
                j <= n@.len(),
                k + n@.len() <= h@.len(),
                h@.len() <= usize::MAX,
                forall|jj: int| 0 <= jj < j ==> h@[k + jj] == n@[jj],
            ensures
                j <= n@.len(),
                k + n@.len() <= h@.len(),
                hit ==> forall|jj: int| 0 <= jj < j ==> h@[k + jj] == n@[jj],
                hit ==> j == n@.len(),
                !hit ==> h@[k + j as int] != n@[j as int] && j < n@.len(),
            decreases n@.len() - j,
        {
            if h[k + j] != n[j] {
                hit = false;
                break ;
            }
            j = j + 1;
        }
        if hit {
            proof {
                assert(h@.subrange(k as int, k + n@.len() as int) =~= n@);
            }
            return true;
        }
        proof {
            assert(h@.subrange(k as int, k + n@.len() as int)[j as int] == h@[k + j as int]);
            assert(h@.subrange(k as int, k + n@.len() as int) != n@);
        }
        k = k + 1;
    }
    proof {
        assert forall|kk: int| 0 <= kk && kk + n@.len() <= h@.len() implies #[trigger] h@.subrange(
            kk,
            kk + n@.len() as int,
        ) != n@ by {}
    }
    false
}

/// ASCII lower-casing of one byte.
pub open spec fn spec_lower_byte(b: u8) -> u8 {
    if 65 <= b <= 90 {
        (b + 32) as u8
    } else {
        b
    }
}

pub open spec fn spec_lower(s: Seq<u8>) -> Seq<u8> {
    s.map_values(|b: u8| spec_lower_byte(b))
}

/// ASCII lower-casing of a byte string (non-ASCII bytes pass unchanged).
pub fn to_lowercase(b: &Vec<u8>) -> (r: Vec<u8>)
    ensures
        r@ == spec_lower(b@),
{
    let mut out: Vec<u8> = Vec::new();
    let mut i: usize = 0;
    while i < b.len()
        invariant
            i <= b@.len(),
            out@.len() == i,
            forall|j: int| 0 <= j < i ==> out@[j] == spec_lower_byte(b@[j]),
        decreases b@.len() - i,
    {
        let c = b[i];
        if 65 <= c && c <= 90 {
            out.push(c + 32);
        } else {
            out.push(c);
        }
        i = i + 1;
    }
    proof {
        assert(out@ =~= spec_lower(b@));
    }
    out
}

/// ASCII whitespace, the characters trimmed from run text.
pub open spec fn spec_is_ws(b: u8) -> bool {
    b == 32 || (9 <= b <= 13)
}

pub open spec fn spec_trim_start(s: Seq<u8>) -> Seq<u8>
    decreases s.len(),
{
    if s.len() > 0 && spec_is_ws(s[0]) {
        spec_trim_start(s.drop_first())
    } else {
        s
    }
}

pub open spec fn spec_trim_end(s: Seq<u8>) -> Seq<u8>
    decreases s.len(),
{
    if s.len() > 0 && spec_is_ws(s[s.len() - 1]) {
        spec_trim_end(s.drop_last())
    } else {
        s
    }
}

/// Both ends trimmed of ASCII whitespace.
pub open spec fn spec_trim(s: Seq<u8>) -> Seq<u8> {
    spec_trim_end(spec_trim_start(s))
}

fn is_ws(b: u8) -> (r: bool)
    ensures
        r == spec_is_ws(b),
{
    b == 32 || (9 <= b && b <= 13)
}

/// Trims ASCII whitespace from both ends.
pub fn trim_bytes(b: &Vec<u8>) -> (r: Vec<u8>)
    ensures
        r@ == spec_trim(b@),
{
    proof {
        assert(b@.skip(0) =~= b@);
    }
    let mut i: usize = 0;
    while i < b.len() && is_ws(b[i])
        invariant
            i <= b@.len(),
            spec_trim_start(b@) == spec_trim_start(b@.skip(i as int)),
        decreases b@.len() - i,
    {
        proof {
            assert(b@.skip(i as int).drop_first() =~= b@.skip(i + 1 as int));
        }
        i = i + 1;
    }
    proof {
        assert(spec_trim_start(b@) == b@.skip(i as int));
    }
    let mut j: usize = b.len();
    while j > i && is_ws(b[j - 1])
        invariant
            i <= j <= b@.len(),
            spec_trim_start(b@) == b@.skip(i as int),
            spec_trim_end(b@.skip(i as int)) == spec_trim_end(b@.subrange(i as int, j as int)),
        decreases j,
    {
        proof {
            assert(b@.subrange(i as int, j as int).drop_last() =~= b@.subrange(
                i as int,
                j - 1 as int,
            ));
            assert(b@.subrange(i as int, j as int).len() == j - i);
            assert(b@.subrange(i as int, j as int)[j - i - 1] == b@[j - 1]);
        }
        j = j - 1;
    }
    let mut out: Vec<u8> = Vec::new();
    let mut k: usize = i;
    while k < j
        invariant
            i <= k <= j <= b@.len(),
            out@ == b@.subrange(i as int, k as int),
        decreases j - k,
    {
        out.push(b[k]);
        proof {
            assert(out@ =~= b@.subrange(i as int, k + 1 as int));
        }
        k = k + 1;
    }
    proof {
        if j == i {
            assert(b@.subrange(i as int, j as int) =~= Seq::<u8>::empty());
            assert(spec_trim_end(b@.subrange(i as int, j as int)) =~= b@.subrange(
                i as int,
                j as int,
            ));
        } else {
            assert(!spec_is_ws(b@.subrange(i as int, j as int)[j - i - 1]));
            assert(spec_trim_end(b@.subrange(i as int, j as int)) == b@.subrange(i as int, j as int));
        }
        assert(out@ == spec_trim(b@));
    }
    out
}

/// The two upper-case hex digits of a byte, high digit first.
pub open spec fn spec_hex_digit(n: int) -> u8 {
    if n < 10 {
        (48 + n) as u8
    } else {
        (55 + n) as u8
    }
}

pub open spec fn spec_hex_byte(v: u8) -> Seq<u8> {
    seq![spec_hex_digit(v as int / 16), spec_hex_digit(v as int % 16)]
}

/// Appends the two-digit upper-case hex form of `v`.
pub fn push_hex_byte(out: &mut Vec<u8>, v: u8)
    ensures
        final(out)@ == old(out)@ + spec_hex_byte(v),
{
    let hi = v / 16;
    let lo = v % 16;
    let hi_d: u8 = if hi < 10 {
        48 + hi
    } else {
        55 + hi
    };
    let lo_d: u8 = if lo < 10 {
        48 + lo
    } else {
        55 + lo
    };
    out.push(hi_d);
    out.push(lo_d);
    proof {
        assert(out@ =~= old(out)@ + spec_hex_byte(v));
    }
}

/// A one-byte string `a`.
pub open spec fn spec_is1(s: Seq<u8>, a: u8) -> bool {
    s.len() == 1 && s[0] == a
}

/// A two-byte string `a b`.
pub open spec fn spec_is2(s: Seq<u8>, a: u8, b: u8) -> bool {
    s.len() == 2 && s[0] == a && s[1] == b
}

/// A three-byte string `a b c`.
pub open spec fn spec_is3(s: Seq<u8>, a: u8, b: u8, c: u8) -> bool {
    s.len() == 3 && s[0] == a && s[1] == b && s[2] == c
}

/// Whether a byte string is the single byte `a`.
pub fn is1(v: &Vec<u8>, a: u8) -> (r: bool)
    ensures
        r <==> spec_is1(v@, a),
{
    v.len() == 1 && v[0] == a
}

/// Whether a byte string is the two bytes `a b`.
pub fn is2(v: &Vec<u8>, a: u8, b: u8) -> (r: bool)
    ensures
        r <==> spec_is2(v@, a, b),
{
    v.len() == 2 && v[0] == a && v[1] == b
}

/// Whether a byte string is the three bytes `a b c`.
pub fn is3(v: &Vec<u8>, a: u8, b: u8, c: u8) -> (r: bool)
    ensures
        r <==> spec_is3(v@, a, b, c),
{
    v.len() == 3 && v[0] == a && v[1] == b && v[2] == c
}

/// Substring search for a two-byte needle.
pub fn contains2(h: &Vec<u8>, a: u8, b: u8) -> (r: bool)
    ensures
        r <==> spec_contains(h@, seq![a, b]),
{
    let mut needle: Vec<u8> = Vec::new();
    needle.push(a);
    needle.push(b);
    proof {
        assert(needle@ =~= seq![a, b]);
    }
    bytes_contain(h, needle.as_slice())
}

/// `s` with every occurrence of `pat` removed, scanning left to right.
pub open spec fn spec_remove_all(s: Seq<u8>, pat: Seq<u8>) -> Seq<u8>
    recommends
        pat.len() > 0,
    decreases s.len(),
{
    if pat.len() == 0 || s.len() < pat.len() {
        s
    } else if s.subrange(0, pat.len() as int) == pat {
        spec_remove_all(s.skip(pat.len() as int), pat)
    } else {
        seq![s[0]] + spec_remove_all(s.drop_first(), pat)
    }
}

/// Removes every occurrence of `pat` from `s`.
pub fn remove_all(s: &Vec<u8>, pat: &[u8]) -> (r: Vec<u8>)
    requires
        pat@.len() > 0,
    ensures
        r@ == spec_remove_all(s@, pat@),
{
    let mut out: Vec<u8> = Vec::new();
    let mut i: usize = 0;
    proof {
        assert(s@.skip(0) =~= s@);
    }
    while i < s.len()
        invariant
            pat@.len() > 0,
            i <= s@.len(),
            spec_remove_all(s@, pat@) == out@ + spec_remove_all(s@.skip(i as int), pat@),
        decreases s@.len() - i,
    {
        let mut hit = false;
        if pat.len() <= s.len() - i {
            let mut j: usize = 0;
            hit = true;
            while j < pat.len()
                invariant_except_break
                    hit,
                invariant
                    j <= pat@.len(),
                    i + pat@.len() <= s@.len(),
                    s@.len() <= usize::MAX,
                    forall|t: int| 0 <= t < j ==> s@[i + t] == pat@[t],
                ensures
                    hit ==> j == pat@.len() && (forall|t: int| 0 <= t < j ==> s@[i + t] == pat@[t]),
                    !hit ==> j < pat@.len() && s@[i + j as int] != pat@[j as int],
                decreases pat@.len() - j,
            {
                if s[i + j] != pat[j] {
                    hit = false;
                    break ;
                }
                j = j + 1;
            }
        }
        if hit {
            proof {
                assert(s@.skip(i as int).subrange(0, pat@.len() as int) =~= pat@);
                assert(s@.skip(i as int).skip(pat@.len() as int) =~= s@.skip(
                    i + pat@.len(),
                ));
            }
            i = i + pat.len();
        } else {
            proof {
                if i + pat@.len() <= s@.len() {
                    assert(s@.skip(i as int).subrange(0, pat@.len() as int) != pat@) by {
                        assert(exists|t: int|
                            0 <= t < pat@.len() && s@.skip(i as int).subrange(
                                0,
                                pat@.len() as int,
                            )[t] != pat@[t]);
                    }
                }
                assert(s@.skip(i as int).drop_first() =~= s@.skip(i + 1));
                assert(seq![s@.skip(i as int)[0]] =~= seq![s@[i as int]]);
                assert(out@.push(s@[i as int]) + spec_remove_all(s@.skip(i + 1), pat@) =~= out@ + (
                seq![s@[i as int]] + spec_remove_all(s@.skip(i + 1), pat@)));
            }
            out.push(s[i]);
            i = i + 1;
        }
    }
    proof {
        assert(s@.skip(s@.len() as int) =~= Seq::<u8>::empty());
        assert(out@ + Seq::<u8>::empty() =~= out@);
    }
    out
}

} // verus!
