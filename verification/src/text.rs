//! Text building blocks for the command layer's output: string literals
//! as bytes, decimal rendering of numbers, and trimming at a NUL byte.

use vstd::prelude::*;
use vstd::slice::slice_to_vec;
use vstd::string::StringSliceAdditionalSpecFns;
use crate::util::read_bytes_at;

verus! {

/// The bytes of a string literal.
pub fn lit_bytes(s: &str) -> (r: Vec<u8>)
    ensures
        r@ == s.spec_bytes(),
{
    slice_to_vec(s.as_bytes())
}

/// Append all of `src` to `out`.
pub fn append_bytes(out: &mut Vec<u8>, src: &Vec<u8>)
    ensures
        final(out)@ == old(out)@ + src@,
{
    let n = src.len();
    let mut j: usize = 0;
    while j < n
        invariant
            n == src@.len(),
            j <= n,
            out@ == old(out)@ + src@.take(j as int),
        decreases n - j,
    {
        out.push(src[j]);
        proof {
            assert(out@ =~= old(out)@ + src@.take(j + 1));
        }
        j = j + 1;
    }
    proof {
        assert(src@.take(n as int) =~= src@);
    }
}

/// Append the bytes of a string literal to `out`.
pub fn append_lit(out: &mut Vec<u8>, s: &str)
    ensures
        final(out)@ == old(out)@ + s.spec_bytes(),
{
    let b = lit_bytes(s);
    append_bytes(out, &b);
}

/// Whether two byte buffers hold the same bytes.
pub fn eq_bytes(a: &Vec<u8>, b: &Vec<u8>) -> (r: bool)
    ensures
        r == (a@ == b@),
{
    if a.len() != b.len() {
        proof {
            assert(a@.len() != b@.len());
        }
        return false;
    }
    let n = a.len();
    let mut j: usize = 0;
    while j < n
        invariant
            n == a@.len(),
            n == b@.len(),
            j <= n,
            forall|k: int| 0 <= k < j ==> a@[k] == b@[k],
        decreases n - j,
    {
        if a[j] != b[j] {
            proof {
                assert(a@[j as int] != b@[j as int]);
            }
            return false;
        }
        j = j + 1;
    }
    proof {
        assert(a@ =~= b@);
    }
    true
}

/// The decimal digits of `n`, most significant first.
pub open spec fn dec_rep(n: nat) -> Seq<u8>
    decreases n,
{
    if n < 10 {
        seq![(48 + n) as u8]
    } else {
        dec_rep(n / 10) + seq![(48 + n % 10) as u8]
    }
}

/// Append the decimal digits of `n` to `out`.
pub fn push_u64_decimal(out: &mut Vec<u8>, n: u64)
    ensures
        final(out)@ == old(out)@ + dec_rep(n as nat),
    decreases n,
{
    if n < 10 {
        out.push((48 + n) as u8);
        proof {
            assert(out@ =~= old(out)@ + dec_rep(n as nat));
        }
    } else {
        push_u64_decimal(out, n / 10);
        out.push((48 + (n % 10)) as u8);
        proof {
            assert(out@ =~= old(out)@ + dec_rep(n as nat));
        }
    }
}

/// Index of the first NUL byte, or the length when there is none.
pub open spec fn nul_pos(s: Seq<u8>) -> nat
    decreases s.len(),
{
    if s.len() == 0 || s[0] == 0 {
        0
    } else {
        1 + nul_pos(s.drop_first())
    }
}

/// The bytes before the first NUL: how a stored field displays.
pub open spec fn nul_trim(s: Seq<u8>) -> Seq<u8> {
    s.take(nul_pos(s) as int)
}

/// A leading NUL-free run of length `n` followed by the string's end or
/// a NUL byte pins the first NUL's position down.
proof fn lemma_nul_pos_range(s: Seq<u8>, n: nat)
    requires
        n <= s.len(),
        forall|k: int| 0 <= k < n ==> #[trigger] s[k] != 0,
        n == s.len() || s[n as int] == 0,
    ensures
        nul_pos(s) == n,
    decreases n,
{
    if n > 0 {
        let t = s.drop_first();
        assert forall|k: int| 0 <= k < n - 1 implies #[trigger] t[k] != 0 by {
            assert(t[k] == s[k + 1]);
        }
        if n < s.len() {
            assert(t[n - 1] == s[n as int]);
        }
        lemma_nul_pos_range(t, (n - 1) as nat);
    }
}

/// Copy of the bytes before the first NUL of `s`.
pub fn take_until_nul(s: &Vec<u8>) -> (r: Vec<u8>)
    ensures
        r@ == nul_trim(s@),
{
    let n = s.len();
    let mut j: usize = 0;
    while j < n
        invariant
            n == s@.len(),
            j <= n,
            forall|k: int| 0 <= k < j ==> #[trigger] s@[k] != 0,
        ensures
            j <= n,
            forall|k: int| 0 <= k < j ==> #[trigger] s@[k] != 0,
            j == n || s@[j as int] == 0,
        decreases n - j,
    {
        if s[j] == 0 {
            break;
        }
        j = j + 1;
    }
    proof {
        lemma_nul_pos_range(s@, j as nat);
        assert(s@.subrange(0, j as int) =~= nul_trim(s@));
    }
    read_bytes_at(s, 0, j)
}

} // verus!
