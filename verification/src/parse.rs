//! Splitting an input line into whitespace-separated tokens, and reading
//! a signed decimal integer from a token, with exact statements of which
//! tokens parse and to what value.

use vstd::prelude::*;
use vstd::arithmetic::div_mod::lemma_fundamental_div_mod;
use crate::util::read_bytes_at;

verus! {

/// ASCII whitespace, as token separators.
pub open spec fn is_ws(b: u8) -> bool {
    b == 32 || b == 9 || b == 10 || b == 11 || b == 12 || b == 13
}

/// Length of the leading run of non-whitespace bytes.
pub open spec fn tok_len(s: Seq<u8>) -> nat
    decreases s.len(),
{
    if s.len() == 0 || is_ws(s[0]) {
        0
    } else {
        1 + tok_len(s.drop_first())
    }
}

/// The leading token is never longer than the string.
proof fn lemma_tok_len_le(s: Seq<u8>)
    ensures
        tok_len(s) <= s.len(),
    decreases s.len(),
{
    if s.len() > 0 && !is_ws(s[0]) {
        lemma_tok_len_le(s.drop_first());
    }
}

/// The whitespace-separated tokens of `s`, in order.
pub open spec fn spec_tokens(s: Seq<u8>) -> Seq<Seq<u8>>
    decreases s.len() via spec_tokens_decreases
{
    if s.len() == 0 {
        Seq::empty()
    } else if is_ws(s[0]) {
        spec_tokens(s.drop_first())
    } else {
        seq![s.take(tok_len(s) as int)] + spec_tokens(s.skip(tok_len(s) as int))
    }
}

#[via_fn]
proof fn spec_tokens_decreases(s: Seq<u8>) {
    if s.len() != 0 && !is_ws(s[0]) {
        lemma_tok_len_le(s);
        assert(tok_len(s) >= 1);
    }
}

/// A leading non-whitespace run of length `n` followed by the string's
/// end or a whitespace byte pins the leading token length down.
proof fn lemma_tok_len_range(s: Seq<u8>, n: nat)
    requires
        n <= s.len(),
        forall|k: int| 0 <= k < n ==> !is_ws(#[trigger] s[k]),
        n == s.len() || is_ws(s[n as int]),
    ensures
        tok_len(s) == n,
    decreases n,
{
    if n == 0 {
    } else {
        let t = s.drop_first();
        assert forall|k: int| 0 <= k < n - 1 implies !is_ws(#[trigger] t[k]) by {
            assert(t[k] == s[k + 1]);
        }
        if n < s.len() {
            assert(t[n - 1] == s[n as int]);
        }
        lemma_tok_len_range(t, (n - 1) as nat);
    }
}

/// Exec test for a whitespace byte.
pub fn byte_is_ws(b: u8) -> (r: bool)
    ensures
        r == is_ws(b),
{
    b == 32 || b == 9 || b == 10 || b == 11 || b == 12 || b == 13
}

/// Split `s` into its whitespace-separated tokens.
pub fn tokenize(s: &Vec<u8>) -> (r: Vec<Vec<u8>>)
    ensures
        r.deep_view() == spec_tokens(s@),
{
    let n = s.len();
    let mut toks: Vec<Vec<u8>> = Vec::new();
    let mut i: usize = 0;
    proof {
        assert(s@.skip(0) =~= s@);
        assert(toks.deep_view() + spec_tokens(s@) =~~= spec_tokens(s@));
    }
    while i < n
        invariant
            n == s@.len(),
            i <= n,
            spec_tokens(s@) == toks.deep_view() + spec_tokens(s@.skip(i as int)),
        decreases n - i,
    {
        if byte_is_ws(s[i]) {
            proof {
                assert(s@.skip(i as int).drop_first() =~= s@.skip(i + 1));
            }
            i = i + 1;
        } else {
            let start = i;
            let mut j: usize = i + 1;
            while j < n
                invariant
                    n == s@.len(),
                    i < j <= n,
                    forall|k: int| i <= k < j ==> !is_ws(#[trigger] s@[k]),
                ensures
                    i < j <= n,
                    forall|k: int| i <= k < j ==> !is_ws(#[trigger] s@[k]),
                    j == n || is_ws(s@[j as int]),
                decreases n - j,
            {
                if byte_is_ws(s[j]) {
                    break;
                }
                j = j + 1;
            }
            proof {
                let rest = s@.skip(i as int);
                assert forall|k: int| 0 <= k < j - i implies !is_ws(#[trigger] rest[k]) by {
                    assert(rest[k] == s@[i + k]);
                }
                if j < n {
                    assert(rest[j - i] == s@[j as int]);
                }
                lemma_tok_len_range(rest, (j - i) as nat);
                assert(rest.take(j - i) =~= s@.subrange(i as int, j as int));
                assert(rest.skip(j - i) =~= s@.skip(j as int));
            }
            let tok = read_bytes_at(s, start, j - start);
            let ghost toks0 = toks.deep_view();
            let ghost tok_view = tok@;
            toks.push(tok);
            proof {
                assert(toks.deep_view() =~~= toks0 + seq![tok_view]);
                assert(spec_tokens(s@) =~~= toks.deep_view() + spec_tokens(s@.skip(j as int)));
            }
            i = j;
        }
    }
    proof {
        assert(s@.skip(n as int) =~= Seq::<u8>::empty());
        assert(toks.deep_view() =~~= toks.deep_view() + spec_tokens(s@.skip(n as int)));
    }
    toks
}

/// Leading whitespace count.
pub open spec fn lead_ws(s: Seq<u8>) -> nat
    decreases s.len(),
{
    if s.len() == 0 || !is_ws(s[0]) {
        0
    } else {
        1 + lead_ws(s.drop_first())
    }
}

/// Trailing whitespace count.
pub open spec fn trail_ws(s: Seq<u8>) -> nat
    decreases s.len(),
{
    if s.len() == 0 || !is_ws(s.last()) {
        0
    } else {
        1 + trail_ws(s.drop_last())
    }
}

/// `s` without its leading and trailing whitespace.
pub open spec fn spec_trim(s: Seq<u8>) -> Seq<u8> {
    let t = s.skip(lead_ws(s) as int);
    t.take(t.len() - trail_ws(t) as int)
}

/// A leading whitespace run of length `n` followed by the string's end
/// or a non-whitespace byte pins the leading count down.
proof fn lemma_lead_ws_range(s: Seq<u8>, n: nat)
    requires
        n <= s.len(),
        forall|k: int| 0 <= k < n ==> is_ws(#[trigger] s[k]),
        n == s.len() || !is_ws(s[n as int]),
    ensures
        lead_ws(s) == n,
    decreases n,
{
    if n > 0 {
        let t = s.drop_first();
        assert forall|k: int| 0 <= k < n - 1 implies is_ws(#[trigger] t[k]) by {
            assert(t[k] == s[k + 1]);
        }
        if n < s.len() {
            assert(t[n - 1] == s[n as int]);
        }
        lemma_lead_ws_range(t, (n - 1) as nat);
    }
}

/// A trailing whitespace run of length `m` preceded by the string's
/// start or a non-whitespace byte pins the trailing count down.
proof fn lemma_trail_ws_range(s: Seq<u8>, m: nat)
    requires
        m <= s.len(),
        forall|k: int| s.len() - m <= k < s.len() ==> is_ws(#[trigger] s[k]),
        m == s.len() || !is_ws(s[s.len() - m - 1]),
    ensures
        trail_ws(s) == m,
    decreases m,
{
    if m > 0 {
        let t = s.drop_last();
        assert(is_ws(s.last()));
        assert forall|k: int| t.len() - (m - 1) <= k < t.len() implies is_ws(#[trigger] t[k]) by {
            assert(t[k] == s[k]);
        }
        lemma_trail_ws_range(t, (m - 1) as nat);
    }
}

/// Copy of `s` without its leading and trailing whitespace.
pub fn trim_bytes(s: &Vec<u8>) -> (r: Vec<u8>)
    ensures
        r@ == spec_trim(s@),
{
    let n = s.len();
    let mut a: usize = 0;
    while a < n
        invariant
            n == s@.len(),
            a <= n,
            forall|k: int| 0 <= k < a ==> is_ws(#[trigger] s@[k]),
        ensures
            a <= n,
            forall|k: int| 0 <= k < a ==> is_ws(#[trigger] s@[k]),
            a == n || !is_ws(s@[a as int]),
        decreases n - a,
    {
        if !byte_is_ws(s[a]) {
            break;
        }
        a = a + 1;
    }
    let mut b: usize = n;
    while b > a
        invariant
            n == s@.len(),
            a <= b <= n,
            a == n || !is_ws(s@[a as int]),
            forall|k: int| b <= k < n ==> is_ws(#[trigger] s@[k]),
        ensures
            a <= b <= n,
            forall|k: int| b <= k < n ==> is_ws(#[trigger] s@[k]),
            b == a || !is_ws(s@[b - 1]),
        decreases b,
    {
        if !byte_is_ws(s[b - 1]) {
            break;
        }
        b = b - 1;
    }
    proof {
        lemma_lead_ws_range(s@, a as nat);
        let t = s@.skip(a as int);
        assert forall|k: int| t.len() - (n - b) <= k < t.len() implies is_ws(#[trigger] t[k]) by {
            assert(t[k] == s@[a + k]);
        }
        if (n - b) < t.len() {
            assert(t[t.len() - (n - b) - 1] == s@[b - 1]);
            assert(!is_ws(t[t.len() - (n - b) - 1]));
        }
        lemma_trail_ws_range(t, (n - b) as nat);
        assert(t.take(t.len() - (n - b)) =~= s@.subrange(a as int, b as int));
    }
    read_bytes_at(s, a, b - a)
}

/// An ASCII decimal digit.
pub open spec fn is_digit(b: u8) -> bool {
    48 <= b <= 57
}

/// The number a run of decimal digits spells.
pub open spec fn digits_val(s: Seq<u8>) -> int
    decreases s.len(),
{
    if s.len() == 0 {
        0
    } else {
        digits_val(s.drop_last()) * 10 + (s.last() - 48)
    }
}

/// The digits of an integer token: everything after an optional sign.
pub open spec fn int_token_body(s: Seq<u8>) -> Seq<u8> {
    if s.len() > 0 && (s[0] == 43 || s[0] == 45) {
        s.drop_first()
    } else {
        s
    }
}

/// The token spells a negative number.
pub open spec fn int_token_neg(s: Seq<u8>) -> bool {
    s.len() > 0 && s[0] == 45
}

/// The token parses as an `i64`: an optional sign, then at least one
/// digit, with the signed value within the type's range.
pub open spec fn is_i64_token(s: Seq<u8>) -> bool {
    let body = int_token_body(s);
    &&& body.len() > 0
    &&& forall|k: int| 0 <= k < body.len() ==> is_digit(#[trigger] body[k])
    &&& (if int_token_neg(s) {
        -digits_val(body) >= i64::MIN
    } else {
        digits_val(body) <= i64::MAX
    })
}

/// The signed value an integer token spells.
pub open spec fn i64_token_val(s: Seq<u8>) -> int {
    if int_token_neg(s) {
        -digits_val(int_token_body(s))
    } else {
        digits_val(int_token_body(s))
    }
}

/// A run of digits spells a nonnegative number.
proof fn lemma_digits_val_nonneg(s: Seq<u8>)
    requires
        forall|k: int| 0 <= k < s.len() ==> is_digit(#[trigger] s[k]),
    ensures
        digits_val(s) >= 0,
    decreases s.len(),
{
    if s.len() > 0 {
        lemma_digits_val_nonneg(s.drop_last());
    }
}

/// Extending a run of digits never shrinks its value: once a prefix
/// already spells too large a number, the whole run does too.
proof fn lemma_digits_val_monotonic(s: Seq<u8>, n: int)
    requires
        0 <= n <= s.len(),
        forall|k: int| 0 <= k < s.len() ==> is_digit(#[trigger] s[k]),
    ensures
        digits_val(s) >= digits_val(s.take(n)),
    decreases s.len() - n,
{
    if n < s.len() {
        let t = s.take(n + 1);
        assert(t.drop_last() =~= s.take(n));
        lemma_digits_val_nonneg(s.take(n));
        assert(digits_val(t) == digits_val(s.take(n)) * 10 + (t.last() - 48));
        assert(digits_val(s.take(n)) * 10 >= digits_val(s.take(n))) by (nonlinear_arith)
            requires
                digits_val(s.take(n)) >= 0,
        ;
        lemma_digits_val_monotonic(s, n + 1);
        assert(digits_val(s.take(n + 1)) >= digits_val(s.take(n)));
    } else {
        assert(s.take(n) =~= s);
    }
}

/// Read a signed decimal `i64` from a token; `None` exactly on tokens
/// that are not well-formed integers or fall outside the type's range.
pub fn parse_i64(tok: &Vec<u8>) -> (r: Option<i64>)
    ensures
        r is Some <==> is_i64_token(tok@),
        r is Some ==> r->Some_0 == i64_token_val(tok@),
{
    let n = tok.len();
    let mut start: usize = 0;
    let mut neg = false;
    if n > 0 && (tok[0] == 43 || tok[0] == 45) {
        start = 1;
        neg = tok[0] == 45;
    }
    if start >= n {
        // Empty body: no digits at all.
        return None;
    }
    let limit: u64 = if neg {
        9223372036854775808
    } else {
        9223372036854775807
    };
    let ghost body = int_token_body(tok@);
    proof {
        assert(body =~= tok@.skip(start as int));
    }
    let mut acc: u64 = 0;
    let mut i: usize = start;
    while i < n
        invariant
            n == tok@.len(),
            start <= i <= n,
            start < n,
            body == int_token_body(tok@),
            body == tok@.skip(start as int),
            body.len() == n - start,
            neg == int_token_neg(tok@),
            limit == if neg {
                9223372036854775808u64
            } else {
                9223372036854775807u64
            },
            forall|k: int| 0 <= k < i - start ==> is_digit(#[trigger] body[k]),
            acc == digits_val(body.take(i - start)),
            acc <= limit,
        decreases n - i,
    {
        let b = tok[i];
        if b < 48 || b > 57 {
            proof {
                assert(body[i - start] == b);
                assert(!is_i64_token(tok@));
            }
            return None;
        }
        let d = (b - 48) as u64;
        if acc > (limit - d) / 10 {
            // The value would leave the representable range, and more
            // digits can only grow it further.
            proof {
                lemma_fundamental_div_mod(limit - d, 10);
                assert(acc * 10 >= ((limit - d) / 10 + 1) * 10) by (nonlinear_arith)
                    requires
                        acc >= (limit - d) / 10 + 1,
                ;
                let pre = body.take(i - start + 1);
                assert(pre.drop_last() =~= body.take(i - start));
                assert(pre.last() == b);
                assert(digits_val(pre) > limit);
                if is_i64_token(tok@) {
                    lemma_digits_val_monotonic(body, i - start + 1);
                    assert(digits_val(body) > limit);
                }
            }
            return None;
        }
        proof {
            lemma_fundamental_div_mod(limit - d, 10);
            assert(acc * 10 <= ((limit - d) / 10) * 10) by (nonlinear_arith)
                requires
                    acc <= (limit - d) / 10,
            ;
            let pre = body.take(i - start + 1);
            assert(pre.drop_last() =~= body.take(i - start));
            assert(pre.last() == b);
        }
        acc = acc * 10 + d;
        i = i + 1;
    }
    proof {
        assert(body.take(n - start) =~= body);
    }
    if neg {
        if acc == 9223372036854775808 {
            Some(i64::MIN)
        } else {
            Some(-(acc as i64))
        }
    } else {
        Some(acc as i64)
    }
}

} // verus!
