//! Cyclic right rotation of a byte sequence.
use vstd::arithmetic::div_mod::{lemma_fundamental_div_mod, lemma_fundamental_div_mod_converse};
use vstd::prelude::*;

verus! {

/// `s` rotated right by `k` positions: the element at index `i` of the
/// result is the one that stood `k` places before it, wrapping around.
pub open spec fn rotate_right(s: Seq<u8>, k: int) -> Seq<u8> {
    Seq::new(s.len(), |i: int| s[(i - k) % (s.len() as int)])
}

/// Where index `i` of a sequence of length `n`, rotated right by `k`, reads from.
proof fn lemma_source_index(n: int, k: int, i: int)
    requires
        0 < n,
        0 <= i < n,
    ensures
        (i - k) % n == if i >= k % n {
            i - k % n
        } else {
            i + n - k % n
        },
        0 <= (i - k) % n < n,
{
    lemma_fundamental_div_mod(k, n);
    let q = k / n;
    let d = k % n;
    if i >= d {
        assert(i - k == (-q) * n + (i - d)) by (nonlinear_arith)
            requires
                k == n * q + d,
        ;
        lemma_fundamental_div_mod_converse(i - k, n, -q, i - d);
    } else {
        assert(i - k == (-q - 1) * n + (i + n - d)) by (nonlinear_arith)
            requires
                k == n * q + d,
        ;
        lemma_fundamental_div_mod_converse(i - k, n, -q - 1, i + n - d);
    }
}

/// Rotating by a whole number of lengths more changes nothing:
/// the rotation by `k + s.len()` equals the rotation by `k`, and the
/// rotation by `s.len()` (one full cycle) gives `s` back.
pub proof fn lemma_rotate_full_cycle(s: Seq<u8>, k: int)
    ensures
        rotate_right(s, k + s.len()) == rotate_right(s, k),
        rotate_right(s, s.len() as int) == s,
        rotate_right(s, 0) == s,
{
    let n = s.len() as int;
    assert forall|i: int| 0 <= i < n implies #[trigger] rotate_right(s, k + n)[i] == rotate_right(
        s,
        k,
    )[i] by {
        lemma_fundamental_div_mod(i - k, n);
        assert(i - k - n == ((i - k) / n - 1) * n + (i - k) % n) by (nonlinear_arith)
            requires
                i - k == n * ((i - k) / n) + (i - k) % n,
        ;
        lemma_fundamental_div_mod_converse(i - k - n, n, (i - k) / n - 1, (i - k) % n);
    }
    assert(rotate_right(s, k + n) =~= rotate_right(s, k));
    assert forall|i: int| 0 <= i < n implies #[trigger] rotate_right(s, 0)[i] == s[i] by {
        lemma_source_index(n, 0, i);
    }
    assert(rotate_right(s, 0) =~= s);
    assert(rotate_right(s, n) =~= rotate_right(s, 0)) by {
        assert forall|i: int| 0 <= i < n implies #[trigger] rotate_right(s, n)[i] == rotate_right(
            s,
            0,
        )[i] by {
            lemma_source_index(n, n, i);
            lemma_source_index(n, 0, i);
            assert(n % n == 0) by {
                lemma_fundamental_div_mod_converse(n, n, 1, 0);
            }
        }
    }
}

/// A rotation depends only on its distance taken modulo the length.
pub proof fn lemma_rotate_mod(s: Seq<u8>, k: int)
    requires
        s.len() > 0,
    ensures
        rotate_right(s, k % (s.len() as int)) == rotate_right(s, k),
{
    let n = s.len() as int;
    lemma_fundamental_div_mod(k, n);
    let d = k % n;
    lemma_fundamental_div_mod_converse(d, n, 0, d);
    assert forall|i: int| 0 <= i < n implies #[trigger] rotate_right(s, d)[i] == rotate_right(
        s,
        k,
    )[i] by {
        lemma_source_index(n, k, i);
        lemma_source_index(n, d, i);
    }
    assert(rotate_right(s, d) =~= rotate_right(s, k));
}

/// Rotating right by `k` (at most the length) moves the last `k` elements
/// to the front, ahead of the others in their order.
pub proof fn lemma_rotate_moves_tail_to_front(s: Seq<u8>, k: int)
    requires
        0 <= k <= s.len(),
    ensures
        rotate_right(s, k) == s.subrange(s.len() - k, s.len() as int) + s.subrange(
            0,
            s.len() - k,
        ),
{
    let n = s.len() as int;
    let rhs = s.subrange(n - k, n) + s.subrange(0, n - k);
    if k == n {
        lemma_rotate_full_cycle(s, 0);
        assert(rhs =~= s);
    } else {
        assert(k % n == k) by {
            lemma_fundamental_div_mod_converse(k, n, 0, k);
        }
        assert forall|i: int| 0 <= i < n implies #[trigger] rotate_right(s, k)[i] == rhs[i] by {
            lemma_source_index(n, k, i);
        }
        assert(rotate_right(s, k) =~= rhs);
    }
}

/// A rotation by `a` followed by a rotation by `b` is a rotation by `a + b`.
pub proof fn lemma_rotate_compose(s: Seq<u8>, a: int, b: int)
    ensures
        rotate_right(rotate_right(s, a), b) == rotate_right(s, a + b),
{
    let n = s.len() as int;
    assert forall|i: int| 0 <= i < n implies #[trigger] rotate_right(rotate_right(s, a), b)[i]
        == rotate_right(s, a + b)[i] by {
        let j = (i - b) % n;
        lemma_source_index(n, b, i);
        lemma_fundamental_div_mod(i - b, n);
        lemma_fundamental_div_mod(j - a, n);
        let q1 = (i - b) / n;
        let q2 = (j - a) / n;
        assert(i - (a + b) == (q1 + q2) * n + (j - a) % n) by (nonlinear_arith)
            requires
                i - b == n * q1 + j,
                j - a == n * q2 + (j - a) % n,
        ;
        lemma_source_index(n, a, j);
        lemma_fundamental_div_mod_converse(i - (a + b), n, q1 + q2, (j - a) % n);
    }
    assert(rotate_right(rotate_right(s, a), b) =~= rotate_right(s, a + b));
}

/// Returns a copy of `s` rotated right by `k` positions.
pub fn rotated_right(s: &[u8], k: usize) -> (r: Vec<u8>)
    ensures
        r@ == rotate_right(s@, k as int),
{
    let n = s.len();
    let mut r: Vec<u8> = Vec::new();
    if n == 0 {
        assert(r@ =~= rotate_right(s@, k as int));
        return r;
    }
    let d = k % n;
    let mut i: usize = 0;
    while i < n
        invariant
            n == s@.len(),
            0 < n,
            d == k % n,
            i <= n,
            r@.len() == i,
            forall|j: int| 0 <= j < i ==> #[trigger] r@[j] == rotate_right(s@, k as int)[j],
        decreases n - i,
    {
        proof {
            lemma_source_index(n as int, k as int, i as int);
        }
        if i >= d {
            r.push(s[i - d]);
        } else {
            r.push(s[n - (d - i)]);
        }
        i = i + 1;
    }
    assert(r@ =~= rotate_right(s@, k as int));
    r
}

} // verus!
