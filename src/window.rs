//! Circular index arithmetic for the single-focus preload window.
use vstd::prelude::*;
use vstd::arithmetic::div_mod::{
    lemma_small_mod,
    lemma_mod_add_multiples_vanish,
    lemma_mod_sub_multiples_vanish,
};
use vstd::set_lib::{set_int_range, lemma_int_range, lemma_map_size};

verus! {

/// `x mod n` for `x` within one period of `[0, n)`.
pub proof fn lemma_mod_range(x: int, n: int)
    requires
        n > 0,
        -n <= x < 2 * n,
    ensures
        x % n == if x < 0 {
            x + n
        } else if x < n {
            x
        } else {
            x - n
        },
{
    if x < 0 {
        lemma_small_mod((x + n) as nat, n as nat);
        lemma_mod_add_multiples_vanish(x, n);
    } else if x < n {
        lemma_small_mod(x as nat, n as nat);
    } else {
        lemma_small_mod((x - n) as nat, n as nat);
        lemma_mod_sub_multiples_vanish(x, n);
    }
}

/// The distance from `f` to `i` going around a circle of `n` positions.
pub open spec fn circ_dist(n: int, f: int, i: int) -> int {
    let a = (i - f) % n;
    let b = (f - i) % n;
    if a <= b {
        a
    } else {
        b
    }
}

/// Whether position `i` lies within `d` steps of focus `f`, either way round.
pub open spec fn in_window(n: int, f: int, d: int, i: int) -> bool {
    circ_dist(n, f, i) <= d
}

/// The positions of a collection of `n` entries within `d` steps of `f`.
pub open spec fn window_set(n: int, f: int, d: int) -> Set<int> {
    Set::new(|i: int| 0 <= i < n && in_window(n, f, d, i))
}

/// `current_index - to_subtract`, wrapping round a collection of `vec_len`.
pub fn get_vec_index_subtracted_by(vec_len: usize, current_index: usize, to_subtract: usize) -> (r:
    usize)
    requires
        current_index < vec_len,
        to_subtract <= vec_len,
    ensures
        r == (current_index - to_subtract) % (vec_len as int),
        r < vec_len,
{
    proof {
        lemma_mod_range(current_index - to_subtract, vec_len as int);
    }
    if current_index < to_subtract {
        vec_len - (to_subtract - current_index)
    } else {
        current_index - to_subtract
    }
}

/// `current_index + to_sum`, wrapping round a collection of `vec_len`.
pub fn get_vec_index_sum_by(vec_len: usize, current_index: usize, to_sum: usize) -> (r: usize)
    requires
        current_index < vec_len,
        to_sum <= vec_len,
    ensures
        r == (current_index + to_sum) % (vec_len as int),
        r < vec_len,
{
    proof {
        lemma_mod_range(current_index + to_sum, vec_len as int);
    }
    if to_sum >= vec_len - current_index {
        to_sum - (vec_len - current_index)
    } else {
        current_index + to_sum
    }
}

/// Whether `i` is within `d` steps of `f` on a circle of `n`.
pub fn window_contains(n: usize, f: usize, d: usize, i: usize) -> (r: bool)
    requires
        f < n,
        i < n,
    ensures
        r == in_window(n as int, f as int, d as int, i as int),
{
    proof {
        lemma_mod_range(i - f, n as int);
        lemma_mod_range(f - i, n as int);
    }
    let a: usize = if i >= f {
        i - f
    } else {
        n - (f - i)
    };
    let b: usize = if f >= i {
        f - i
    } else {
        n - (i - f)
    };
    let m = if a <= b {
        a
    } else {
        b
    };
    m <= d
}

/// With `2d <= n`, the window around any focus holds `min(n, 2d + 1)`
/// positions.
pub proof fn lemma_window_size(n: int, f: int, d: int)
    requires
        0 <= f < n,
        0 <= d,
        2 * d <= n,
    ensures
        window_set(n, f, d).finite(),
        window_set(n, f, d).len() == if n < 2 * d + 1 {
            n
        } else {
            2 * d + 1
        },
{
    let m = if n < 2 * d + 1 {
        n
    } else {
        2 * d + 1
    };
    let g = |k: int| (f - d + k) % n;
    let ks = set_int_range(0, m);
    lemma_int_range(0, m);
    assert forall|k1: int, k2: int|
        ks.contains(k1) && ks.contains(k2) && #[trigger] g(k1) == #[trigger] g(k2) implies k1
        == k2 by {
        lemma_mod_range(f - d + k1, n);
        lemma_mod_range(f - d + k2, n);
    }
    assert(vstd::relations::injective_on(g, ks));
    assert forall|i: int| #[trigger] window_set(n, f, d).contains(i) implies ks.map(g).contains(
        i,
    ) by {
        lemma_mod_range(i - f, n);
        lemma_mod_range(f - i, n);
        let b = (f - i) % n;
        let a = (i - f) % n;
        let k = if b <= d {
            d - b
        } else {
            d + a
        };
        lemma_mod_range(f - d + k, n);
        assert(ks.contains(k) && g(k) == i);
    }
    assert forall|i: int| #[trigger] ks.map(g).contains(i) implies window_set(n, f, d).contains(
        i,
    ) by {
        let k = choose|k: int| ks.contains(k) && g(k) == i;
        lemma_mod_range(f - d + k, n);
        lemma_mod_range(i - f, n);
        lemma_mod_range(f - i, n);
    }
    assert(ks.map(g) =~= window_set(n, f, d));
    lemma_map_size(ks, window_set(n, f, d), g);
}

} // verus!
