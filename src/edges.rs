use vstd::prelude::*;

verus! {

/// Whether `m` is an `n x n` matrix.
pub open spec fn is_square(m: Seq<Vec<u128>>, n: int) -> bool {
    m.len() == n && forall|i: int| 0 <= i < n ==> (#[trigger] m[i]).len() == n
}

/// Whether position `(a, b)` comes before `(c, d)` in row-major order.
pub open spec fn before(a: int, b: int, c: int, d: int) -> bool {
    a < c || (a == c && b < d)
}

/// Whether `e` lists exactly the non-zero entries of the square matrix `m`,
/// each once, as `(row, column, weight)` triples in row-major order.
pub open spec fn is_edge_list_of(e: Seq<(usize, usize, u128)>, m: Seq<Vec<u128>>) -> bool {
    &&& forall|k: int|
        0 <= k < e.len() ==> (#[trigger] e[k]).0 < m.len() && e[k].1 < m.len() && e[k].2 != 0 && e[k].2
            == m[e[k].0 as int]@[e[k].1 as int]
    &&& forall|i: int, j: int|
        0 <= i < m.len() && 0 <= j < m.len() && #[trigger] m[i]@[j] != 0 ==> exists|k: int|
            0 <= k < e.len() && e[k] == (i as usize, j as usize, m[i]@[j])
    &&& forall|k: int, l: int|
        0 <= k < l < e.len() ==> before(
            (#[trigger] e[k]).0 as int,
            e[k].1 as int,
            (#[trigger] e[l]).0 as int,
            e[l].1 as int,
        )
}

/// Lists the non-zero entries of a square matrix as `(row, column, weight)`
/// triples, in row-major order.
pub fn edges_of(m: &Vec<Vec<u128>>) -> (r: Vec<(usize, usize, u128)>)
    requires
        is_square(m@, m.len() as int),
    ensures
        is_edge_list_of(r@, m@),
{
    let n = m.len();
    let mut out: Vec<(usize, usize, u128)> = Vec::new();
    let mut i: usize = 0;
    while i < n
        invariant
            i <= n,
            n == m.len(),
            is_square(m@, n as int),
            forall|k: int|
                0 <= k < out.len() ==> (#[trigger] out@[k]).0 < i && out@[k].1 < n && out@[k].2 != 0
                    && out@[k].2 == m@[out@[k].0 as int]@[out@[k].1 as int],
            forall|a: int, b: int|
                0 <= a < i && 0 <= b < n && #[trigger] m@[a]@[b] != 0 ==> exists|k: int|
                    0 <= k < out.len() && out@[k] == (a as usize, b as usize, m@[a]@[b]),
            forall|k: int, l: int|
                0 <= k < l < out.len() ==> before(
                    (#[trigger] out@[k]).0 as int,
                    out@[k].1 as int,
                    (#[trigger] out@[l]).0 as int,
                    out@[l].1 as int,
                ),
        decreases n - i,
    {
        let row = &m[i];
        let mut j: usize = 0;
        while j < n
            invariant
                i < n,
                j <= n,
                n == m.len(),
                is_square(m@, n as int),
                row@ == m@[i as int]@,
                forall|k: int|
                    0 <= k < out.len() ==> before((#[trigger] out@[k]).0 as int, out@[k].1 as int, i as int, j as int)
                        && out@[k].1 < n && out@[k].2 != 0 && out@[k].2 == m@[out@[k].0 as int]@[out@[k].1 as int],
                forall|a: int, b: int|
                    ((0 <= a < i && 0 <= b < n) || (a == i && 0 <= b < j)) && #[trigger] m@[a]@[b] != 0 ==> exists|k: int|
                        0 <= k < out.len() && out@[k] == (a as usize, b as usize, m@[a]@[b]),
                forall|k: int, l: int|
                    0 <= k < l < out.len() ==> before(
                        (#[trigger] out@[k]).0 as int,
                        out@[k].1 as int,
                        (#[trigger] out@[l]).0 as int,
                        out@[l].1 as int,
                    ),
            decreases n - j,
        {
            let val = row[j];
            if val != 0 {
                let ghost prev = out@;
                out.push((i, j, val));
                proof {
                    assert forall|a: int, b: int|
                        ((0 <= a < i && 0 <= b < n) || (a == i && 0 <= b < j + 1)) && #[trigger] m@[a]@[b] != 0 implies exists|k: int|
                            0 <= k < out.len() && out@[k] == (a as usize, b as usize, m@[a]@[b]) by {
                        if a == i && b == j {
                            assert(out@[prev.len() as int] == (a as usize, b as usize, m@[a]@[b]));
                        } else {
                            let k = choose|k: int| 0 <= k < prev.len() && prev[k] == (a as usize, b as usize, m@[a]@[b]);
                            assert(out@[k] == prev[k]);
                        }
                    }
                }
            }
            j = j + 1;
        }
        i = i + 1;
    }
    out
}

} // verus!
