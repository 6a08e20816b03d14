//! The feedback mixing matrix: Hadamard matrices of orders that are powers of
//! two, and the product of a four by four matrix with a vector.
use vstd::arithmetic::div_mod::lemma_fundamental_div_mod_converse;
use vstd::arithmetic::mul::lemma_mul_unary_negation;
use vstd::prelude::*;

verus! {

/// `n` is one, or twice a power of two.
pub open spec fn is_power_of_two(n: nat) -> bool
    decreases n,
{
    n == 1 || (n >= 2 && n % 2 == 0 && is_power_of_two(n / 2))
}

/// The entry in row `row` and column `col` of the Hadamard matrix of order `n`.
/// The matrix of order one is `1`; the matrix of order `2k` is made of four
/// copies of the matrix of order `k`, the lower right one negated.
pub open spec fn hadamard_entry(n: nat, row: nat, col: nat) -> int
    decreases n,
{
    if n <= 1 {
        1
    } else {
        let half = n / 2;
        let inner = hadamard_entry(half, inner_index(n, row), inner_index(n, col));
        if row >= half && col >= half {
            -inner
        } else {
            inner
        }
    }
}

/// The row or column of the quarter that holds row or column `index` of the
/// matrix of order `n`.
pub open spec fn inner_index(n: nat, index: nat) -> nat {
    if index >= n / 2 {
        (index - n / 2) as nat
    } else {
        index
    }
}

/// The sum, over the first `len` columns, of the products of the entries of
/// rows `r` and `s` of the Hadamard matrix of order `n`.
pub open spec fn row_dot(n: nat, r: nat, s: nat, len: nat) -> int
    decreases len,
{
    if len == 0 {
        0
    } else {
        row_dot(n, r, s, (len - 1) as nat) + hadamard_entry(n, r, (len - 1) as nat)
            * hadamard_entry(n, s, (len - 1) as nat)
    }
}

/// Every entry of a Hadamard matrix is one or minus one.
pub proof fn lemma_entry_is_unit(n: nat, row: nat, col: nat)
    ensures
        hadamard_entry(n, row, col) == 1 || hadamard_entry(n, row, col) == -1,
    decreases n,
{
    if n > 1 {
        lemma_entry_is_unit(n / 2, inner_index(n, row), inner_index(n, col));
    }
}

/// Of two different powers of two, the greater is at least twice the smaller.
pub proof fn lemma_powers_of_two_double(p: nat, q: nat)
    requires
        is_power_of_two(p),
        is_power_of_two(q),
        p < q,
    ensures
        2 * p <= q,
    decreases q,
{
    if p > 1 {
        lemma_powers_of_two_double(p / 2, q / 2);
    }
}

/// Over the left half of the columns, the rows of the matrix of order `n` are
/// the rows of the matrix of half the order.
proof fn lemma_row_dot_left(n: nat, r: nat, s: nat, len: nat)
    requires
        n >= 2,
        n % 2 == 0,
        r < n,
        s < n,
        len <= n / 2,
    ensures
        row_dot(n, r, s, len) == row_dot(n / 2, inner_index(n, r), inner_index(n, s), len),
    decreases len,
{
    if len > 0 {
        lemma_row_dot_left(n, r, s, (len - 1) as nat);
    }
}

/// Over the right half of the columns, the rows of the matrix of order `n` are
/// the rows of the matrix of half the order, negated in the lower half.
proof fn lemma_row_dot_right(n: nat, r: nat, s: nat, len: nat)
    requires
        n >= 2,
        n % 2 == 0,
        r < n,
        s < n,
        len <= n / 2,
    ensures
        row_dot(n, r, s, n / 2 + len) == row_dot(n, r, s, n / 2) + (if (r >= n / 2) == (s >= n
            / 2) {
            row_dot(n / 2, inner_index(n, r), inner_index(n, s), len)
        } else {
            -row_dot(n / 2, inner_index(n, r), inner_index(n, s), len)
        }),
    decreases len,
{
    if len > 0 {
        let half = n / 2;
        let col = (len - 1) as nat;
        lemma_row_dot_right(n, r, s, col);
        let a = hadamard_entry(half, inner_index(n, r), col);
        let b = hadamard_entry(half, inner_index(n, s), col);
        assert(hadamard_entry(n, r, half + col) == if r >= half {
            -a
        } else {
            a
        });
        assert(hadamard_entry(n, s, half + col) == if s >= half {
            -b
        } else {
            b
        });
        lemma_mul_unary_negation(a, b);
        lemma_mul_unary_negation(a, -b);
        assert(row_dot(n, r, s, half + len) == row_dot(n, r, s, (half + len - 1) as nat)
            + hadamard_entry(n, r, half + col) * hadamard_entry(n, s, half + col));
    }
}

/// The rows of a Hadamard matrix are orthogonal: the dot product of two
/// different rows is zero, and that of a row with itself is the order.
pub proof fn lemma_rows_orthogonal(n: nat, r: nat, s: nat)
    requires
        is_power_of_two(n),
        r < n,
        s < n,
    ensures
        row_dot(n, r, s, n) == (if r == s {
            n as int
        } else {
            0
        }),
    decreases n,
{
    if n == 1 {
        assert(row_dot(n, r, s, 1) == row_dot(n, r, s, 0) + hadamard_entry(n, r, 0)
            * hadamard_entry(n, s, 0));
    } else {
        let half = n / 2;
        lemma_rows_orthogonal(half, inner_index(n, r), inner_index(n, s));
        lemma_row_dot_left(n, r, s, half);
        lemma_row_dot_right(n, r, s, half);
        assert(half + half == n);
    }
}

/// A Hadamard matrix is symmetric.
pub proof fn lemma_symmetric(n: nat, row: nat, col: nat)
    ensures
        hadamard_entry(n, row, col) == hadamard_entry(n, col, row),
    decreases n,
{
    if n > 1 {
        lemma_symmetric(n / 2, inner_index(n, row), inner_index(n, col));
    }
}

/// `m` holds, row after row, the Hadamard matrix of order `n`.
pub open spec fn is_hadamard(m: Seq<i8>, n: nat) -> bool {
    &&& is_power_of_two(n)
    &&& m.len() == n * n
    &&& forall|row: nat, col: nat|
        row < n && col < n ==> m[(row * n + col) as int] == #[trigger] hadamard_entry(n, row, col)
}

/// Row `row` and column `col` of a square of side `n` lie at a place of their
/// own among its `n * n` places, from which both can be had again.
pub proof fn lemma_place(n: nat, row: nat, col: nat)
    requires
        row < n,
        col < n,
    ensures
        row * n + col < n * n,
        (row * n + col) / n == row,
        (row * n + col) % n == col,
{
    assert(row * n + col < n * n) by (nonlinear_arith)
        requires
            row < n,
            col < n,
    ;
    assert(n * row == row * n) by (nonlinear_arith);
    lemma_fundamental_div_mod_converse((row * n + col) as int, n as int, row as int, col as int);
}

/// The Hadamard matrix of order `2 * k`, from the one of order `k`.
fn hadamard_doubled(m: &Vec<i8>, k: usize) -> (next: Vec<i8>)
    requires
        is_hadamard(m@, k as nat),
        (2 * k) * (2 * k) <= usize::MAX,
    ensures
        is_hadamard(next@, (2 * k) as nat),
{
    assert(1 <= k && 2 * k <= (2 * k) * (2 * k) && k * k <= (2 * k) * (2 * k)) by (nonlinear_arith)
        requires
            is_power_of_two(k as nat),
    ;
    let size: usize = 2 * k;
    let mut next: Vec<i8> = Vec::new();
    let mut row: usize = 0;
    let mut col: usize = 0;
    while row < size
        invariant
            size == 2 * k,
            k >= 1,
            size * size <= usize::MAX,
            k * k <= usize::MAX,
            is_hadamard(m@, k as nat),
            row <= size,
            col < size,
            row == size ==> col == 0,
            next@.len() == row * size + col,
            forall|i: int|
                0 <= i < next@.len() ==> #[trigger] next@[i] == hadamard_entry(
                    size as nat,
                    (i / size as int) as nat,
                    (i % size as int) as nat,
                ),
        decreases (size - row) * size - col,
    {
        let inner_row: usize = if row >= k {
            row - k
        } else {
            row
        };
        let inner_col: usize = if col >= k {
            col - k
        } else {
            col
        };
        proof {
            lemma_place(k as nat, inner_row as nat, inner_col as nat);
            lemma_place(size as nat, row as nat, col as nat);
            lemma_entry_is_unit(k as nat, inner_row as nat, inner_col as nat);
            assert(hadamard_entry(k as nat, inner_row as nat, inner_col as nat) == m@[(inner_row
                * k + inner_col) as int]);
            assert(size as nat / 2 == k);
            assert(inner_row * k <= inner_row * k + inner_col);
        }
        let inner: i8 = m[inner_row * k + inner_col];
        let entry: i8 = if row >= k && col >= k {
            -inner
        } else {
            inner
        };
        next.push(entry);
        proof {
            assert((size - row) * size - col > (size - row - 1) * size) by (nonlinear_arith)
                requires
                    col < size,
                    row < size,
            ;
            assert((row + 1) * size == row * size + size) by (nonlinear_arith);
        }
        if col + 1 == size {
            col = 0;
            row += 1;
        } else {
            col += 1;
        }
    }
    proof {
        assert(size as nat % 2 == 0 && size as nat / 2 == k);
        assert forall|r: nat, c: nat| r < size && c < size implies next@[(r * size + c) as int]
            == #[trigger] hadamard_entry(size as nat, r, c) by {
            lemma_place(size as nat, r, c);
        }
    }
    next
}

/// The Hadamard matrix of order `n`, row after row, built by doubling from
/// the matrix of order one. `None` unless `n` is a power of two whose square
/// fits a `usize`.
pub fn hadamard(n: usize) -> (r: Option<Vec<i8>>)
    ensures
        match r {
            Some(m) => is_hadamard(m@, n as nat),
            None => !is_power_of_two(n as nat) || n * n > usize::MAX,
        },
{
    if n == 0 {
        return None;
    }
    if n.checked_mul(n).is_none() {
        return None;
    }
    let mut m: Vec<i8> = Vec::new();
    m.push(1);
    let mut k: usize = 1;
    proof {
        assert forall|row: nat, col: nat| row < 1 && col < 1 implies m@[(row * 1 + col) as int]
            == #[trigger] hadamard_entry(1, row, col) by {}
    }
    while k < n
        invariant
            1 <= k <= n,
            n * n <= usize::MAX,
            is_hadamard(m@, k as nat),
        decreases n - k,
    {
        if k > n / 2 {
            proof {
                if is_power_of_two(n as nat) {
                    lemma_powers_of_two_double(k as nat, n as nat);
                }
            }
            return None;
        }
        proof {
            assert((2 * k) * (2 * k) <= n * n) by (nonlinear_arith)
                requires
                    2 * k <= n,
            ;
        }
        m = hadamard_doubled(&m, k);
        k = 2 * k;
    }
    Some(m)
}

/// The dot product of row `row` of the four by four matrix `matrix`, held row
/// after row, with `vector`.
pub open spec fn row_times_vector(matrix: Seq<i8>, vector: Seq<i32>, row: int) -> int {
    matrix[4 * row] * vector[0] + matrix[4 * row + 1] * vector[1] + matrix[4 * row + 2]
        * vector[2] + matrix[4 * row + 3] * vector[3]
}

/// One entry of the product of a matrix with a vector.
fn row_product(vector: &[i32; 4], matrix: &[i8; 16], row: usize) -> (sum: i64)
    requires
        row < 4,
    ensures
        sum == row_times_vector(matrix@, vector@, row as int),
{
    let mut sum: i64 = 0;
    let mut col: usize = 0;
    while col < 4
        invariant
            row < 4,
            col <= 4,
            -(col * 0x40_0000_0000) <= sum <= col * 0x40_0000_0000,
            sum == (if col > 0 {
                matrix@[4 * row] * vector@[0]
            } else {
                0
            }) + (if col > 1 {
                matrix@[4 * row + 1] * vector@[1]
            } else {
                0
            }) + (if col > 2 {
                matrix@[4 * row + 2] * vector@[2]
            } else {
                0
            }) + (if col > 3 {
                matrix@[4 * row + 3] * vector@[3]
            } else {
                0
            }),
        decreases 4 - col,
    {
        let a: i64 = matrix[4 * row + col] as i64;
        let b: i64 = vector[col] as i64;
        assert(-0x40_0000_0000 <= a * b <= 0x40_0000_0000) by (nonlinear_arith)
            requires
                -128 <= a <= 127,
                -0x8000_0000 <= b <= 0x7fff_ffff,
        ;
        sum = sum + a * b;
        col += 1;
    }
    sum
}

/// The product of the four by four matrix `matrix`, held row after row, with
/// `vector`.
pub fn matrix_vector_multiply(vector: &[i32; 4], matrix: &[i8; 16]) -> (product: [i64; 4])
    ensures
        forall|row: int|
            0 <= row < 4 ==> #[trigger] product@[row] == row_times_vector(
                matrix@,
                vector@,
                row,
            ),
{
    [
        row_product(vector, matrix, 0),
        row_product(vector, matrix, 1),
        row_product(vector, matrix, 2),
        row_product(vector, matrix, 3),
    ]
}

/// The Hadamard matrix of order four, entry by entry.
pub proof fn lemma_order_four()
    ensures
        hadamard_entry(4, 0, 0) == 1 && hadamard_entry(4, 0, 1) == 1 && hadamard_entry(4, 0, 2) == 1
            && hadamard_entry(4, 0, 3) == 1,
        hadamard_entry(4, 1, 0) == 1 && hadamard_entry(4, 1, 1) == -1 && hadamard_entry(4, 1, 2)
            == 1 && hadamard_entry(4, 1, 3) == -1,
        hadamard_entry(4, 2, 0) == 1 && hadamard_entry(4, 2, 1) == 1 && hadamard_entry(4, 2, 2)
            == -1 && hadamard_entry(4, 2, 3) == -1,
        hadamard_entry(4, 3, 0) == 1 && hadamard_entry(4, 3, 1) == -1 && hadamard_entry(4, 3, 2)
            == -1 && hadamard_entry(4, 3, 3) == 1,
{
    reveal_with_fuel(hadamard_entry, 3);
    assert(hadamard_entry(2, 0, 0) == 1 && hadamard_entry(2, 0, 1) == 1 && hadamard_entry(2, 1, 0)
        == 1 && hadamard_entry(2, 1, 1) == -1);
}

/// The product of one or minus one with a number is the number or its
/// negative.
proof fn lemma_signed(sign: int, x: int)
    requires
        sign == 1 || sign == -1,
    ensures
        sign * x == (if sign == 1 {
            x
        } else {
            -x
        }),
{
    assert(1 * x == x && (-1) * x == -x) by (nonlinear_arith);
}

/// The sum of the squares of the four entries of `vector`.
pub open spec fn energy(vector: Seq<int>) -> int {
    vector[0] * vector[0] + vector[1] * vector[1] + vector[2] * vector[2] + vector[3] * vector[3]
}

/// The product of the four by four matrix `matrix` with `vector`.
pub open spec fn mixed(matrix: Seq<i8>, vector: Seq<i32>) -> Seq<int> {
    Seq::new(4, |row: int| row_times_vector(matrix, vector, row))
}

/// Mixing by the Hadamard matrix of order four multiplies the energy of a
/// vector by four: mixing by half that matrix keeps the energy as it is.
pub proof fn lemma_mixing_energy(matrix: Seq<i8>, vector: Seq<i32>)
    requires
        is_hadamard(matrix, 4),
        vector.len() == 4,
    ensures
        energy(mixed(matrix, vector)) == 4 * energy(vector.map_values(|x: i32| x as int)),
{
    lemma_order_four();
    assert(matrix[0] == 1 && matrix[1] == 1 && matrix[2] == 1 && matrix[3] == 1) by {
        assert(matrix[(0 * 4 + 0) as int] == hadamard_entry(4, 0, 0));
        assert(matrix[(0 * 4 + 1) as int] == hadamard_entry(4, 0, 1));
        assert(matrix[(0 * 4 + 2) as int] == hadamard_entry(4, 0, 2));
        assert(matrix[(0 * 4 + 3) as int] == hadamard_entry(4, 0, 3));
    }
    assert(matrix[4] == 1 && matrix[5] == -1 && matrix[6] == 1 && matrix[7] == -1) by {
        assert(matrix[(1 * 4 + 0) as int] == hadamard_entry(4, 1, 0));
        assert(matrix[(1 * 4 + 1) as int] == hadamard_entry(4, 1, 1));
        assert(matrix[(1 * 4 + 2) as int] == hadamard_entry(4, 1, 2));
        assert(matrix[(1 * 4 + 3) as int] == hadamard_entry(4, 1, 3));
    }
    assert(matrix[8] == 1 && matrix[9] == 1 && matrix[10] == -1 && matrix[11] == -1) by {
        assert(matrix[(2 * 4 + 0) as int] == hadamard_entry(4, 2, 0));
        assert(matrix[(2 * 4 + 1) as int] == hadamard_entry(4, 2, 1));
        assert(matrix[(2 * 4 + 2) as int] == hadamard_entry(4, 2, 2));
        assert(matrix[(2 * 4 + 3) as int] == hadamard_entry(4, 2, 3));
    }
    assert(matrix[12] == 1 && matrix[13] == -1 && matrix[14] == -1 && matrix[15] == 1) by {
        assert(matrix[(3 * 4 + 0) as int] == hadamard_entry(4, 3, 0));
        assert(matrix[(3 * 4 + 1) as int] == hadamard_entry(4, 3, 1));
        assert(matrix[(3 * 4 + 2) as int] == hadamard_entry(4, 3, 2));
        assert(matrix[(3 * 4 + 3) as int] == hadamard_entry(4, 3, 3));
    }
    let a = vector[0] as int;
    let b = vector[1] as int;
    let c = vector[2] as int;
    let d = vector[3] as int;
    let m = mixed(matrix, vector);
    assert forall|place: int| 0 <= place < 16 implies #[trigger] matrix[place] * vector[place % 4]
        == (if matrix[place] == 1 {
        vector[place % 4] as int
    } else {
        -vector[place % 4]
    }) by {
        lemma_signed(matrix[place] as int, vector[place % 4] as int);
    }
    assert(matrix[0] * vector[0] == a && matrix[1] * vector[1] == b);
    assert(matrix[2] * vector[2] == c && matrix[3] * vector[3] == d);
    assert(matrix[4] * vector[0] == a && matrix[5] * vector[1] == -b);
    assert(matrix[6] * vector[2] == c && matrix[7] * vector[3] == -d);
    assert(matrix[8] * vector[0] == a && matrix[9] * vector[1] == b);
    assert(matrix[10] * vector[2] == -c && matrix[11] * vector[3] == -d);
    assert(matrix[12] * vector[0] == a && matrix[13] * vector[1] == -b);
    assert(matrix[14] * vector[2] == -c && matrix[15] * vector[3] == d);
    assert(m[0] == a + b + c + d);
    assert(m[1] == a - b + c - d);
    assert(m[2] == a + b - c - d);
    assert(m[3] == a - b - c + d);
    assert((a + b + c + d) * (a + b + c + d) + (a - b + c - d) * (a - b + c - d) + (a + b - c - d)
        * (a + b - c - d) + (a - b - c + d) * (a - b - c + d) == 4 * (a * a + b * b + c * c + d
        * d)) by (nonlinear_arith);
}

} // verus!
