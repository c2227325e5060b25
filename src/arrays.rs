//! Dense arrays of exact rationals used to derive rate matrices.
//!
//! Every array holds integer numerators over one shared positive denominator, so that the
//! value of element `m` is `data[m] / denom`. Products and sums of such arrays are exact.
use vstd::prelude::*;

verus! {

/// Failure to build or combine arrays.
#[derive(Debug, Clone, Copy, PartialEq, Eq)]
pub enum ArrayError {
    /// The number of elements does not match the shape, or two shapes disagree.
    Shape,
    /// A denominator of zero.
    ZeroDenominator,
    /// A numerator or a denominator does not fit the integer type that holds it.
    Overflow,
}

/// `b` raised to the power `e`.
pub open spec fn pow(b: int, e: nat) -> int
    decreases e,
{
    if e == 0 {
        1
    } else {
        b * pow(b, (e - 1) as nat)
    }
}

/// Whether `x` fits an `i64`.
pub open spec fn in_i64(x: int) -> bool {
    i64::MIN <= x <= i64::MAX
}

/// A row-major matrix of numerators over a common denominator.
#[derive(Debug)]
pub struct Array2D {
    pub data: Vec<i64>,
    pub shape: (usize, usize),
    pub denom: u64,
}

impl Array2D {
    /// The element count agrees with the shape and the denominator is positive.
    pub open spec fn wf(&self) -> bool {
        &&& self.data@.len() == self.shape.0 * self.shape.1
        &&& self.denom > 0
    }

    /// Builds an array, checking that `data` holds `shape.0 * shape.1` numerators and that
    /// the denominator is positive.
    pub fn new(data: Vec<i64>, shape: (usize, usize), denom: u64) -> (r: Result<
        Array2D,
        ArrayError,
    >)
        ensures
            r is Ok <==> data@.len() == shape.0 * shape.1 && denom > 0,
            r == Err::<Array2D, ArrayError>(ArrayError::Shape) <==> data@.len() != shape.0
                * shape.1,
            r == Err::<Array2D, ArrayError>(ArrayError::ZeroDenominator) <==> data@.len()
                == shape.0 * shape.1 && denom == 0,
            r matches Ok(a) ==> a.wf() && a.data@ == data@ && a.shape == shape && a.denom
                == denom,
    {
        let len = data.len();
        let n = match shape.0.checked_mul(shape.1) {
            Some(n) => n,
            None => {
                return Err(ArrayError::Shape);
            },
        };
        if len != n {
            return Err(ArrayError::Shape);
        }
        if denom == 0 {
            return Err(ArrayError::ZeroDenominator);
        }
        Ok(Array2D { data, shape, denom })
    }
}

impl Clone for Array2D {
    fn clone(&self) -> (r: Array2D)
        ensures
            r.data@ == self.data@,
            r.shape == self.shape,
            r.denom == self.denom,
    {
        Array2D { data: self.data.clone(), shape: self.shape, denom: self.denom }
    }
}

/// A row-major array of four dimensions, of numerators over a common denominator.
#[derive(Debug)]
pub struct Array4D {
    pub data: Vec<i64>,
    pub shape: (usize, usize, usize, usize),
    pub denom: u64,
}

impl Array4D {
    /// The element count agrees with the shape and the denominator is positive.
    pub open spec fn wf(&self) -> bool {
        &&& self.data@.len() == self.shape.0 * self.shape.1 * self.shape.2 * self.shape.3
        &&& self.denom > 0
    }

    /// Builds an array, checking that `data` holds as many numerators as the shape has
    /// elements and that the denominator is positive.
    pub fn new(data: Vec<i64>, shape: (usize, usize, usize, usize), denom: u64) -> (r: Result<
        Array4D,
        ArrayError,
    >)
        ensures
            r is Ok <==> data@.len() == shape.0 * shape.1 * shape.2 * shape.3 && denom > 0,
            r == Err::<Array4D, ArrayError>(ArrayError::Shape) <==> data@.len() != shape.0
                * shape.1 * shape.2 * shape.3,
            r == Err::<Array4D, ArrayError>(ArrayError::ZeroDenominator) <==> data@.len()
                == shape.0 * shape.1 * shape.2 * shape.3 && denom == 0,
            r matches Ok(a) ==> a.wf() && a.data@ == data@ && a.shape == shape && a.denom
                == denom,
    {
        let len = data.len();
        let ok = if shape.0 == 0 || shape.1 == 0 || shape.2 == 0 || shape.3 == 0 {
            assert(shape.0 * shape.1 * shape.2 * shape.3 == 0) by (nonlinear_arith)
                requires
                    shape.0 == 0 || shape.1 == 0 || shape.2 == 0 || shape.3 == 0,
            ;
            len == 0
        } else {
            match shape.0.checked_mul(shape.1) {
                None => {
                    assert(shape.0 * shape.1 * shape.2 * shape.3 >= shape.0 * shape.1)
                        by (nonlinear_arith)
                        requires
                            shape.2 >= 1,
                            shape.3 >= 1,
                            shape.0 * shape.1 >= 0,
                    ;
                    false
                },
                Some(ab) => match ab.checked_mul(shape.2) {
                    None => {
                        assert(shape.0 * shape.1 * shape.2 * shape.3 >= ab * shape.2)
                            by (nonlinear_arith)
                            requires
                                ab == shape.0 * shape.1,
                                shape.3 >= 1,
                                ab * shape.2 >= 0,
                        ;
                        false
                    },
                    Some(abc) => match abc.checked_mul(shape.3) {
                        None => false,
                        Some(n) => len == n,
                    },
                },
            }
        };
        if !ok {
            return Err(ArrayError::Shape);
        }
        if denom == 0 {
            return Err(ArrayError::ZeroDenominator);
        }
        Ok(Array4D { data, shape, denom })
    }
}

/// Numerator of element (i, j) of `power` for the parameter `p / d`, over the common
/// denominator `d^order`: `p^(j+1) * d^(order-1-j)`, whose value is `(p / d)^(j+1)`.
pub open spec fn power_num(p: int, d: int, order: nat, j: nat) -> int {
    pow(p, j + 1) * pow(d, (order - 1 - j) as nat)
}

/// The powers of `data / denom` up to `order` can be held: the common denominator fits a
/// `u64` and every numerator fits an `i64`.
pub open spec fn power_fits(data: Seq<i64>, denom: u64, order: nat) -> bool {
    &&& pow(denom as int, order) <= u64::MAX
    &&& forall|i: int, j: int|
        0 <= i < data.len() && 0 <= j < order ==> in_i64(
            #[trigger] power_num(data[i] as int, denom as int, order, j as nat),
        )
}

proof fn lemma_pow_positive(b: int, e: nat)
    requires
        b >= 1,
    ensures
        pow(b, e) >= 1,
    decreases e,
{
    if e > 0 {
        lemma_pow_positive(b, (e - 1) as nat);
        assert(b * pow(b, (e - 1) as nat) >= 1) by (nonlinear_arith)
            requires
                b >= 1,
                pow(b, (e - 1) as nat) >= 1,
        ;
    }
}

proof fn lemma_pow_monotone(b: int, e1: nat, e2: nat)
    requires
        b >= 1,
        e1 <= e2,
    ensures
        pow(b, e1) <= pow(b, e2),
    decreases e2,
{
    if e1 < e2 {
        lemma_pow_monotone(b, e1, (e2 - 1) as nat);
        lemma_pow_positive(b, (e2 - 1) as nat);
        assert(pow(b, (e2 - 1) as nat) <= b * pow(b, (e2 - 1) as nat)) by (nonlinear_arith)
            requires
                b >= 1,
                pow(b, (e2 - 1) as nat) >= 1,
        ;
    }
}

proof fn lemma_scaled_out_of_range(x: int, k: int)
    requires
        !in_i64(x),
        k >= 1,
    ensures
        !in_i64(x * k),
{
    if x > 0 {
        assert(x * k >= x) by (nonlinear_arith)
            requires
                x > 0,
                k >= 1,
        ;
    } else {
        assert(x * k <= x) by (nonlinear_arith)
            requires
                x <= 0,
                k >= 1,
        ;
    }
}

/// The numerators of `power`, row-major: element `m` is `power_num` at row `m / order` and
/// column `m % order`.
pub open spec fn power_seq(data: Seq<i64>, d: int, order: nat) -> Seq<i64> {
    Seq::new(
        data.len() * order,
        |m: int| power_num(data[m / (order as int)] as int, d, order, (m % (order as int)) as nat) as i64,
    )
}

proof fn lemma_flat_split(m: int, n: int, ord: int)
    requires
        0 <= m < n * ord,
        ord > 0,
    ensures
        0 <= m / ord < n,
        0 <= m % ord < ord,
        m == (m / ord) * ord + m % ord,
{
    vstd::arithmetic::div_mod::lemma_fundamental_div_mod(m, ord);
    vstd::arithmetic::div_mod::lemma_mod_pos_bound(m, ord);
    vstd::arithmetic::div_mod::lemma_div_pos_is_pos(m, ord);
    let q = m / ord;
    assert(q * ord == ord * q) by (nonlinear_arith);
    assert(q < n) by (nonlinear_arith)
        requires
            q * ord <= m,
            m < n * ord,
            ord > 0,
    ;
}

/// Raises each control parameter `data[i] / denom` to the integer powers 1 to `order`.
///
/// The result has shape (data.len(), order) and denominator `denom^order`; element (i, j),
/// at `i * order + j`, has the value `(data[i] / denom)^(j+1)`. A zero denominator gives
/// `ArrayError::ZeroDenominator`; a numerator or denominator that does not fit gives
/// `ArrayError::Overflow`.
pub fn power(data: &[i64], denom: u64, order: u8) -> (r: Result<Array2D, ArrayError>)
    requires
        data@.len() * order <= usize::MAX,
    ensures
        r == Err::<Array2D, ArrayError>(ArrayError::ZeroDenominator) <==> denom == 0,
        r == Err::<Array2D, ArrayError>(ArrayError::Overflow) <==> denom > 0 && !power_fits(
            data@,
            denom,
            order as nat,
        ),
        r is Ok <==> denom > 0 && power_fits(data@, denom, order as nat),
        r matches Ok(a) ==> {
            &&& a.wf()
            &&& a.shape == (data@.len() as usize, order as usize)
            &&& a.denom == pow(denom as int, order as nat)
            &&& a.data@ == power_seq(data@, denom as int, order as nat)
            &&& forall|i: int, j: int|
                0 <= i < data@.len() && 0 <= j < order ==> a.data@[i * order + j]
                    == #[trigger] power_num(data[i] as int, denom as int, order as nat, j as nat)
        },
{
    if denom == 0 {
        return Err(ArrayError::ZeroDenominator);
    }
    let ord = order as usize;
    let ghost d = denom as int;
    // dpow[k] is denom^k
    let mut dpow: Vec<u64> = Vec::new();
    dpow.push(1);
    let mut k: usize = 0;
    while k < ord
        invariant
            d == denom as int,
            d >= 1,
            ord == order as usize,
            0 <= k <= ord,
            dpow@.len() == k + 1,
            forall|e: int| 0 <= e <= k ==> #[trigger] dpow@[e] == pow(d, e as nat),
        decreases ord - k,
    {
        let last = dpow[k];
        match last.checked_mul(denom) {
            Some(v) => {
                dpow.push(v);
            },
            None => {
                proof {
                    assert(last * denom == d * pow(d, k as nat)) by (nonlinear_arith)
                        requires
                            last == pow(d, k as nat),
                            d == denom,
                    ;
                    assert(pow(d, (k + 1) as nat) == d * pow(d, k as nat));
                    lemma_pow_monotone(d, (k + 1) as nat, ord as nat);
                }
                return Err(ArrayError::Overflow);
            },
        }
        k = k + 1;
    }
    assert(dpow@[ord as int] == pow(d, ord as nat));
    let n = data.len();
    let mut result: Vec<i64> = Vec::new();
    let mut i: usize = 0;
    while i < n
        invariant
            d == denom as int,
            d >= 1,
            ord == order as usize,
            n == data@.len(),
            n * ord <= usize::MAX,
            dpow@.len() == ord + 1,
            forall|e: int| 0 <= e <= ord ==> #[trigger] dpow@[e] == pow(d, e as nat),
            pow(d, ord as nat) <= u64::MAX,
            0 <= i <= n,
            result@.len() == i * ord,
            forall|i2: int, j2: int|
                0 <= i2 < i && 0 <= j2 < ord ==> result@[i2 * ord + j2] == #[trigger] power_num(
                    data[i2] as int,
                    d,
                    ord as nat,
                    j2 as nat,
                ) && in_i64(power_num(data[i2] as int, d, ord as nat, j2 as nat)),
        decreases n - i,
    {
        let p = data[i] as i128;
        let mut pw: i128 = 1;
        let mut j: usize = 0;
        assert(i * ord + ord <= n * ord) by (nonlinear_arith)
            requires
                i < n,
        ;
        while j < ord
            invariant
                d == denom as int,
                d >= 1,
                ord == order as usize,
                n == data@.len(),
                n * ord <= usize::MAX,
                i * ord + ord <= n * ord,
                dpow@.len() == ord + 1,
                forall|e: int| 0 <= e <= ord ==> #[trigger] dpow@[e] == pow(d, e as nat),
                pow(d, ord as nat) <= u64::MAX,
                0 <= i < n,
                p == data[i as int],
                0 <= j <= ord,
                pw == pow(p as int, j as nat),
                in_i64(pw as int),
                result@.len() == i * ord + j,
                forall|i2: int, j2: int|
                    0 <= i2 < i && 0 <= j2 < ord ==> result@[i2 * ord + j2]
                        == #[trigger] power_num(data[i2] as int, d, ord as nat, j2 as nat)
                        && in_i64(power_num(data[i2] as int, d, ord as nat, j2 as nat)),
                forall|j2: int|
                    0 <= j2 < j ==> result@[i * ord + j2] == #[trigger] power_num(
                        data[i as int] as int,
                        d,
                        ord as nat,
                        j2 as nat,
                    ) && in_i64(power_num(data[i as int] as int, d, ord as nat, j2 as nat)),
            decreases ord - j,
        {
            assert(-0x4000_0000_0000_0000_0000_0000_0000_0000 <= pw * p
                <= 0x4000_0000_0000_0000_0000_0000_0000_0000) by (nonlinear_arith)
                requires
                    -0x8000_0000_0000_0000 <= pw <= 0x7fff_ffff_ffff_ffff,
                    -0x8000_0000_0000_0000 <= p <= 0x7fff_ffff_ffff_ffff,
            ;
            let next = pw * p;
            assert(pw * p == p * pw) by (nonlinear_arith);
            assert(next == pow(p as int, (j + 1) as nat));
            let scale = dpow[ord - 1 - j];
            proof {
                lemma_pow_positive(d, (ord - 1 - j) as nat);
            }
            let ghost entry = power_num(p as int, d, ord as nat, j as nat);
            assert(entry == next * scale);
            if next < i64::MIN as i128 || next > i64::MAX as i128 {
                proof {
                    lemma_scaled_out_of_range(next as int, scale as int);
                    assert(!in_i64(power_num(data[i as int] as int, d, ord as nat, j as nat)));
                }
                return Err(ArrayError::Overflow);
            }
            assert(-0x7fff_ffff_ffff_ffff_ffff_ffff_ffff_ffff <= next * scale
                <= 0x7fff_ffff_ffff_ffff_ffff_ffff_ffff_ffff) by (nonlinear_arith)
                requires
                    -0x8000_0000_0000_0000 <= next <= 0x7fff_ffff_ffff_ffff,
                    0 <= scale <= 0xffff_ffff_ffff_ffff,
            ;
            let e = next * (scale as i128);
            if e < i64::MIN as i128 || e > i64::MAX as i128 {
                proof {
                    assert(!in_i64(power_num(data[i as int] as int, d, ord as nat, j as nat)));
                }
                return Err(ArrayError::Overflow);
            }
            let ghost prev = result@;
            result.push(e as i64);
            assert forall|i2: int, j2: int| 0 <= i2 < i && 0 <= j2 < ord implies result@[i2 * ord
                + j2] == #[trigger] power_num(data[i2] as int, d, ord as nat, j2 as nat) by {
                lemma_flat_index(i2, i as int, j2, ord as int);
                assert(result@[i2 * ord + j2] == prev[i2 * ord + j2]);
            }
            pw = next;
            j = j + 1;
        }
        assert forall|i2: int, j2: int| 0 <= i2 < i + 1 && 0 <= j2 < ord implies result@[i2
            * ord + j2] == #[trigger] power_num(data[i2] as int, d, ord as nat, j2 as nat)
            && in_i64(power_num(data[i2] as int, d, ord as nat, j2 as nat)) by {
            lemma_flat_index(i2, i + 1, j2, ord as int);
            if i2 < i {
            } else {
                assert(i2 == i);
            }
        }
        assert((i + 1) * ord == i * ord + ord) by (nonlinear_arith);
        i = i + 1;
    }
    proof {
        lemma_pow_positive(d, ord as nat);
    }
    let a = Array2D { data: result, shape: (n, ord), denom: dpow[ord] };
    assert(a.wf());
    assert forall|i2: int, j2: int| 0 <= i2 < n && 0 <= j2 < order implies a.data@[i2 * order
        + j2] == #[trigger] power_num(data[i2] as int, denom as int, order as nat, j2 as nat)
        && in_i64(power_num(data[i2] as int, denom as int, order as nat, j2 as nat)) by {
        assert(result@[i2 * ord + j2] == power_num(data[i2] as int, d, ord as nat, j2 as nat));
    }
    assert(power_fits(data@, denom, order as nat));
    assert forall|m: int| 0 <= m < n * ord implies a.data@[m] == #[trigger] power_seq(
        data@,
        denom as int,
        order as nat,
    )[m] by {
        lemma_flat_split(m, n as int, ord as int);
        let i2 = m / (ord as int);
        let j2 = m % (ord as int);
        assert(a.data@[i2 * order + j2] == power_num(
            data[i2] as int,
            denom as int,
            order as nat,
            j2 as nat,
        ));
    }
    assert(a.data@ =~= power_seq(data@, denom as int, order as nat));
    Ok(a)
}

/// The sum over `m < n` of `a[m] * t[m * stride + off]`: the numerator of one element of a
/// contraction of `a` against `t` over their shared leading dimensions.
pub open spec fn dot(a: Seq<i64>, t: Seq<i64>, stride: int, off: int, n: nat) -> int
    decreases n,
{
    if n == 0 {
        0
    } else {
        dot(a, t, stride, off, (n - 1) as nat) + a[n - 1] * t[(n - 1) * stride + off]
    }
}

/// Every partial sum of `dot(a, t, stride, off, n)` fits an `i64`.
pub open spec fn dot_fits(a: Seq<i64>, t: Seq<i64>, stride: int, off: int, n: nat) -> bool
    decreases n,
{
    if n == 0 {
        true
    } else {
        dot_fits(a, t, stride, off, (n - 1) as nat) && in_i64(dot(a, t, stride, off, n))
    }
}

/// The contraction of `a` against `t` can be held: the product of the denominators fits a
/// `u64`, and every partial sum of every output numerator fits an `i64`.
pub open spec fn tensordot_fits(a: Seq<i64>, a_denom: u64, t: &Array4D) -> bool {
    let kl = t.shape.2 * t.shape.3;
    &&& a_denom * t.denom <= u64::MAX
    &&& forall|o: int| 0 <= o < kl ==> #[trigger] dot_fits(a, t.data@, kl, o, a.len())
}

proof fn lemma_dot_fits_prefix(a: Seq<i64>, t: Seq<i64>, stride: int, off: int, m: nat, n: nat)
    requires
        m <= n,
        dot_fits(a, t, stride, off, n),
    ensures
        dot_fits(a, t, stride, off, m),
    decreases n,
{
    if m < n {
        lemma_dot_fits_prefix(a, t, stride, off, m, (n - 1) as nat);
    }
}

proof fn lemma_flat_index(m: int, n: int, off: int, kl: int)
    requires
        0 <= m < n,
        0 <= off < kl,
    ensures
        0 <= m * kl + off < n * kl,
{
    assert(m * kl + off < n * kl) by (nonlinear_arith)
        requires
            0 <= m < n,
            0 <= off < kl,
    ;
    assert(0 <= m * kl) by (nonlinear_arith)
        requires
            0 <= m,
            0 <= kl,
    ;
}

/// Contracts `arr1` of shape (I, J) against `arr2` of shape (I, J, K, L) over I and J
/// (Einstein summation "ij,ijkl->kl"), exactly.
///
/// Element (k, l) of the result stands at `k * L + l`; its numerator is the sum over
/// (i, j) of `arr1[i, j] * arr2[i, j, k, l]`, over the product of the two denominators.
/// Shapes that disagree give `ArrayError::Shape`; a numerator or denominator that does not
/// fit gives `ArrayError::Overflow`.
pub fn tensordot(arr1: &Array2D, arr2: &Array4D) -> (r: Result<Array2D, ArrayError>)
    requires
        arr1.wf(),
        arr2.wf(),
        arr2.shape.2 * arr2.shape.3 <= usize::MAX,
    ensures
        r == Err::<Array2D, ArrayError>(ArrayError::Shape) <==> arr1.shape.0 != arr2.shape.0
            || arr1.shape.1 != arr2.shape.1,
        r == Err::<Array2D, ArrayError>(ArrayError::Overflow) <==> arr1.shape.0
            == arr2.shape.0 && arr1.shape.1 == arr2.shape.1 && !tensordot_fits(arr1.data@, arr1.denom, arr2),
        r is Ok <==> arr1.shape.0 == arr2.shape.0 && arr1.shape.1 == arr2.shape.1
            && tensordot_fits(arr1.data@, arr1.denom, arr2),
        r matches Ok(c) ==> {
            &&& c.wf()
            &&& c.shape == (arr2.shape.2, arr2.shape.3)
            &&& c.denom == arr1.denom * arr2.denom
            &&& forall|o: int|
                0 <= o < c.data@.len() ==> #[trigger] c.data@[o] == dot(
                    arr1.data@,
                    arr2.data@,
                    arr2.shape.2 * arr2.shape.3,
                    o,
                    arr1.data@.len(),
                )
        },
{
    let (i1, j1) = arr1.shape;
    let (i2, j2, k2, l2) = arr2.shape;
    if i1 != i2 || j1 != j2 {
        return Err(ArrayError::Shape);
    }
    let denom = match arr1.denom.checked_mul(arr2.denom) {
        Some(d) => d,
        None => {
            return Err(ArrayError::Overflow);
        },
    };
    let n = arr1.data.len();
    let tlen = arr2.data.len();
    let kl = k2 * l2;
    let ghost a = arr1.data@;
    let ghost t = arr2.data@;
    assert(t.len() == n * kl) by (nonlinear_arith)
        requires
            t.len() == i2 * j2 * k2 * l2,
            n == i2 * j2,
            kl == k2 * l2,
    ;
    let mut result: Vec<i64> = Vec::new();
    let mut off: usize = 0;
    while off < kl
        invariant
            a == arr1.data@,
            t == arr2.data@,
            arr1.shape.0 == arr2.shape.0,
            arr1.shape.1 == arr2.shape.1,
            kl == arr2.shape.2 * arr2.shape.3,
            denom == arr1.denom * arr2.denom,
            n == a.len(),
            t.len() == n * kl,
            t.len() <= usize::MAX,
            0 <= off <= kl,
            result@.len() == off,
            forall|o: int|
                0 <= o < off ==> #[trigger] result@[o] == dot(a, t, kl as int, o, n as nat),
            forall|o: int| 0 <= o < off ==> #[trigger] dot_fits(a, t, kl as int, o, n as nat),
        decreases kl - off,
    {
        let mut total: i64 = 0;
        let mut m: usize = 0;
        while m < n
            invariant
                a == arr1.data@,
                t == arr2.data@,
                arr1.shape.0 == arr2.shape.0,
                arr1.shape.1 == arr2.shape.1,
                kl == arr2.shape.2 * arr2.shape.3,
                n == a.len(),
                t.len() == n * kl,
                t.len() <= usize::MAX,
                0 <= off < kl,
                0 <= m <= n,
                total == dot(a, t, kl as int, off as int, m as nat),
                dot_fits(a, t, kl as int, off as int, m as nat),
            decreases n - m,
        {
            proof {
                lemma_flat_index(m as int, n as int, off as int, kl as int);
            }
            let idx = m * kl + off;
            let x = arr1.data[m] as i128;
            let y = arr2.data[idx] as i128;
            assert(-0x4000_0000_0000_0000_0000_0000_0000_0000 <= x * y
                <= 0x4000_0000_0000_0000_0000_0000_0000_0000) by (nonlinear_arith)
                requires
                    -0x8000_0000_0000_0000 <= x <= 0x7fff_ffff_ffff_ffff,
                    -0x8000_0000_0000_0000 <= y <= 0x7fff_ffff_ffff_ffff,
            ;
            let sum = total as i128 + x * y;
            assert(sum == dot(a, t, kl as int, off as int, (m + 1) as nat));
            if sum < i64::MIN as i128 || sum > i64::MAX as i128 {
                proof {
                    assert(!dot_fits(a, t, kl as int, off as int, (m + 1) as nat));
                    if dot_fits(a, t, kl as int, off as int, n as nat) {
                        lemma_dot_fits_prefix(
                            a,
                            t,
                            kl as int,
                            off as int,
                            (m + 1) as nat,
                            n as nat,
                        );
                    }
                    assert(!dot_fits(arr1.data@, arr2.data@, kl as int, off as int, n as nat));
                }
                return Err(ArrayError::Overflow);
            }
            total = sum as i64;
            m = m + 1;
        }
        let ghost prev = result@;
        result.push(total);
        assert forall|o: int| 0 <= o < off + 1 implies #[trigger] result@[o] == dot(
            a,
            t,
            kl as int,
            o,
            n as nat,
        ) by {
            if o < off {
                assert(result@[o] == prev[o]);
            }
        }
        off = off + 1;
    }
    assert forall|o: int| 0 <= o < kl implies #[trigger] dot_fits(
        a,
        t,
        kl as int,
        o,
        n as nat,
    ) by {}
    assert(denom > 0) by (nonlinear_arith)
        requires
            denom == arr1.denom * arr2.denom,
            arr1.denom > 0,
            arr2.denom > 0,
    ;
    let c = Array2D { data: result, shape: (k2, l2), denom };
    assert forall|o: int| 0 <= o < c.data@.len() implies #[trigger] c.data@[o] == dot(
        a,
        t,
        kl as int,
        o,
        n as nat,
    ) by {
        assert(result@[o] == dot(a, t, kl as int, o, n as nat));
    }
    assert(tensordot_fits(arr1.data@, arr1.denom, arr2));
    Ok(c)
}

} // verus!
