//! Dense row-major matrices over any element type, with element-wise and
//! matrix arithmetic through the element type's operators.
use vstd::prelude::*;
use vstd::std_specs::ops::{AddSpec, DivSpec, MulSpec, NegSpec, SubSpec};

verus! {

/// A `rows` by `cols` matrix stored row by row.
#[derive(Debug, PartialEq, Clone)]
pub struct Matrix<T> {
    pub rows: usize,
    pub cols: usize,
    pub data: Vec<T>,
}

/// Row `i`, column `j` of a row-major layout with `cols` columns.
pub open spec fn at(i: int, j: int, cols: int) -> int {
    i * cols + j
}

proof fn lemma_at_in_range(i: int, j: int, rows: int, cols: int)
    requires
        0 <= i < rows,
        0 <= j < cols,
    ensures
        0 <= at(i, j, cols) < rows * cols,
        at(i, j, cols) + 1 <= (i + 1) * cols,
{
    assert(0 <= i * cols) by (nonlinear_arith)
        requires 0 <= i, 0 <= cols;
    assert((i + 1) * cols == i * cols + cols) by (nonlinear_arith);
    assert((i + 1) * cols <= rows * cols) by (nonlinear_arith)
        requires i + 1 <= rows, 0 <= cols;
}

/// Relies on `num_traits::Zero::zero`: the trait's documented law is that
/// its value added on the left of any value leaves that value unchanged.
#[verifier::external_body]
fn zero_of<T: num_traits::Zero>() -> (z: T)
    ensures
        sum_start(z),
{
    T::zero()
}

/// The sum from `z` of the first `k` products of row `i` of `a` and column
/// `j` of `b`.
pub open spec fn dot<T: core::ops::Add<Output = T> + core::ops::Mul<Output = T>>(
    z: T,
    a: Matrix<T>,
    b: Matrix<T>,
    i: int,
    j: int,
    k: nat,
) -> T
    decreases k,
{
    if k == 0 {
        z
    } else {
        dot(z, a, b, i, j, (k - 1) as nat).add_spec(a.entry(i, k - 1).mul_spec(b.entry(k - 1, j)))
    }
}

/// Whether `z` can start the sums of a product: an additive identity, for an
/// element type whose addition has a specification.
pub open spec fn sum_start<T: core::ops::Add<Output = T>>(z: T) -> bool {
    T::obeys_add_spec() ==> forall|x: T| #[trigger] z.add_spec(x) == x
}

/// Whether both addition and multiplication of `T` have a specification.
pub open spec fn arith_specified<T: core::ops::Add<Output = T> + core::ops::Mul<Output = T>>() -> bool {
    T::obeys_add_spec() && T::obeys_mul_spec()
}

/// Every product and partial sum of the product of `a` and `b`, summed from
/// an additive identity, is within the element type's domain; for an element
/// type whose arithmetic has no specification, every sum and product is.
pub open spec fn product_defined<T: core::ops::Add<Output = T> + core::ops::Mul<Output = T>>(
    a: Matrix<T>,
    b: Matrix<T>,
) -> bool {
    if arith_specified::<T>() {
        forall|z: T|
            #[trigger] sum_start(z) ==> forall|i: int, j: int, k: int|
                0 <= i < a.rows && 0 <= j < b.cols && 0 <= k < a.cols ==> {
                    &&& #[trigger] a.entry(i, k).mul_req(b.entry(k, j))
                    &&& dot(z, a, b, i, j, k as nat).add_req(a.entry(i, k).mul_spec(b.entry(k, j)))
                }
    } else {
        (forall|x: T, y: T| #[trigger] x.add_req(y)) && (forall|x: T, y: T| #[trigger] x.mul_req(y))
    }
}

impl<T> Matrix<T> {
    /// The data holds exactly one entry per cell.
    pub open spec fn wf(&self) -> bool {
        self.data@.len() == self.rows * self.cols
    }

    /// The entry at row `i`, column `j`.
    pub open spec fn entry(&self, i: int, j: int) -> T {
        self.data@[at(i, j, self.cols as int)]
    }

    /// A matrix of the given shape over `data`, row by row.
    pub fn new(rows: usize, cols: usize, data: Vec<T>) -> (m: Matrix<T>)
        requires
            data@.len() == rows * cols,
        ensures
            m.wf(),
            m.rows == rows,
            m.cols == cols,
            m.data@ == data@,
    {
        Matrix { rows, cols, data }
    }

    /// The entry at row `i`, column `j`.
    pub fn get(&self, i: usize, j: usize) -> (r: &T)
        requires
            self.wf(),
            i < self.rows,
            j < self.cols,
        ensures
            *r == self.entry(i as int, j as int),
    {
        let n = self.data.len();
        proof {
            lemma_at_in_range(i as int, j as int, self.rows as int, self.cols as int);
        }
        &self.data[i * self.cols + j]
    }

    /// Replaces the entry at row `i`, column `j`.
    pub fn set(&mut self, i: usize, j: usize, val: T)
        requires
            old(self).wf(),
            i < old(self).rows,
            j < old(self).cols,
        ensures
            final(self).wf(),
            final(self).rows == old(self).rows,
            final(self).cols == old(self).cols,
            final(self).data@ == old(self).data@.update(at(i as int, j as int, old(self).cols as int), val),
    {
        let n = self.data.len();
        proof {
            lemma_at_in_range(i as int, j as int, self.rows as int, self.cols as int);
        }
        let k = i * self.cols + j;
        self.data.set(k, val);
    }

    /// Entry-wise sum.
    pub fn add(&self, other: &Matrix<T>) -> (r: Matrix<T>)
        where
            T: core::ops::Add<Output = T> + Copy,
        requires
            self.wf(),
            other.wf(),
            self.rows == other.rows,
            self.cols == other.cols,
            forall|k: int| 0 <= k < self.data@.len() ==> (#[trigger] self.data@[k]).add_req(other.data@[k]),
        ensures
            r.wf(),
            r.rows == self.rows,
            r.cols == self.cols,
            T::obeys_add_spec() ==> forall|k: int|
                0 <= k < r.data@.len() ==> #[trigger] r.data@[k] == self.data@[k].add_spec(other.data@[k]),
    {
        let n = self.data.len();
        let mut res: Vec<T> = Vec::new();
        let mut k: usize = 0;
        while k < n
            invariant
                n == self.data@.len(),
                n == other.data@.len(),
                k <= n,
                res@.len() == k,
                forall|q: int| 0 <= q < self.data@.len() ==> (#[trigger] self.data@[q]).add_req(other.data@[q]),
                T::obeys_add_spec() ==> forall|q: int|
                    0 <= q < k ==> #[trigger] res@[q] == self.data@[q].add_spec(other.data@[q]),
            decreases n - k,
        {
            let a = self.data[k];
            let b = other.data[k];
            res.push(a + b);
            k = k + 1;
        }
        Matrix { rows: self.rows, cols: self.cols, data: res }
    }

    /// Entry-wise difference.
    pub fn sub(&self, other: &Matrix<T>) -> (r: Matrix<T>)
        where
            T: core::ops::Sub<Output = T> + Copy,
        requires
            self.wf(),
            other.wf(),
            self.rows == other.rows,
            self.cols == other.cols,
            forall|k: int| 0 <= k < self.data@.len() ==> (#[trigger] self.data@[k]).sub_req(other.data@[k]),
        ensures
            r.wf(),
            r.rows == self.rows,
            r.cols == self.cols,
            T::obeys_sub_spec() ==> forall|k: int|
                0 <= k < r.data@.len() ==> #[trigger] r.data@[k] == self.data@[k].sub_spec(other.data@[k]),
    {
        let n = self.data.len();
        let mut res: Vec<T> = Vec::new();
        let mut k: usize = 0;
        while k < n
            invariant
                n == self.data@.len(),
                n == other.data@.len(),
                k <= n,
                res@.len() == k,
                forall|q: int| 0 <= q < self.data@.len() ==> (#[trigger] self.data@[q]).sub_req(other.data@[q]),
                T::obeys_sub_spec() ==> forall|q: int|
                    0 <= q < k ==> #[trigger] res@[q] == self.data@[q].sub_spec(other.data@[q]),
            decreases n - k,
        {
            let a = self.data[k];
            let b = other.data[k];
            res.push(a - b);
            k = k + 1;
        }
        Matrix { rows: self.rows, cols: self.cols, data: res }
    }

    /// Every entry multiplied by `rhs`.
    pub fn scalar_mul(&self, rhs: T) -> (r: Matrix<T>)
        where
            T: core::ops::Mul<Output = T> + Copy,
        requires
            self.wf(),
            forall|k: int| 0 <= k < self.data@.len() ==> (#[trigger] self.data@[k]).mul_req(rhs),
        ensures
            r.wf(),
            r.rows == self.rows,
            r.cols == self.cols,
            T::obeys_mul_spec() ==> forall|k: int|
                0 <= k < r.data@.len() ==> #[trigger] r.data@[k] == self.data@[k].mul_spec(rhs),
    {
        let n = self.data.len();
        let mut res: Vec<T> = Vec::new();
        let mut k: usize = 0;
        while k < n
            invariant
                n == self.data@.len(),
                k <= n,
                res@.len() == k,
                forall|q: int| 0 <= q < self.data@.len() ==> (#[trigger] self.data@[q]).mul_req(rhs),
                T::obeys_mul_spec() ==> forall|q: int|
                    0 <= q < k ==> #[trigger] res@[q] == self.data@[q].mul_spec(rhs),
            decreases n - k,
        {
            let a = self.data[k];
            res.push(a * rhs);
            k = k + 1;
        }
        Matrix { rows: self.rows, cols: self.cols, data: res }
    }

    /// Every entry divided by `rhs`.
    pub fn div(&self, rhs: T) -> (r: Matrix<T>)
        where
            T: core::ops::Div<Output = T> + Copy,
        requires
            self.wf(),
            forall|k: int| 0 <= k < self.data@.len() ==> (#[trigger] self.data@[k]).div_req(rhs),
        ensures
            r.wf(),
            r.rows == self.rows,
            r.cols == self.cols,
            T::obeys_div_spec() ==> forall|k: int|
                0 <= k < r.data@.len() ==> #[trigger] r.data@[k] == self.data@[k].div_spec(rhs),
    {
        let n = self.data.len();
        let mut res: Vec<T> = Vec::new();
        let mut k: usize = 0;
        while k < n
            invariant
                n == self.data@.len(),
                k <= n,
                res@.len() == k,
                forall|q: int| 0 <= q < self.data@.len() ==> (#[trigger] self.data@[q]).div_req(rhs),
                T::obeys_div_spec() ==> forall|q: int|
                    0 <= q < k ==> #[trigger] res@[q] == self.data@[q].div_spec(rhs),
            decreases n - k,
        {
            let a = self.data[k];
            res.push(core::ops::Div::div(a, rhs));
            k = k + 1;
        }
        Matrix { rows: self.rows, cols: self.cols, data: res }
    }

    /// Every entry negated.
    pub fn neg(self) -> (r: Matrix<T>)
        where
            T: core::ops::Neg<Output = T> + Copy,
        requires
            self.wf(),
            forall|k: int| 0 <= k < self.data@.len() ==> (#[trigger] self.data@[k]).neg_req(),
        ensures
            r.wf(),
            r.rows == self.rows,
            r.cols == self.cols,
            T::obeys_neg_spec() ==> forall|k: int|
                0 <= k < r.data@.len() ==> #[trigger] r.data@[k] == self.data@[k].neg_spec(),
    {
        let n = self.data.len();
        let mut res: Vec<T> = Vec::new();
        let mut k: usize = 0;
        while k < n
            invariant
                n == self.data@.len(),
                k <= n,
                res@.len() == k,
                forall|q: int| 0 <= q < self.data@.len() ==> (#[trigger] self.data@[q]).neg_req(),
                T::obeys_neg_spec() ==> forall|q: int|
                    0 <= q < k ==> #[trigger] res@[q] == self.data@[q].neg_spec(),
            decreases n - k,
        {
            let a = self.data[k];
            res.push(core::ops::Neg::neg(a));
            k = k + 1;
        }
        Matrix { rows: self.rows, cols: self.cols, data: res }
    }

    /// The matrix product: row `i`, column `j` of the result is the sum of the
    /// products of row `i` of this matrix and column `j` of `other`.
    pub fn multiply(&self, other: &Matrix<T>) -> (r: Matrix<T>)
        where
            T: core::ops::Mul<Output = T> + core::ops::Add<Output = T> + Copy + num_traits::Zero,
        requires
            self.wf(),
            other.wf(),
            self.cols == other.rows,
            product_defined(*self, *other),
        ensures
            r.wf(),
            r.rows == self.rows,
            r.cols == other.cols,
            arith_specified::<T>() ==> exists|z: T|
                sum_start(z) && forall|i: int, j: int|
                    0 <= i < r.rows && 0 <= j < r.cols ==> #[trigger] r.entry(i, j) == dot(
                        z,
                        *self,
                        *other,
                        i,
                        j,
                        self.cols as nat,
                    ),
    {
        let z: T = zero_of();
        let mut res: Vec<T> = Vec::new();
        let mut i: usize = 0;
        while i < self.rows
            invariant
                self.wf(),
                other.wf(),
                self.cols == other.rows,
                product_defined(*self, *other),
                sum_start(z),
                i <= self.rows,
                res@.len() == i * other.cols,
                forall|a: int, b: int|
                    0 <= a < i && 0 <= b < other.cols && arith_specified::<T>() ==> #[trigger] res@[at(a, b, other.cols as int)]
                        == dot(z, *self, *other, a, b, self.cols as nat),
            decreases self.rows - i,
        {
            let mut j: usize = 0;
            while j < other.cols
                invariant
                    self.wf(),
                    other.wf(),
                    self.cols == other.rows,
                    product_defined(*self, *other),
                    sum_start(z),
                    i < self.rows,
                    j <= other.cols,
                    res@.len() == i * other.cols + j,
                    forall|a: int, b: int|
                        0 <= a < i && 0 <= b < other.cols && arith_specified::<T>() ==> #[trigger] res@[at(a, b, other.cols as int)]
                            == dot(z, *self, *other, a, b, self.cols as nat),
                    forall|b: int| 0 <= b < j && arith_specified::<T>() ==> #[trigger] res@[at(i as int, b, other.cols as int)]
                        == dot(z, *self, *other, i as int, b, self.cols as nat),
                decreases other.cols - j,
            {
                let mut sum = z;
                let mut k: usize = 0;
                while k < self.cols
                    invariant
                        self.wf(),
                        other.wf(),
                        self.cols == other.rows,
                        product_defined(*self, *other),
                        sum_start(z),
                        i < self.rows,
                        j < other.cols,
                        k <= self.cols,
                        arith_specified::<T>() ==> sum == dot(z, *self, *other, i as int, j as int, k as nat),
                    decreases self.cols - k,
                {
                    let x = *self.get(i, k);
                    let y = *other.get(k, j);
                    proof {
                        lemma_at_in_range(i as int, k as int, self.rows as int, self.cols as int);
                        lemma_at_in_range(k as int, j as int, other.rows as int, other.cols as int);
                    }
                    assert(x.mul_req(y) && sum.add_req(x.mul_spec(y))) by {
                        if arith_specified::<T>() {
                            assert(sum_start(z));
                            assert(self.entry(i as int, k as int).mul_req(other.entry(k as int, j as int)));
                        } else {
                            assert(x.mul_req(y));
                            assert(sum.add_req(x.mul_spec(y)));
                        }
                    }
                    let p = x * y;
                    let ghost before_sum = sum;
                    sum = sum + p;
                    k = k + 1;
                }
                let ghost before = res@;
                res.push(sum);
                proof {
                    lemma_at_in_range(i as int, j as int, self.rows as int, other.cols as int);
                    assert forall|a: int, b: int|
                        0 <= a < i && 0 <= b < other.cols && arith_specified::<T>() implies #[trigger] res@[at(a, b, other.cols as int)]
                            == dot(z, *self, *other, a, b, self.cols as nat) by {
                        lemma_at_in_range(a, b, i as int, other.cols as int);
                        assert(res@[at(a, b, other.cols as int)] == before[at(a, b, other.cols as int)]);
                    }
                }
                j = j + 1;
            }
            proof {
                assert((i + 1) * other.cols == i * other.cols + other.cols) by (nonlinear_arith);
            }
            i = i + 1;
        }
        proof {
            assert(res@.len() == self.rows * other.cols);
            let r = Matrix { rows: self.rows, cols: other.cols, data: res };
            if arith_specified::<T>() {
                assert forall|a: int, b: int| 0 <= a < r.rows && 0 <= b < r.cols implies #[trigger] r.entry(a, b) == dot(z, *self, *other, a, b, self.cols as nat) by {}
            }
        }
        Matrix { rows: self.rows, cols: other.cols, data: res }
    }

    /// The transpose: row `i`, column `j` of the result is row `j`, column `i`
    /// of this matrix.
    pub fn transpose(&self) -> (r: Matrix<T>)
        where
            T: Copy,
        requires
            self.wf(),
        ensures
            r.wf(),
            r.rows == self.cols,
            r.cols == self.rows,
            forall|i: int, j: int|
                0 <= i < r.rows && 0 <= j < r.cols ==> #[trigger] r.entry(i, j) == self.entry(j, i),
    {
        let mut res: Vec<T> = Vec::new();
        let mut i: usize = 0;
        while i < self.cols
            invariant
                self.wf(),
                i <= self.cols,
                res@.len() == i * self.rows,
                forall|a: int, b: int|
                    0 <= a < i && 0 <= b < self.rows ==> #[trigger] res@[at(a, b, self.rows as int)]
                        == self.entry(b, a),
            decreases self.cols - i,
        {
            let mut j: usize = 0;
            while j < self.rows
                invariant
                    self.wf(),
                    i < self.cols,
                    j <= self.rows,
                    res@.len() == i * self.rows + j,
                    forall|a: int, b: int|
                        0 <= a < i && 0 <= b < self.rows ==> #[trigger] res@[at(a, b, self.rows as int)]
                            == self.entry(b, a),
                    forall|b: int| 0 <= b < j ==> #[trigger] res@[at(i as int, b, self.rows as int)] == self.entry(b, i as int),
                decreases self.rows - j,
            {
                proof {
                    lemma_at_in_range(i as int, j as int, self.cols as int, self.rows as int);
                }
                let v = *self.get(j, i);
                let ghost before = res@;
                res.push(v);
                proof {
                    assert forall|a: int, b: int|
                        0 <= a < i && 0 <= b < self.rows implies #[trigger] res@[at(a, b, self.rows as int)]
                            == self.entry(b, a) by {
                        lemma_at_in_range(a, b, i as int, self.rows as int);
                        assert(res@[at(a, b, self.rows as int)] == before[at(a, b, self.rows as int)]);
                    }
                }
                j = j + 1;
            }
            proof {
                assert((i + 1) * self.rows == i * self.rows + self.rows) by (nonlinear_arith);
            }
            i = i + 1;
        }
        proof {
            assert(res@.len() == self.rows * self.cols) by (nonlinear_arith)
                requires res@.len() == self.cols * self.rows;
        }
        Matrix { rows: self.cols, cols: self.rows, data: res }
    }
}

impl<'a, T: core::ops::Add<Output = T> + Copy> core::ops::Add for &'a Matrix<T> {
    type Output = Matrix<T>;

    fn add(self, other: &'a Matrix<T>) -> Matrix<T> {
        Matrix::add(self, other)
    }
}

impl<'a, T: core::ops::Add<Output = T> + Copy> vstd::std_specs::ops::AddSpecImpl for &'a Matrix<T> {
    open spec fn obeys_add_spec() -> bool {
        false
    }

    open spec fn add_req(self, other: &'a Matrix<T>) -> bool {
        &&& self.wf()
        &&& other.wf()
        &&& self.rows == other.rows
        &&& self.cols == other.cols
        &&& forall|k: int| 0 <= k < self.data@.len() ==> (#[trigger] self.data@[k]).add_req(other.data@[k])
    }

    /// The sum is not a spec value: the contract of the inherent `add` says
    /// what it holds.
    open spec fn add_spec(self, other: &'a Matrix<T>) -> Matrix<T> {
        arbitrary()
    }
}

impl<'a, T: core::ops::Sub<Output = T> + Copy> core::ops::Sub for &'a Matrix<T> {
    type Output = Matrix<T>;

    fn sub(self, other: &'a Matrix<T>) -> Matrix<T> {
        Matrix::sub(self, other)
    }
}

impl<'a, T: core::ops::Sub<Output = T> + Copy> vstd::std_specs::ops::SubSpecImpl for &'a Matrix<T> {
    open spec fn obeys_sub_spec() -> bool {
        false
    }

    open spec fn sub_req(self, other: &'a Matrix<T>) -> bool {
        &&& self.wf()
        &&& other.wf()
        &&& self.rows == other.rows
        &&& self.cols == other.cols
        &&& forall|k: int| 0 <= k < self.data@.len() ==> (#[trigger] self.data@[k]).sub_req(other.data@[k])
    }

    /// The difference is not a spec value: the contract of the inherent
    /// `sub` says what it holds.
    open spec fn sub_spec(self, other: &'a Matrix<T>) -> Matrix<T> {
        arbitrary()
    }
}

impl<'a, T: core::ops::Mul<Output = T> + Copy> core::ops::Mul<T> for &'a Matrix<T> {
    type Output = Matrix<T>;

    fn mul(self, rhs: T) -> Matrix<T> {
        self.scalar_mul(rhs)
    }
}

impl<'a, T: core::ops::Mul<Output = T> + Copy> vstd::std_specs::ops::MulSpecImpl<T> for &'a Matrix<T> {
    open spec fn obeys_mul_spec() -> bool {
        false
    }

    open spec fn mul_req(self, rhs: T) -> bool {
        &&& self.wf()
        &&& forall|k: int| 0 <= k < self.data@.len() ==> (#[trigger] self.data@[k]).mul_req(rhs)
    }

    /// The scaled matrix is not a spec value: the contract of `scalar_mul`
    /// says what it holds.
    open spec fn mul_spec(self, rhs: T) -> Matrix<T> {
        arbitrary()
    }
}

impl<'a, T: core::ops::Div<Output = T> + Copy> core::ops::Div<T> for &'a Matrix<T> {
    type Output = Matrix<T>;

    fn div(self, rhs: T) -> Matrix<T> {
        Matrix::div(self, rhs)
    }
}

impl<'a, T: core::ops::Div<Output = T> + Copy> vstd::std_specs::ops::DivSpecImpl<T> for &'a Matrix<T> {
    open spec fn obeys_div_spec() -> bool {
        false
    }

    open spec fn div_req(self, rhs: T) -> bool {
        &&& self.wf()
        &&& forall|k: int| 0 <= k < self.data@.len() ==> (#[trigger] self.data@[k]).div_req(rhs)
    }

    /// The divided matrix is not a spec value: the contract of the inherent
    /// `div` says what it holds.
    open spec fn div_spec(self, rhs: T) -> Matrix<T> {
        arbitrary()
    }
}

impl<T: core::ops::Neg<Output = T> + Copy> core::ops::Neg for Matrix<T> {
    type Output = Matrix<T>;

    fn neg(self) -> Matrix<T> {
        Matrix::neg(self)
    }
}

impl<T: core::ops::Neg<Output = T> + Copy> vstd::std_specs::ops::NegSpecImpl for Matrix<T> {
    open spec fn obeys_neg_spec() -> bool {
        false
    }

    open spec fn neg_req(self) -> bool {
        &&& self.wf()
        &&& forall|k: int| 0 <= k < self.data@.len() ==> (#[trigger] self.data@[k]).neg_req()
    }

    /// The negated matrix is not a spec value: the contract of the inherent
    /// `neg` says what it holds.
    open spec fn neg_spec(self) -> Matrix<T> {
        arbitrary()
    }
}

impl<T> core::ops::Index<(usize, usize)> for Matrix<T> {
    type Output = T;

    fn index(&self, index: (usize, usize)) -> &T {
        let (i, j) = index;
        self.get(i, j)
    }
}

impl<T> vstd::std_specs::core::IndexSpecImpl<(usize, usize)> for Matrix<T> {
    open spec fn index_req(&self, index: &(usize, usize)) -> bool {
        self.wf() && index.0 < self.rows && index.1 < self.cols
    }
}

} // verus!
