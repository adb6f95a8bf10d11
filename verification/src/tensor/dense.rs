//! Core tensor types: element types, shapes and row-major byte storage.
use vstd::prelude::*;

verus! {

/// Data type for tensor elements
#[derive(Debug, Clone, Copy, PartialEq, Eq, Structural)]
pub enum DType {
    F32,
    F64,
    I32,
    I64,
    U8,
    U32,
    U64,
    Bool,
}

/// Size in bytes of an element of the given type.
pub open spec fn dtype_size(d: DType) -> nat {
    match d {
        DType::Bool | DType::U8 => 1,
        DType::F32 | DType::I32 | DType::U32 => 4,
        DType::F64 | DType::I64 | DType::U64 => 8,
    }
}

impl DType {
    /// Size in bytes of this data type
    pub fn size(&self) -> (r: usize)
        ensures
            r == dtype_size(*self),
    {
        match self {
            DType::Bool | DType::U8 => 1,
            DType::F32 | DType::I32 | DType::U32 => 4,
            DType::F64 | DType::I64 | DType::U64 => 8,
        }
    }
}

/// Product of a sequence of dimensions.
pub open spec fn product(dims: Seq<usize>) -> nat
    decreases dims.len(),
{
    if dims.len() == 0 {
        1
    } else {
        product(dims.drop_last()) * (dims.last() as nat)
    }
}

/// Every running product `d0 * d1 * ... * dk`, taken from the front, fits
/// in a `usize`.
pub open spec fn prefix_products_fit(dims: Seq<usize>) -> bool {
    forall|k: int| 0 <= k <= dims.len() ==> #[trigger] product(dims.subrange(0, k)) <= usize::MAX
}

/// Product of the dimensions after index `i`, times the element size:
/// the row-major stride of dimension `i`.
pub open spec fn stride_at(dims: Seq<usize>, elem: nat, i: int) -> nat {
    elem * product(dims.subrange(i + 1, dims.len() as int))
}

/// Every running product taken from the back, starting at the element size,
/// fits in a `usize`.
pub open spec fn suffix_products_fit(dims: Seq<usize>, elem: nat) -> bool {
    forall|k: int|
        0 <= k <= dims.len() ==> elem * #[trigger] product(dims.subrange(k, dims.len() as int))
            <= usize::MAX
}

/// Row-major strides in bytes: the last dimension moves by one element.
pub open spec fn row_major_strides(dims: Seq<usize>, elem: nat) -> Seq<usize> {
    Seq::new(dims.len(), |i: int| stride_at(dims, elem, i) as usize)
}

/// Multiplying on the front of a product.
pub proof fn lemma_product_push_front(d: usize, rest: Seq<usize>)
    ensures
        product(seq![d] + rest) == d * product(rest),
    decreases rest.len(),
{
    let s = seq![d] + rest;
    if rest.len() == 0 {
        assert(s =~= seq![d]);
        assert(s.drop_last() =~= Seq::<usize>::empty());
        assert(product(s) == product(s.drop_last()) * (s.last() as nat));
        assert(product(Seq::<usize>::empty()) == 1);
        assert(s.last() == d);
        assert(1 * (d as nat) == (d as nat) * 1) by (nonlinear_arith);
        assert(rest =~= Seq::<usize>::empty());
    } else {
        assert(s.drop_last() =~= seq![d] + rest.drop_last());
        lemma_product_push_front(d, rest.drop_last());
        assert(s.last() == rest.last());
        let p = product(rest.drop_last());
        let l = rest.last() as nat;
        assert(product(s) == (d * p) * l);
        assert(product(rest) == p * l);
        assert((d * p) * l == d * (p * l)) by (nonlinear_arith);
    }
}

/// Number of elements of a shape: the product of its dimensions.
pub fn element_count(dims: &[usize]) -> (r: usize)
    requires
        prefix_products_fit(dims@),
    ensures
        r == product(dims@),
{
    let mut acc: usize = 1;
    let mut i: usize = 0;
    while i < dims.len()
        invariant
            i <= dims@.len(),
            prefix_products_fit(dims@),
            acc == product(dims@.subrange(0, i as int)),
        decreases dims@.len() - i,
    {
        proof {
            let ghost next = dims@.subrange(0, i + 1);
            assert(next.drop_last() =~= dims@.subrange(0, i as int));
            assert(product(next) <= usize::MAX);
        }
        acc = acc * dims[i];
        i = i + 1;
    }
    assert(dims@.subrange(0, dims@.len() as int) =~= dims@);
    acc
}

/// Row-major strides in bytes of a shape whose elements take `elem` bytes.
pub fn strides_for(dims: &[usize], elem: usize) -> (r: Vec<usize>)
    requires
        suffix_products_fit(dims@, elem as nat),
    ensures
        r@ == row_major_strides(dims@, elem as nat),
{
    let n = dims.len();
    let ghost e = elem as nat;
    // strides are produced from the last dimension backwards
    let mut rev: Vec<usize> = Vec::with_capacity(n);
    let mut stride: usize = elem;
    let mut k: usize = n;
    assert(dims@.subrange(n as int, n as int) =~= Seq::<usize>::empty());
    assert(product(Seq::<usize>::empty()) == 1);
    assert(e * 1 == e);
    while k > 0
        invariant
            k <= n,
            n == dims@.len(),
            e == elem,
            suffix_products_fit(dims@, e),
            stride == e * product(dims@.subrange(k as int, n as int)),
            rev@.len() == n - k,
            forall|j: int|
                0 <= j < rev@.len() ==> #[trigger] rev@[j] == stride_at(
                    dims@,
                    e,
                    n - 1 - j,
                ),
        decreases k,
    {
        rev.push(stride);
        k = k - 1;
        proof {
            let tail = dims@.subrange(k as int, n as int);
            let rest = dims@.subrange(k + 1, n as int);
            assert(tail =~= seq![dims@[k as int]] + rest);
            lemma_product_push_front(dims@[k as int], rest);
            let d = dims@[k as int] as nat;
            let p = product(rest);
            assert(e * product(tail) <= usize::MAX);
            assert(product(tail) == d * p);
            assert((e * p) * d == e * (d * p)) by (nonlinear_arith);
        }
        stride = stride * dims[k];
    }
    let mut strides: Vec<usize> = Vec::with_capacity(n);
    let mut i: usize = 0;
    while i < n
        invariant
            i <= n,
            n == dims@.len(),
            rev@.len() == n,
            forall|j: int| 0 <= j < rev@.len() ==> #[trigger] rev@[j] == stride_at(dims@, e, n - 1 - j),
            strides@.len() == i,
            forall|j: int| 0 <= j < i ==> #[trigger] strides@[j] == stride_at(dims@, e, j),
        decreases n - i,
    {
        strides.push(rev[n - 1 - i]);
        i = i + 1;
    }
    assert(strides@ =~= row_major_strides(dims@, e));
    strides
}

/// Whether every running product of `dims` from the front fits in a
/// `usize`.
pub fn prefix_products_fit_check(dims: &[usize]) -> (r: bool)
    ensures
        r == prefix_products_fit(dims@),
{
    let mut acc: usize = 1;
    let mut i: usize = 0;
    proof {
        assert(dims@.subrange(0, 0) =~= Seq::<usize>::empty());
    }
    while i < dims.len()
        invariant
            i <= dims@.len(),
            acc == product(dims@.subrange(0, i as int)),
            forall|k: int| 0 <= k <= i ==> #[trigger] product(dims@.subrange(0, k)) <= usize::MAX,
        decreases dims@.len() - i,
    {
        let ghost next = dims@.subrange(0, i + 1);
        proof {
            assert(next.drop_last() =~= dims@.subrange(0, i as int));
        }
        match acc.checked_mul(dims[i]) {
            Some(v) => {
                acc = v;
            },
            None => {
                proof {
                    assert(product(next) > usize::MAX);
                }
                return false;
            },
        }
        i = i + 1;
    }
    assert forall|k: int| 0 <= k <= dims@.len() implies #[trigger] product(dims@.subrange(0, k))
        <= usize::MAX by {}
    true
}

/// Whether every running product of `dims` from the back, starting at
/// `elem`, fits in a `usize`.
pub fn suffix_products_fit_check(dims: &[usize], elem: usize) -> (r: bool)
    ensures
        r == suffix_products_fit(dims@, elem as nat),
{
    let n = dims.len();
    let ghost e = elem as nat;
    let mut acc: usize = elem;
    let mut k: usize = n;
    assert(dims@.subrange(n as int, n as int) =~= Seq::<usize>::empty());
    assert(product(Seq::<usize>::empty()) == 1);
    assert(e * 1 == e);
    while k > 0
        invariant
            k <= n,
            n == dims@.len(),
            e == elem,
            acc == e * product(dims@.subrange(k as int, n as int)),
            forall|j: int| k <= j <= n ==> e * #[trigger] product(dims@.subrange(j, n as int))
                <= usize::MAX,
        decreases k,
    {
        let ghost tail = dims@.subrange(k - 1, n as int);
        let ghost rest = dims@.subrange(k as int, n as int);
        proof {
            assert(tail =~= seq![dims@[k - 1]] + rest);
            lemma_product_push_front(dims@[k - 1], rest);
            let d = dims@[k - 1] as nat;
            let p = product(rest);
            assert((e * p) * d == e * (d * p)) by (nonlinear_arith);
        }
        match acc.checked_mul(dims[k - 1]) {
            Some(v) => {
                acc = v;
            },
            None => {
                return false;
            },
        }
        k = k - 1;
    }
    true
}

/// Shape of a tensor
#[derive(Debug, Clone)]
pub struct TensorShape {
    dims: Vec<usize>,
}

impl TensorShape {
    pub closed spec fn dims_spec(&self) -> Seq<usize> {
        self.dims@
    }

    pub fn new(dims: Vec<usize>) -> (r: Self)
        ensures
            r.dims_spec() == dims@,
    {
        Self { dims }
    }

    pub fn rank(&self) -> (r: usize)
        ensures
            r == self.dims_spec().len(),
    {
        self.dims.len()
    }

    pub fn dims(&self) -> (r: &[usize])
        ensures
            r@ == self.dims_spec(),
    {
        self.dims.as_slice()
    }

    /// Number of elements: the product of the dimensions.
    pub fn numel(&self) -> (r: usize)
        requires
            prefix_products_fit(self.dims_spec()),
        ensures
            r == product(self.dims_spec()),
    {
        element_count(self.dims.as_slice())
    }

    pub fn is_scalar(&self) -> (r: bool)
        ensures
            r == (self.dims_spec().len() == 0),
    {
        self.dims.len() == 0
    }
}

/// Byte size of a tensor of the given shape and element type.
pub open spec fn byte_len(dims: Seq<usize>, dtype: DType) -> nat {
    product(dims) * dtype_size(dtype)
}

/// The shapes the tensor constructors accept: element count, byte size and
/// every stride computable without overflow.
pub open spec fn layout_fits(dims: Seq<usize>, dtype: DType) -> bool {
    &&& prefix_products_fit(dims)
    &&& byte_len(dims, dtype) <= usize::MAX
    &&& suffix_products_fit(dims, dtype_size(dtype))
}

/// Whether the tensor constructors accept a shape and element type.
pub fn layout_fits_check(dims: &[usize], dtype: DType) -> (r: bool)
    ensures
        r == layout_fits(dims@, dtype),
{
    if !prefix_products_fit_check(dims) {
        return false;
    }
    let n = element_count(dims);
    if n.checked_mul(dtype.size()).is_none() {
        return false;
    }
    suffix_products_fit_check(dims, dtype.size())
}

/// Basic tensor structure
pub struct Tensor {
    data: Vec<u8>,
    shape: TensorShape,
    dtype: DType,
    strides: Vec<usize>,
}

impl Tensor {
    pub closed spec fn bytes(&self) -> Seq<u8> {
        self.data@
    }

    pub closed spec fn dims_spec(&self) -> Seq<usize> {
        self.shape.dims@
    }

    pub closed spec fn dtype_spec(&self) -> DType {
        self.dtype
    }

    pub closed spec fn strides_spec(&self) -> Seq<usize> {
        self.strides@
    }

    /// Create a new tensor; its bytes are all zero.
    pub fn uninit(shape: TensorShape, dtype: DType) -> (r: Self)
        requires
            layout_fits(shape.dims_spec(), dtype),
        ensures
            r.dims_spec() == shape.dims_spec(),
            r.dtype_spec() == dtype,
            r.bytes() == Seq::new(byte_len(shape.dims_spec(), dtype), |i: int| 0u8),
            r.strides_spec() == row_major_strides(shape.dims_spec(), dtype_size(dtype)),
    {
        let numel = shape.numel();
        let size = numel * dtype.size();
        let mut data: Vec<u8> = Vec::with_capacity(size);
        let mut j: usize = 0;
        while j < size
            invariant
                j <= size,
                data@ == Seq::new(j as nat, |k: int| 0u8),
            decreases size - j,
        {
            data.push(0);
            j = j + 1;
            proof {
                assert(data@ =~= Seq::new(j as nat, |k: int| 0u8));
            }
        }
        let strides = Self::compute_strides(&shape, dtype);
        Self { data, shape, dtype, strides }
    }

    /// Create a tensor filled with zeros
    pub fn zeros(shape: TensorShape, dtype: DType) -> (r: Self)
        requires
            layout_fits(shape.dims_spec(), dtype),
        ensures
            r.dims_spec() == shape.dims_spec(),
            r.dtype_spec() == dtype,
            r.bytes() == Seq::new(byte_len(shape.dims_spec(), dtype), |i: int| 0u8),
            r.strides_spec() == row_major_strides(shape.dims_spec(), dtype_size(dtype)),
    {
        Self::uninit(shape, dtype)
    }

    /// Compute strides for row-major layout
    pub fn compute_strides(shape: &TensorShape, dtype: DType) -> (r: Vec<usize>)
        requires
            suffix_products_fit(shape.dims_spec(), dtype_size(dtype)),
        ensures
            r@ == row_major_strides(shape.dims_spec(), dtype_size(dtype)),
    {
        strides_for(shape.dims(), dtype.size())
    }

    pub fn shape(&self) -> (r: &TensorShape)
        ensures
            r.dims_spec() == self.dims_spec(),
    {
        &self.shape
    }

    pub fn dtype(&self) -> (r: DType)
        ensures
            r == self.dtype_spec(),
    {
        self.dtype
    }

    pub fn strides(&self) -> (r: &[usize])
        ensures
            r@ == self.strides_spec(),
    {
        self.strides.as_slice()
    }

    pub fn as_bytes(&self) -> (r: &[u8])
        ensures
            r@ == self.bytes(),
    {
        self.data.as_slice()
    }

    pub fn as_bytes_mut(&mut self) -> (r: &mut [u8])
        ensures
            r@ == old(self).bytes(),
            final(self).bytes() == final(r)@,
            final(self).dims_spec() == old(self).dims_spec(),
            final(self).dtype_spec() == old(self).dtype_spec(),
            final(self).strides_spec() == old(self).strides_spec(),
    {
        self.data.as_mut_slice()
    }
}

} // verus!
