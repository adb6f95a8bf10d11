//! MLIR coordination for tensor operations.
use vstd::prelude::*;
use crate::tensor::dense::{DType, Tensor};

verus! {

/// MLIR context for managing tensor operations
pub struct MLIRContext {
    initialized: bool,
}

impl MLIRContext {
    pub closed spec fn initialized_spec(&self) -> bool {
        self.initialized
    }

    pub fn new() -> (r: Self)
        ensures
            !r.initialized_spec(),
    {
        Self { initialized: false }
    }

    pub fn init(&mut self)
        ensures
            final(self).initialized_spec(),
    {
        self.initialized = true;
    }

    pub fn is_initialized(&self) -> (r: bool)
        ensures
            r == self.initialized_spec(),
    {
        self.initialized
    }
}

/// MLIR spelling of an element type.
pub open spec fn mlir_type_name(d: DType) -> Seq<char> {
    match d {
        DType::F32 => "f32"@,
        DType::F64 => "f64"@,
        DType::I32 => "i32"@,
        DType::I64 => "i64"@,
        DType::U8 => "ui8"@,
        DType::U32 => "ui32"@,
        DType::U64 => "ui64"@,
        DType::Bool => "i1"@,
    }
}

/// MLIR tensor representation
pub struct MLIRTensor {
    shape: Vec<usize>,
    dtype: String,
    strides: Vec<usize>,
}

fn copy_dims(src: &[usize]) -> (r: Vec<usize>)
    ensures
        r@ == src@,
{
    let mut out: Vec<usize> = Vec::with_capacity(src.len());
    let mut i: usize = 0;
    while i < src.len()
        invariant
            i <= src@.len(),
            out@ == src@.subrange(0, i as int),
        decreases src@.len() - i,
    {
        out.push(src[i]);
        i = i + 1;
        proof {
            assert(out@ =~= src@.subrange(0, i as int));
        }
    }
    assert(src@.subrange(0, src@.len() as int) =~= src@);
    out
}

impl MLIRTensor {
    pub closed spec fn shape_spec(&self) -> Seq<usize> {
        self.shape@
    }

    pub closed spec fn dtype_spec(&self) -> Seq<char> {
        self.dtype@
    }

    pub closed spec fn strides_spec(&self) -> Seq<usize> {
        self.strides@
    }

    pub fn from_tensor(tensor: &Tensor) -> (r: Self)
        ensures
            r.shape_spec() == tensor.dims_spec(),
            r.dtype_spec() == mlir_type_name(tensor.dtype_spec()),
            r.strides_spec() == tensor.strides_spec(),
    {
        let name = match tensor.dtype() {
            DType::F32 => "f32",
            DType::F64 => "f64",
            DType::I32 => "i32",
            DType::I64 => "i64",
            DType::U8 => "ui8",
            DType::U32 => "ui32",
            DType::U64 => "ui64",
            DType::Bool => "i1",
        };
        Self {
            shape: copy_dims(tensor.shape().dims()),
            dtype: String::from_str(name),
            strides: copy_dims(tensor.strides()),
        }
    }

    pub fn shape(&self) -> (r: &[usize])
        ensures
            r@ == self.shape_spec(),
    {
        self.shape.as_slice()
    }

    pub fn dtype(&self) -> (r: &str)
        ensures
            r@ == self.dtype_spec(),
    {
        self.dtype.as_str()
    }

    pub fn strides(&self) -> (r: &[usize])
        ensures
            r@ == self.strides_spec(),
    {
        self.strides.as_slice()
    }
}

/// MLIR operation builder; its operations produce a rank-0 `f32` tensor
/// whatever the operands.
pub struct MLIROpBuilder {
    context: MLIRContext,
}

impl MLIROpBuilder {
    pub closed spec fn context_initialized(&self) -> bool {
        self.context.initialized
    }

    pub fn new(context: MLIRContext) -> (r: Self)
        ensures
            r.context_initialized() == context.initialized_spec(),
    {
        Self { context }
    }

    fn scalar_f32() -> (r: MLIRTensor)
        ensures
            r.shape_spec() == Seq::<usize>::empty(),
            r.dtype_spec() == "f32"@,
            r.strides_spec() == Seq::<usize>::empty(),
    {
        MLIRTensor { shape: Vec::new(), dtype: String::from_str("f32"), strides: Vec::new() }
    }

    /// Build an add operation
    pub fn add(&self, lhs: &MLIRTensor, rhs: &MLIRTensor) -> (r: MLIRTensor)
        ensures
            r.shape_spec() == Seq::<usize>::empty(),
            r.dtype_spec() == "f32"@,
            r.strides_spec() == Seq::<usize>::empty(),
    {
        Self::scalar_f32()
    }

    /// Build a matmul operation
    pub fn matmul(&self, lhs: &MLIRTensor, rhs: &MLIRTensor) -> (r: MLIRTensor)
        ensures
            r.shape_spec() == Seq::<usize>::empty(),
            r.dtype_spec() == "f32"@,
            r.strides_spec() == Seq::<usize>::empty(),
    {
        Self::scalar_f32()
    }
}

} // verus!
