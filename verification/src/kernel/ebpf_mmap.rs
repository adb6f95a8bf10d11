//! Tensors laid out in the memory of the eBPF virtual machine: element types,
//! handles describing where a tensor lives, a registry of handles, and the
//! bump allocator that places new tensors in the VM's memory.
use vstd::prelude::*;
use crate::kernel::ebpf::VM;
use crate::tensor::dense::{
    element_count, prefix_products_fit, prefix_products_fit_check, product, row_major_strides,
    strides_for, suffix_products_fit, suffix_products_fit_check,
};

verus! {

/// Data type for tensor elements
#[derive(Debug, Clone, Copy, PartialEq, Eq, Structural)]
pub enum DType {
    F32,
    F64,
    I32,
    I64,
    U8,
    U32,
    U64,
}

/// Size in bytes of an element of the given type.
pub open spec fn dtype_size(d: DType) -> nat {
    match d {
        DType::U8 => 1,
        DType::F32 | DType::I32 | DType::U32 => 4,
        DType::F64 | DType::I64 | DType::U64 => 8,
    }
}

impl DType {
    pub fn size(&self) -> (r: usize)
        ensures
            r == dtype_size(*self),
    {
        match self {
            DType::U8 => 1,
            DType::F32 | DType::I32 | DType::U32 => 4,
            DType::F64 | DType::I64 | DType::U64 => 8,
        }
    }
}

/// Bytes taken by a tensor of the given shape and element type.
pub open spec fn tensor_bytes(shape: Seq<usize>, dtype: DType) -> nat {
    product(shape) * dtype_size(dtype)
}

/// The shapes a handle can describe: the element count, the byte length and
/// every stride computable without overflow.
pub open spec fn handle_layout_fits(shape: Seq<usize>, dtype: DType) -> bool {
    &&& prefix_products_fit(shape)
    &&& tensor_bytes(shape, dtype) <= usize::MAX
    &&& suffix_products_fit(shape, dtype_size(dtype))
}

/// Handle to a tensor in memory: where its bytes start, how many there are,
/// and how its elements are laid out.
pub struct TensorHandle {
    pub id: u64,
    pub dtype: DType,
    pub shape: Vec<usize>,
    pub strides: Vec<usize>,
    pub offset: usize,
    pub byte_len: usize,
}

/// The handle of a tensor of the given identity, type, shape and offset.
pub open spec fn describes(
    t: TensorHandle,
    id: u64,
    dtype: DType,
    shape: Seq<usize>,
    offset: usize,
) -> bool {
    &&& t.id == id
    &&& t.dtype == dtype
    &&& t.shape@ == shape
    &&& t.strides@ == row_major_strides(shape, dtype_size(dtype))
    &&& t.offset == offset
    &&& t.byte_len == tensor_bytes(shape, dtype)
}

/// Two handles that agree field by field.
pub open spec fn same_handle(a: TensorHandle, b: TensorHandle) -> bool {
    &&& a.id == b.id
    &&& a.dtype == b.dtype
    &&& a.shape@ == b.shape@
    &&& a.strides@ == b.strides@
    &&& a.offset == b.offset
    &&& a.byte_len == b.byte_len
}

fn copy_usizes(v: &Vec<usize>) -> (r: Vec<usize>)
    ensures
        r@ == v@,
{
    let mut r: Vec<usize> = Vec::with_capacity(v.len());
    let mut i: usize = 0;
    while i < v.len()
        invariant
            i <= v@.len(),
            r@ == v@.subrange(0, i as int),
        decreases v@.len() - i,
    {
        r.push(v[i]);
        i = i + 1;
        proof {
            assert(r@ =~= v@.subrange(0, i as int));
        }
    }
    assert(v@.subrange(0, v@.len() as int) =~= v@);
    r
}

impl TensorHandle {
    /// Create a new tensor handle
    pub fn new(id: u64, dtype: DType, shape: Vec<usize>, offset: usize) -> (r: Self)
        requires
            handle_layout_fits(shape@, dtype),
        ensures
            describes(r, id, dtype, shape@, offset),
    {
        let numel = element_count(shape.as_slice());
        let byte_len = numel * dtype.size();
        let strides = strides_for(shape.as_slice(), dtype.size());
        Self { id, dtype, shape, strides, offset, byte_len }
    }

    /// A handle equal to this one.
    pub fn duplicate(&self) -> (r: Self)
        ensures
            same_handle(r, *self),
    {
        Self {
            id: self.id,
            dtype: self.dtype,
            shape: copy_usizes(&self.shape),
            strides: copy_usizes(&self.strides),
            offset: self.offset,
            byte_len: self.byte_len,
        }
    }

    /// The byte range `[offset, offset + byte_len)` of the tensor, when it
    /// lies inside a memory of `mem_len` bytes.
    pub fn byte_range(&self, mem_len: usize) -> (r: Option<(usize, usize)>)
        ensures
            r is Some <==> self.offset + self.byte_len <= mem_len,
            r matches Some(p) ==> p.0 == self.offset && p.1 == self.offset + self.byte_len,
    {
        if self.byte_len <= mem_len && self.offset <= mem_len - self.byte_len {
            Some((self.offset, self.offset + self.byte_len))
        } else {
            None
        }
    }

    /// Typed access needs the element type to have the tensor's element size.
    pub fn check_elem_size(&self, elem_size: usize) -> (r: Result<(), String>)
        ensures
            r is Ok <==> elem_size == dtype_size(self.dtype),
            r matches Err(e) ==> e@ == "Type size mismatch"@,
    {
        if elem_size != self.dtype.size() {
            return Err(String::from_str("Type size mismatch"));
        }
        Ok(())
    }
}

/// Index of the first handle with the given id.
pub open spec fn first_with_id(ts: Seq<TensorHandle>, id: u64) -> int {
    choose|i: int| 0 <= i < ts.len() && ts[i].id == id && forall|j: int| 0 <= j < i ==> ts[j].id != id
}

pub open spec fn has_id(ts: Seq<TensorHandle>, id: u64) -> bool {
    exists|i: int| 0 <= i < ts.len() && ts[i].id == id
}

/// Registry for managing tensors
pub struct TensorRegistry {
    tensors: Vec<TensorHandle>,
    next_id: u64,
}

impl TensorRegistry {
    pub closed spec fn handles(&self) -> Seq<TensorHandle> {
        self.tensors@
    }

    pub closed spec fn next_id_spec(&self) -> u64 {
        self.next_id
    }

    pub fn new() -> (r: Self)
        ensures
            r.handles().len() == 0,
            r.next_id_spec() == 0,
    {
        Self { tensors: Vec::new(), next_id: 0 }
    }

    /// Register a new tensor; its id is returned.
    pub fn register(&mut self, tensor: TensorHandle) -> (r: u64)
        ensures
            r == tensor.id,
            final(self).handles() == old(self).handles().push(tensor),
            final(self).next_id_spec() == old(self).next_id_spec(),
    {
        let id = tensor.id;
        self.tensors.push(tensor);
        id
    }

    /// Get the first tensor registered under an id.
    pub fn get(&self, id: u64) -> (r: Option<TensorHandle>)
        ensures
            r is Some <==> has_id(self.handles(), id),
            r matches Some(t) ==> same_handle(t, self.handles()[first_with_id(self.handles(), id)]),
    {
        let mut i: usize = 0;
        while i < self.tensors.len()
            invariant
                i <= self.tensors@.len(),
                forall|j: int| 0 <= j < i ==> self.tensors@[j].id != id,
            decreases self.tensors@.len() - i,
        {
            if self.tensors[i].id == id {
                proof {
                    let ts = self.tensors@;
                    assert(0 <= i < ts.len() && ts[i as int].id == id && forall|j: int|
                        0 <= j < i ==> ts[j].id != id);
                    let k = first_with_id(ts, id);
                    if k < i {
                        assert(ts[k].id != id);
                    } else if k > i {
                        assert(ts[i as int].id != id);
                    }
                }
                return Some(self.tensors[i].duplicate());
            }
            i = i + 1;
        }
        None
    }

    /// Create a new tensor with the next id, register it and return it.
    /// Ids are handed out in sequence, wrapping around after `u64::MAX`.
    pub fn create_tensor(&mut self, dtype: DType, shape: Vec<usize>, offset: usize) -> (r:
        TensorHandle)
        requires
            handle_layout_fits(shape@, dtype),
        ensures
            describes(r, old(self).next_id_spec(), dtype, shape@, offset),
            final(self).handles().len() == old(self).handles().len() + 1,
            final(self).handles().subrange(0, old(self).handles().len() as int) == old(
                self,
            ).handles(),
            same_handle(final(self).handles().last(), r),
            final(self).next_id_spec() == old(self).next_id_spec().wrapping_add(1),
    {
        let id = self.next_id;
        self.next_id = self.next_id.wrapping_add(1);
        let tensor = TensorHandle::new(id, dtype, shape, offset);
        let copy = tensor.duplicate();
        self.register(copy);
        proof {
            assert(self.tensors@.subrange(0, old(self).tensors@.len() as int) =~= old(
                self,
            ).tensors@);
        }
        tensor
    }
}

/// Bytes an allocation of `byte_len` bytes takes: rounded up to a multiple
/// of the element size.
pub open spec fn rounded_up(byte_len: nat, align: nat) -> nat
    recommends
        align > 0,
{
    ((byte_len + align - 1) / (align as int)) as nat * align
}

/// The shapes the allocator accepts without panicking: the element count
/// fits, and when the byte length fits, so do its rounding and the strides.
pub open spec fn alloc_accepts(shape: Seq<usize>, dtype: DType) -> bool {
    &&& prefix_products_fit(shape)
    &&& tensor_bytes(shape, dtype) <= usize::MAX ==> {
        &&& tensor_bytes(shape, dtype) + dtype_size(dtype) <= usize::MAX
        &&& suffix_products_fit(shape, dtype_size(dtype))
    }
}

/// Whether a handle can describe a tensor of this shape and type.
pub fn handle_layout_fits_check(shape: &[usize], dtype: DType) -> (r: bool)
    ensures
        r == handle_layout_fits(shape@, dtype),
{
    if !prefix_products_fit_check(shape) {
        return false;
    }
    let n = element_count(shape);
    if n.checked_mul(dtype.size()).is_none() {
        return false;
    }
    suffix_products_fit_check(shape, dtype.size())
}

/// Whether the allocator takes a request for this shape and type without
/// panicking.
pub fn alloc_accepts_check(shape: &[usize], dtype: DType) -> (r: bool)
    ensures
        r == alloc_accepts(shape@, dtype),
{
    if !prefix_products_fit_check(shape) {
        return false;
    }
    let n = element_count(shape);
    match n.checked_mul(dtype.size()) {
        None => true,
        Some(bytes) => bytes.checked_add(dtype.size()).is_some() && suffix_products_fit_check(
            shape,
            dtype.size(),
        ),
    }
}

/// Extended eBPF VM with tensor support: a memory of `mem_len` bytes in
/// which tensors are placed by a bump allocator.
pub struct TensorVM {
    pub mem_len: usize,
    pub registry: TensorRegistry,
    pub vm: VM,
    /// Next free offset (simple bump allocator)
    pub next_offset: usize,
}

impl TensorVM {
    pub fn new(mem_len: usize) -> (r: Self)
        ensures
            r.mem_len == mem_len,
            r.next_offset == 0,
            r.registry.handles().len() == 0,
            r.registry.next_id_spec() == 0,
            r.vm.wf(),
    {
        Self { mem_len, registry: TensorRegistry::new(), vm: VM::new(0), next_offset: 0 }
    }

    /// Allocate a tensor in the VM's memory. The bump pointer moves by the
    /// rounded size (wrapping) before the bounds check, so a refused
    /// allocation still consumes its space.
    pub fn alloc_tensor(&mut self, dtype: DType, shape: Vec<usize>) -> (r: Result<
        TensorHandle,
        String,
    >)
        requires
            alloc_accepts(shape@, dtype),
        ensures
            final(self).mem_len == old(self).mem_len,
            tensor_bytes(shape@, dtype) > usize::MAX ==> {
                &&& r matches Err(e) && e@ == "size overflow"@
                &&& final(self).next_offset == old(self).next_offset
                &&& final(self).registry == old(self).registry
            },
            tensor_bytes(shape@, dtype) <= usize::MAX ==> {
                let len = tensor_bytes(shape@, dtype);
                let step = rounded_up(len, dtype_size(dtype));
                let off = old(self).next_offset;
                &&& final(self).next_offset == (off + step) % (usize::MAX + 1)
                &&& (off + len <= old(self).mem_len) ==> (r matches Ok(t) && describes(
                    t,
                    old(self).registry.next_id_spec(),
                    dtype,
                    shape@,
                    off,
                ) && same_handle(final(self).registry.handles().last(), t))
                &&& (off + len <= old(self).mem_len) ==> {
                    &&& final(self).registry.handles().len() == old(self).registry.handles().len()
                        + 1
                    &&& final(self).registry.handles().subrange(
                        0,
                        old(self).registry.handles().len() as int,
                    ) == old(self).registry.handles()
                    &&& final(self).registry.next_id_spec() == old(
                        self,
                    ).registry.next_id_spec().wrapping_add(1)
                }
                &&& (off + len > old(self).mem_len) ==> {
                    &&& r matches Err(e) && e@ == "out of memory"@
                    &&& final(self).registry == old(self).registry
                }
            },
    {
        let numel = element_count(shape.as_slice());
        let size = dtype.size();
        let byte_len = match numel.checked_mul(size) {
            Some(b) => b,
            None => {
                return Err(String::from_str("size overflow"));
            },
        };
        let align = size;
        proof {
            let q = (byte_len + align - 1) / (align as int);
            assert(q * align <= byte_len + align - 1) by (nonlinear_arith)
                requires
                    q == (byte_len + align - 1) / (align as int),
                    align > 0,
                    byte_len + align - 1 >= 0,
            ;
        }
        let alloc = (byte_len + align - 1) / align * align;
        let offset = self.next_offset;
        self.next_offset = self.next_offset.wrapping_add(alloc);
        if byte_len > self.mem_len || offset > self.mem_len - byte_len {
            return Err(String::from_str("out of memory"));
        }
        let t = self.registry.create_tensor(dtype, shape, offset);
        Ok(t)
    }
}

/// Two allocations in a row never overlap: the first, of `len` bytes at
/// `off`, ends at or before the bump pointer it leaves, which is where the
/// second starts, as long as the pointer has not wrapped around.
pub proof fn law_bump_allocations_disjoint(off: usize, len: nat, align: nat)
    requires
        align > 0,
        off + rounded_up(len, align) <= usize::MAX,
    ensures
        off + len <= (off + rounded_up(len, align)) % (usize::MAX + 1),
{
    let q = (len + align - 1) / (align as int);
    assert(q * align + (len + align - 1) % (align as int) == len + align - 1) by (nonlinear_arith)
        requires
            q == (len + align - 1) / (align as int),
            align > 0,
    ;
    assert((len + align - 1) % (align as int) < align) by (nonlinear_arith)
        requires
            align > 0,
    ;
    assert(q * align >= len);
    let step = rounded_up(len, align);
    vstd::arithmetic::div_mod::lemma_small_mod((off + step) as nat, (usize::MAX + 1) as nat);
}

} // verus!
