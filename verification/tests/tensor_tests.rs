use userspace::tensor::dense::{DType, Tensor, TensorShape};
use userspace::tensor::mlir::{MLIRContext, MLIROpBuilder, MLIRTensor};

#[test]
fn test_tensor_shape() {
    let shape = TensorShape::new(vec![2, 3, 4]);
    assert_eq!(shape.rank(), 3);
    assert_eq!(shape.numel(), 24);
    assert!(!shape.is_scalar());
}

#[test]
fn test_tensor_creation() {
    let shape = TensorShape::new(vec![2, 3]);
    let tensor = Tensor::zeros(shape, DType::F32);
    assert_eq!(tensor.shape().numel(), 6);
    assert_eq!(tensor.dtype(), DType::F32);
    assert_eq!(tensor.as_bytes().len(), 24); // 6 elements * 4 bytes
}

#[test]
fn row_major_strides_in_bytes() {
    let t = Tensor::zeros(TensorShape::new(vec![2, 3, 4]), DType::F64);
    assert_eq!(t.strides(), &[96, 32, 8]);
    assert!(t.as_bytes().iter().all(|b| *b == 0));
    let scalar = TensorShape::new(vec![]);
    assert!(scalar.is_scalar());
    assert_eq!(scalar.numel(), 1);
}

#[test]
fn test_mlir_context() {
    let mut ctx = MLIRContext::new();
    assert!(!ctx.is_initialized());
    ctx.init();
    assert!(ctx.is_initialized());
}

#[test]
fn test_mlir_tensor() {
    let shape = TensorShape::new(vec![2, 3]);
    let tensor = Tensor::zeros(shape, DType::F32);
    let mlir_tensor = MLIRTensor::from_tensor(&tensor);

    assert_eq!(mlir_tensor.shape(), &[2, 3]);
    assert_eq!(mlir_tensor.dtype(), "f32");
}

#[test]
fn mlir_builder_operations_give_scalar_f32() {
    let a = MLIRTensor::from_tensor(&Tensor::zeros(TensorShape::new(vec![2, 2]), DType::I32));
    let b = MLIRTensor::from_tensor(&Tensor::zeros(TensorShape::new(vec![2, 2]), DType::I32));
    assert_eq!(a.dtype(), "i32");
    assert_eq!(a.strides(), &[8, 4]);
    let builder = MLIROpBuilder::new(MLIRContext::new());
    let sum = builder.add(&a, &b);
    assert!(sum.shape().is_empty());
    assert_eq!(sum.dtype(), "f32");
    let prod = builder.matmul(&a, &b);
    assert!(prod.strides().is_empty());
}
