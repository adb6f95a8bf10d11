pub mod dense;
pub mod mlir;
