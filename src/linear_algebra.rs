pub mod matrix4;
pub mod tridiagonal_matrix;
