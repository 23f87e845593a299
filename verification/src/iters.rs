//! The six traversals of a binary value.

pub mod bits;
pub mod bits_rev;
pub mod one_indices;
pub mod ones;
pub mod zero_indices;
pub mod zeros;

pub use bits::Bits;
pub use bits_rev::BitsRev;
pub use one_indices::OneIndices;
pub use ones::Ones;
pub use zero_indices::ZeroIndices;
pub use zeros::Zeros;
