//! Speculative drafting: the static draft tree, and the bookkeeping of the draft
//! chain around its device work.

pub mod draft;
pub mod kernels;
pub mod tree;
