//! The pages of the video site mounted under `/pornlulu`.
pub mod category;
pub mod list;
pub mod post;
pub mod respond;
