//! Strided sequence and grid views over explicit buffers, and a reversible
//! integer wavelet transform engine built on top of them.
//!
//! A view is a plain descriptor: an origin offset plus a length and an
//! element stride per axis. It never owns memory; every operation that reads
//! or writes elements takes the backing buffer as an explicit argument, and
//! its contract says exactly which buffer cells are read or written. All
//! descriptor algebra (transposition, chunking, deinterleaving, splitting,
//! sub-viewing) is pure arithmetic on the descriptor and is verified.

pub mod daub;
pub mod dwt;
pub mod dwt2;
pub mod haar;
pub mod image;
pub mod numeric;
pub mod pgm;
pub mod predict;
pub mod pyramid;
pub mod strided;

pub use daub::Daub53;
pub use daub::LossyDaub53;
pub use dwt::Dwt0;
pub use dwt::Dwt1;
pub use dwt2::Dwt2;
pub use haar::Haar;
pub use haar::LossyHaar;
pub use image::Image;
pub use image::ImageView;
pub use numeric::Convert;
pub use predict::Predict;
pub use pyramid::forward_pyramid;
pub use pyramid::inverse_pyramid;
pub use strided::Strided;
pub use strided::StridedState;
