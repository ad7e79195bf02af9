//! Core of a minimal boot loader: it validates a segment-based executable
//! image, computes the contiguous virtual-address span its loadable segments
//! expect, and materializes the image into a page-backed buffer at offsets
//! relative to that span, zero-filling the gaps.
//!
//! Firmware services (page allocation, the boot volume's file protocol) are
//! modelled as explicit values threaded through the call chain, so the whole
//! pipeline is verified against their stated behaviour and runs without any
//! real firmware present.

pub mod elf;
pub mod error;
pub mod font;
pub mod gfx;
pub mod le;
pub mod loader;
pub mod pages;
pub mod static_str;
pub mod terminal;
pub mod utf16;
pub mod volume;

pub use error::LoadError;
