pub mod hash;
pub mod hexcode;
pub mod key;
pub mod signature;
pub mod text;
pub mod vdf;
pub mod bytes;
