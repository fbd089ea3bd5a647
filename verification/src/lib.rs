//! Codec for the indexed-colour sprite format of a fighting-game engine:
//! the 16-byte header, the 4-bit pixel packer, the window matcher, the
//! LZ-style token stream and the file layout that frames them.

pub mod bin_header;
pub mod bit_depth;
pub mod bmp_file;
pub mod bitstream;
mod buffer;
pub mod formats;
pub mod process;
pub mod raw_name;
pub mod round_trip;
pub mod shared_types;
pub mod sprite_compress;
pub mod sprite_get;
pub mod sprite_make;
pub mod sprite_transform;
pub mod window;
