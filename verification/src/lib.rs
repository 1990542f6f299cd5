//! Grid, vector, generational-arena and voice-mixing utilities of the RAW audio workstation,
//! with their behaviour stated as Verus contracts.

pub mod distance_field;
pub mod file_utils;
pub mod gen_ref;
pub mod ivec2;
pub mod mixer;
pub mod option_utils;
pub mod render;
pub mod rng;
pub mod signal;
pub mod texture;

pub use file_utils::MyDirEntry;
pub use gen_ref::{GenArena, GenBucket, GenRef};
pub use ivec2::{ivec2, IVec2};
pub use mixer::{Mixer, PlayCommand, PlaybackContext};
pub use option_utils::{ExpectWith, UnwrapMut, UnwrapRef};
pub use rng::{khash_next, random_seed};
pub use texture::{Draw, Texture};
