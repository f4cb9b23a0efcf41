//! Audio Vivid (AV3A): stream format, stereo rendering, decode sessions and MP4 indexing.
pub mod ceiling;
pub mod index;
pub mod input;
pub mod matrix;
pub mod pcm;
pub mod playback;
pub mod render;
pub mod session;
pub mod stream;
