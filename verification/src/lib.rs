//! Verified core of a video and scene wallpaper engine: frame pacing, IVF
//! indexing, argument parsing, pixel composition, the control state, scene
//! bookkeeping and the presentation policies that decide how decoded frames
//! reach the compositor.

pub mod args;
pub mod buffers;
pub mod cli;
pub mod control;
pub mod decode;
pub mod dmabuf;
pub mod drm;
pub mod extent;
pub mod fill;
pub mod frame;
pub mod freeze;
pub mod hash;
pub mod ivf;
pub mod multi;
pub mod outputs;
pub mod present;
pub mod scene;
pub mod session;
pub mod stream;
pub mod text;
