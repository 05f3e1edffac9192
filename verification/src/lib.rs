//! The logic of an `htop`-like monitor for V4L2 mem2mem hardware.

pub mod bars;
pub mod codec;
pub mod device;
pub mod format;
pub mod history;
pub mod stream;
pub mod table;
pub mod text;
pub mod top;
pub mod v4l2_mem;
pub mod v4l2_stats;
