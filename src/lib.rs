//! A fixed-capacity ring buffer that overwrites its oldest element when full
//! and always exposes its contents as one contiguous slice.

mod buffer;
pub mod laws;
mod std_items;

pub use buffer::{max_capacity, BufferError, CircleBuffer};
pub use laws::{pushed_view, retain_last};
