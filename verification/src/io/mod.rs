pub mod buffer;
pub mod event;
pub mod socket;

pub use buffer::IoBuffer;
pub use event::EventLoop;
pub use socket::SocketBuilder;

use vstd::prelude::*;

verus! {

/// Default read buffer size (8KB)
pub const READ_BUFFER_SIZE: usize = 8192;

/// Default write buffer size
pub const WRITE_BUFFER_SIZE: usize = 8192;

} // verus!
