//! Verified core of a small single-core kernel: paging, descriptor tables,
//! trap dispatch, the scheduler and the helpers they rest on.

pub mod arch;
pub mod ints;
pub mod keyboard;
pub mod mem;
pub mod sched;
pub mod spinlock;
pub mod time;
pub mod utils;
