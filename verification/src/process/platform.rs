//! Per-process figures that only some platforms report. On this platform
//! there is no cheap source for them, so they read as absent.
use vstd::prelude::*;

verus! {

/// Number of threads of `pid`; not reported here, so `0`.
pub fn thread_count(_pid: u32) -> (n: u32)
    ensures
        n == 0,
{
    0
}

/// Number of open file descriptors of `pid`; not reported here, so `0`.
pub fn open_fd_count(_pid: u32) -> (n: u32)
    ensures
        n == 0,
{
    0
}

/// Physical memory footprint of `pid` in bytes; not reported here.
pub fn phys_footprint(_pid: u32) -> (n: Option<u64>)
    ensures
        n is None,
{
    None
}

} // verus!
