//! The management-library stub: a fixed driver version string, copied into
//! a caller-sized buffer, and the status codes around it.

use vstd::prelude::*;

verus! {

/// The status codes the stub returns.
#[derive(Clone, Copy, Debug, PartialEq, Eq, Structural)]
pub enum NvmlReturn {
    Success,
    ErrorInvalidArgument,
    ErrorNotSupported,
}

/// The advertised driver version, with its terminating zero byte.
pub open spec fn driver_version() -> Seq<u8> {
    seq![53u8, 53u8, 48u8, 46u8, 55u8, 55u8, 0u8]
}

/// Every entry point without an implementation reports it is unsupported.
pub fn unimplemented() -> (r: NvmlReturn)
    ensures
        r == NvmlReturn::ErrorNotSupported,
{
    NvmlReturn::ErrorNotSupported
}

/// The bytes written for a driver-version query into a buffer of `length`
/// bytes: the version string truncated to the buffer, with the last
/// written byte forced to zero so the result is always terminated.
pub fn system_get_driver_version(length: u32) -> (r: Vec<u8>)
    ensures
        r@.len() == if length as int <= driver_version().len() {
            length as int
        } else {
            driver_version().len() as int
        },
        forall|i: int| 0 <= i < r@.len() - 1 ==> r@[i] == driver_version()[i],
        r@.len() > 0 ==> r@.last() == 0u8,
{
    let version: Vec<u8> = vec![53u8, 53u8, 48u8, 46u8, 55u8, 55u8, 0u8];
    proof {
        assert(version@ =~= driver_version());
    }
    let copy_length: usize = if (length as usize) < version.len() {
        length as usize
    } else {
        version.len()
    };
    let mut r: Vec<u8> = Vec::new();
    let mut i: usize = 0;
    while i < copy_length
        invariant
            copy_length <= version@.len(),
            version@ == driver_version(),
            i <= copy_length,
            r@.len() == i,
            forall|k: int| 0 <= k < i ==> r@[k] == driver_version()[k],
        decreases copy_length - i,
    {
        r.push(version[i]);
        i = i + 1;
    }
    if r.len() > 0 {
        let last = r.len() - 1;
        r.set(last, 0);
    }
    r
}

/// The message text of a status code; the stub reports none.
pub fn error_string(_result: NvmlReturn) -> (r: Vec<u8>)
    ensures
        r@.len() == 0,
{
    Vec::new()
}

} // verus!
