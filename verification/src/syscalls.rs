//! The arguments and results of the system calls that the proxy makes itself.
use vstd::prelude::*;

verus! {

/// The arguments of a system call that takes one to three of them.
#[derive(Debug, Clone, Copy, PartialEq, Eq, Structural)]
pub enum SyscallArgs {
    One(usize),
    Two(usize, usize),
    Three(usize, usize, usize),
}

/// What a system call with no or too many arguments returns without being made.
pub const REFUSED: i64 = -1;

/// The call to make with `args`, or the value to return in its place.
pub fn raw_syscall_ret(args: &[usize]) -> (r: Result<SyscallArgs, i64>)
    ensures
        args@.len() == 1 ==> r == Ok::<SyscallArgs, i64>(SyscallArgs::One(args@[0])),
        args@.len() == 2 ==> r == Ok::<SyscallArgs, i64>(SyscallArgs::Two(args@[0], args@[1])),
        args@.len() == 3 ==> r == Ok::<SyscallArgs, i64>(
            SyscallArgs::Three(args@[0], args@[1], args@[2]),
        ),
        args@.len() == 0 || args@.len() > 3 ==> r is Err && r->Err_0 == -1,
{
    if args.len() == 1 {
        Ok(SyscallArgs::One(args[0]))
    } else if args.len() == 2 {
        Ok(SyscallArgs::Two(args[0], args[1]))
    } else if args.len() == 3 {
        Ok(SyscallArgs::Three(args[0], args[1], args[2]))
    } else {
        Err(REFUSED)
    }
}

/// The register value of a descriptor: sign-extended, so that a negative one wraps around.
pub open spec fn register(fd: i32) -> int {
    if fd >= 0 {
        fd as int
    } else {
        usize::MAX + 1 + fd
    }
}

fn to_register(fd: i32) -> (r: usize)
    ensures
        r == register(fd),
{
    if fd >= 0 {
        fd as usize
    } else {
        usize::MAX - (-(fd as i64) - 1) as usize
    }
}

/// The arguments of `connect`: descriptor, address, address length.
pub fn call_connect(fd: i32, addr: usize, addrlen: u32) -> (r: [usize; 3])
    ensures
        r@[0] == register(fd),
        r@[1] == addr,
        r@[2] == addrlen,
{
    [to_register(fd), addr, addrlen as usize]
}

/// The arguments of `close`: the descriptor.
pub fn call_close(fd: i32) -> (r: [usize; 1])
    ensures
        r@[0] == register(fd),
{
    [to_register(fd)]
}

/// Whether a send of `data` that returned `sent` went out whole. A failed send returns a
/// negative number.
pub fn send_raw_msg(data: &[u8], sent: isize) -> (r: bool)
    ensures
        r == (sent == data@.len()),
{
    sent >= 0 && sent as usize == data.len()
}

/// A descriptor goes into its register as its two's complement in the width of the register.
pub proof fn register_holds_the_descriptor(fd: i32)
    ensures
        0 <= register(fd) <= usize::MAX,
        register(fd) == fd || register(fd) == fd + usize::MAX + 1,
        fd >= 0 ==> register(fd) == fd,
{
}

} // verus!
