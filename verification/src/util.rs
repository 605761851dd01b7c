//! The multiplication self-test that the host uses to check the
//! foreign-call plumbing.

use vstd::prelude::*;

verus! {

/// Argument pair for the multiplication self-test.
pub struct TestMultiplyArgs {
    pub a: u64,
    pub b: u64,
}

/// Multiplies the two test arguments.
pub fn test_multiply(args: TestMultiplyArgs) -> (r: u64)
    requires
        args.a * args.b <= u64::MAX,
    ensures
        r == args.a * args.b,
{
    args.a * args.b
}

} // verus!
