use vstd::prelude::*;

verus! {

/// `io_uring::cqueue::more`: whether the completion flags carry
/// `IORING_CQE_F_MORE` (the value 2 on every architecture the crate
/// supports), that is, whether more completions of the same submission
/// will follow.
#[verifier::external_body]
pub(crate) fn cqe_more(flags: u32) -> (r: bool)
    ensures
        r == (flags & 2u32 != 0u32),
{
    io_uring::cqueue::more(flags)
}

} // verus!
