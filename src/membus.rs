//! A small producer of constraints beside the lookups: the memory-bus well-formedness
//! checks of the CPU table.

use vstd::prelude::*;
use crate::field::{Felt, fmul, fsub};
use crate::column::row_wf;

verus! {

/// General-purpose memory channels.
pub const NUM_GP_CHANNELS: usize = 5;

/// All memory channels of the CPU table: the code channel, then the general-purpose ones.
pub const NUM_CHANNELS: usize = 6;

/// `code_context − (1 − is_kernel_mode) · context`.
pub open spec fn code_context_residual(code_context: int, is_kernel_mode: int, context: int) -> int {
    fsub(code_context, fmul(fsub(1, is_kernel_mode), context))
}

/// `used · (used − 1)`, zero exactly when `used` is 0 or 1.
pub open spec fn binary_residual(used: int) -> int {
    fmul(used, fsub(used, 1))
}

/// The residuals of the memory-bus constraints on one row: first the code-context one
/// (the code context is 0 in kernel mode and the current context in user mode), then one
/// per channel that its `used` flag is 0 or 1.
pub fn eval_packed(code_context: Felt, is_kernel_mode: Felt, context: Felt, channels_used: &[Felt]) -> (r: Vec<Felt>)
    requires
        code_context.wf(),
        is_kernel_mode.wf(),
        context.wf(),
        row_wf(channels_used@),
    ensures
        r@.len() == channels_used@.len() + 1,
        r@[0]@ == code_context_residual(code_context@, is_kernel_mode@, context@),
        forall|i: int| 0 <= i < channels_used@.len() ==> (#[trigger] r@[i + 1])@ == binary_residual(channels_used@[i]@),
{
    let mut r: Vec<Felt> = Vec::new();
    r.push(code_context.sub(Felt::one().sub(is_kernel_mode).mul(context)));
    let mut i: usize = 0;
    while i < channels_used.len()
        invariant
            i <= channels_used@.len(),
            row_wf(channels_used@),
            r@.len() == i + 1,
            r@[0]@ == code_context_residual(code_context@, is_kernel_mode@, context@),
            forall|k: int| 0 <= k < i ==> (#[trigger] r@[k + 1])@ == binary_residual(channels_used@[k]@),
        decreases channels_used@.len() - i,
    {
        let used = channels_used[i];
        r.push(used.mul(used.sub(Felt::one())));
        i = i + 1;
    }
    r
}

} // verus!
