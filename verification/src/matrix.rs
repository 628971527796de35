//! Dimension bookkeeping for the dense matrix-multiply kernel. The harness
//! convention is that the second operand is square with side equal to the
//! first operand's height; the kernel itself works element-wise on 64-bit
//! floats and therefore lives outside the verified core, but the sizes it
//! asserts are computed and checked here.

use vstd::prelude::*;
use vstd::arithmetic::div_mod::lemma_fundamental_div_mod;

verus! {

/// Length of the output buffer of the matrix multiply: the first operand's
/// height squared, since the second operand is square of that side.
pub fn output_matrix_size(a_width: usize, a_len: usize) -> (r: usize)
    requires
        a_width > 0,
        (a_len as int / a_width as int) * (a_len as int / a_width as int) <= usize::MAX,
    ensures
        r == (a_len as int / a_width as int) * (a_len as int / a_width as int),
{
    let a_height = a_len / a_width;
    let b_width = a_height;
    a_height * b_width
}

/// The dimension checks the matrix kernel enforces by assertion, decided
/// ahead of the call: with height h = a_len / a_width, the second operand
/// must be square of side h (so a_width must equal b_len / h) and the
/// output buffer must hold at least h * h elements.
pub fn matrix_dims_ok(a_len: usize, b_len: usize, c_len: usize, a_width: usize) -> (r: bool)
    requires
        a_width > 0,
        a_len as int / a_width as int > 0,
    ensures
        r == (a_width as int == b_len as int / (a_len as int / a_width as int) && c_len as int
            >= (a_len as int / a_width as int) * (a_len as int / a_width as int)),
{
    let a_height = a_len / a_width;
    let b_height = b_len / a_height;
    let big_enough = c_len / a_height >= a_height;
    proof {
        lemma_fundamental_div_mod(c_len as int, a_height as int);
        if c_len / a_height >= a_height {
            assert((c_len as int) >= a_height * a_height) by (nonlinear_arith)
                requires
                    a_height > 0,
                    c_len as int == (a_height as int) * ((c_len as int) / (a_height as int)) + (
                    c_len as int) % (a_height as int),
                    (c_len as int) % (a_height as int) >= 0,
                    (c_len as int) / (a_height as int) >= a_height as int,
            ;
        } else {
            assert((c_len as int) < a_height * a_height) by (nonlinear_arith)
                requires
                    a_height > 0,
                    c_len as int == (a_height as int) * ((c_len as int) / (a_height as int)) + (
                    c_len as int) % (a_height as int),
                    (c_len as int) % (a_height as int) < a_height as int,
                    (c_len as int) / (a_height as int) < a_height as int,
            ;
        }
    }
    a_width == b_height && big_enough
}

} // verus!
