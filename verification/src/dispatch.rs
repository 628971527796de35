//! Descriptor dispatch: a descriptor carries a type tag that fixes the
//! calling convention and a kernel name that must belong to the closed set
//! for that tag. An unknown name resolves to nothing and the descriptor is
//! skipped; it never aborts the run.

use vstd::prelude::*;

verus! {

/// The closed catalog of kernels.
#[derive(Clone, Copy, PartialEq, Eq, Structural, Debug)]
pub enum KernelId {
    Fibonacci,
    Eratostenes,
    Nqueens,
    Quicksort,
    Montecarlo,
    MatrixMultiply,
    Mandelbrot,
}

/// The kernel a descriptor selects, if any: tag 1 carries the unsigned
/// scalar kernels, tag 2 the in-place sort, tag 3 the stochastic estimate,
/// tag 4 the matrix multiply and tag 5 the escape-time grid. Any other
/// combination selects nothing.
pub open spec fn resolve_spec(tag: int, fun: Seq<char>) -> Option<KernelId> {
    if tag == 1 {
        if fun == "fibonacci"@ {
            Some(KernelId::Fibonacci)
        } else if fun == "eratostenes"@ {
            Some(KernelId::Eratostenes)
        } else if fun == "nqueens"@ {
            Some(KernelId::Nqueens)
        } else {
            None
        }
    } else if tag == 2 {
        if fun == "quicksort"@ {
            Some(KernelId::Quicksort)
        } else {
            None
        }
    } else if tag == 3 {
        if fun == "montecarlo"@ {
            Some(KernelId::Montecarlo)
        } else {
            None
        }
    } else if tag == 4 {
        if fun == "matrix_multiply"@ {
            Some(KernelId::MatrixMultiply)
        } else {
            None
        }
    } else if tag == 5 {
        if fun == "mandelbrot"@ {
            Some(KernelId::Mandelbrot)
        } else {
            None
        }
    } else {
        None
    }
}

/// Resolves a descriptor's type tag and kernel name against the catalog.
/// `None` means the descriptor is to be skipped silently.
pub fn resolve_kernel(tag: u64, fun: &str) -> (r: Option<KernelId>)
    ensures
        r == resolve_spec(tag as int, fun@),
{
    let f = fun.to_owned();
    match tag {
        1u64 => {
            if f == String::from_str("fibonacci") {
                Some(KernelId::Fibonacci)
            } else if f == String::from_str("eratostenes") {
                Some(KernelId::Eratostenes)
            } else if f == String::from_str("nqueens") {
                Some(KernelId::Nqueens)
            } else {
                None
            }
        },
        2u64 => {
            if f == String::from_str("quicksort") {
                Some(KernelId::Quicksort)
            } else {
                None
            }
        },
        3u64 => {
            if f == String::from_str("montecarlo") {
                Some(KernelId::Montecarlo)
            } else {
                None
            }
        },
        4u64 => {
            if f == String::from_str("matrix_multiply") {
                Some(KernelId::MatrixMultiply)
            } else {
                None
            }
        },
        5u64 => {
            if f == String::from_str("mandelbrot") {
                Some(KernelId::Mandelbrot)
            } else {
                None
            }
        },
        _ => None,
    }
}

} // verus!
