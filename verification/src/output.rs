//! The formats the command line can print products in.
use vstd::prelude::*;

verus! {

/// How products are printed.
#[derive(Debug, Clone, Copy, PartialEq, Eq, Structural)]
pub enum OutputFormat {
    Json,
    Csv,
}

} // verus!
