//! The comparator peripheral's register block.

use vstd::prelude::*;

verus! {

/// The volatile cell of the `vcell` crate, which holds the contents of one
/// memory-mapped register.
#[verifier::external_type_specification]
#[verifier::external_body]
#[verifier::reject_recursive_types(T)]
pub struct ExVolatileCell<T>(vcell::VolatileCell<T>);

/// Register block
pub struct RegisterBlock {
    /// 0x00 - control and status register
    pub csr: CSR,
}

/// control and status register
pub struct CSR {
    register: vcell::VolatileCell<u32>,
}

} // verus!
