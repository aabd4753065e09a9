use vstd::prelude::*;

verus! {

/// Errors of the bring-up core: the device registry ran out of its fixed
/// capacity during a scan, or a base-address register was requested at an
/// index outside the decodable range.
#[derive(Clone, Copy, Debug, PartialEq, Eq, Structural)]
pub enum KError {
    Full,
    IndexOutOfRange,
}

pub type KResult<T> = Result<T, KError>;

} // verus!
