//! The outcome of a VMX instruction, as the processor reports it in RFLAGS.
use vstd::prelude::*;

verus! {

/// RFLAGS carry flag.
pub const FLAGS_CF: u64 = 1 << 0;
/// RFLAGS zero flag.
pub const FLAGS_ZF: u64 = 1 << 6;

/// How a VMX instruction failed.
#[derive(Debug, PartialEq, Eq, Structural, Copy, Clone)]
pub enum VmFail {
    /// The instruction failed with a valid current VMCS (ZF set); the
    /// error number is in the VM-instruction error field.
    VmFailValid,
    /// The instruction failed without a current VMCS (CF set).
    VmFailInvalid,
}

/// The outcome of a VMX instruction from the RFLAGS it left: ZF set means
/// `VmFailValid`, else CF set means `VmFailInvalid`, else success.
pub fn vmx_capture_status(rflags: u64) -> (r: Result<(), VmFail>)
    ensures
        r == (if rflags & FLAGS_ZF != 0 {
            Err(VmFail::VmFailValid)
        } else if rflags & FLAGS_CF != 0 {
            Err(VmFail::VmFailInvalid)
        } else {
            Ok(())
        }),
{
    if rflags & FLAGS_ZF != 0 {
        Err(VmFail::VmFailValid)
    } else if rflags & FLAGS_CF != 0 {
        Err(VmFail::VmFailInvalid)
    } else {
        Ok(())
    }
}

} // verus!
