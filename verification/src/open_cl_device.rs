//! OpenCL device type, as used by the device list settings.

use vstd::prelude::*;

verus! {

/// The type of OpenCL devices to list.
#[derive(Copy, Clone, Debug, PartialEq, Eq, Structural)]
pub enum OpenClDeviceType {
    /// List both CPU and GPU devices.
    Any,
    /// Only list CPU devices.
    Cpu,
    /// Only list GPU devices.
    Gpu,
}

} // verus!
