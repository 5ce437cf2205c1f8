use vstd::prelude::*;

use crate::text::{decimal, push_decimal};

verus! {

/// OpenCL device list errors.
#[derive(Debug, PartialEq, Eq, Copy, Clone, Structural)]
pub enum OpenClDeviceListError {
    /// Device index is out of bounds.
    DeviceIndexOutOfBounds { device_index: usize, num_devices: usize },
}

/// The type of OpenCL devices to list.
#[derive(Copy, Clone, Debug, PartialEq, Eq, Structural)]
pub enum OpenClDeviceType {
    /// List both CPU and GPU devices.
    Any,
    /// Only list CPU devices.
    Cpu,
    /// Only list GPU devices.
    Gpu,
}

/// The outcome of looking up a device of a list with `num_devices` devices.
pub open spec fn device_lookup(device_index: usize, num_devices: usize) -> Result<(), OpenClDeviceListError> {
    if device_index >= num_devices {
        Err(OpenClDeviceListError::DeviceIndexOutOfBounds { device_index, num_devices })
    } else {
        Ok(())
    }
}

/// Checks a device index, as `OpenClDeviceList::device_descriptor` does before reading
/// the descriptor.
pub fn check_device_index(device_index: usize, num_devices: usize) -> (r: Result<
    (),
    OpenClDeviceListError,
>)
    ensures
        r == device_lookup(device_index, num_devices),
        r is Ok <==> device_index < num_devices,
        r is Err ==> r == Err::<(), OpenClDeviceListError>(
            OpenClDeviceListError::DeviceIndexOutOfBounds { device_index, num_devices },
        ),
{
    if device_index >= num_devices {
        return Err(OpenClDeviceListError::DeviceIndexOutOfBounds { device_index, num_devices });
    }
    Ok(())
}

impl OpenClDeviceListError {
    /// The message that describes the error.
    pub open spec fn spec_message(self) -> Seq<char> {
        match self {
            OpenClDeviceListError::DeviceIndexOutOfBounds { device_index, num_devices } =>
                "device index "@ + decimal(device_index as nat) + " out of bounds (num_devices: "@
                + decimal(num_devices as nat) + ")"@,
        }
    }

    /// Returns the message that describes the error.
    pub fn message(&self) -> (r: String)
        ensures
            r@ == self.spec_message(),
    {
        match self {
            OpenClDeviceListError::DeviceIndexOutOfBounds { device_index, num_devices } => {
                let mut s = String::from_str("device index ");
                push_decimal(&mut s, *device_index as u64);
                s.append(" out of bounds (num_devices: ");
                push_decimal(&mut s, *num_devices as u64);
                s.append(")");
                s
            },
        }
    }
}


/// A device index is accepted exactly when it designates a device of the list, that is,
/// when it is below the number of devices; any other index is refused with itself and
/// the list's length.
pub proof fn lemma_device_lookup_accepts_listed_devices(device_index: usize, num_devices: usize)
    ensures
        device_lookup(device_index, num_devices) is Ok <==> device_index < num_devices,
        device_index >= num_devices ==> device_lookup(device_index, num_devices) == Err::<
            (),
            OpenClDeviceListError,
        >(OpenClDeviceListError::DeviceIndexOutOfBounds { device_index, num_devices }),
{
}

/// Growing the list keeps every accepted index accepted, and a list of `n + 1` devices
/// accepts index `n`, which a list of `n` devices refuses.
pub proof fn lemma_device_lookup_grows_with_list(device_index: usize, num_devices: usize)
    requires
        num_devices < usize::MAX,
    ensures
        device_lookup(device_index, num_devices) is Ok ==> device_lookup(device_index, (num_devices + 1) as usize) is Ok,
        device_lookup(num_devices, (num_devices + 1) as usize) is Ok,
        device_lookup(num_devices, num_devices) is Err,
{
}

} // verus!
