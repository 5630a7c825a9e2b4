//! A device found under the driver directory, with its matrix
//! control manager.  The directory scan itself is I/O and lives with
//! the caller; it hands each device's path and type text here.

use vstd::prelude::*;

use crate::matrix::DeviceMatrixEffectManager;

verus! {

/// One device of the driver: its sysfs directory, its reported
/// type, and the control manager over that directory.
#[derive(Debug)]
pub struct Device {
    pub path: String,
    pub device_type: String,
    pub matrix_manager: DeviceMatrixEffectManager,
}

impl Device {
    /// Builds a device from its directory and its type text; the
    /// control manager works on the same directory.
    pub fn new(path: String, device_type: String) -> (r: Device)
        ensures
            r.path@ == path@,
            r.device_type == device_type,
            r.matrix_manager.path@ == path@,
    {
        let manager_path = path.clone();
        Device { path, device_type, matrix_manager: DeviceMatrixEffectManager::new(manager_path) }
    }

    /// The device type the driver reported.
    pub fn device_type(&self) -> (r: &str)
        ensures
            r@ == self.device_type@,
    {
        self.device_type.as_str()
    }

    /// The control manager of this device's matrix.
    pub fn matrix_manager(&self) -> (r: &DeviceMatrixEffectManager)
        ensures
            r == &self.matrix_manager,
    {
        &self.matrix_manager
    }
}

} // verus!
