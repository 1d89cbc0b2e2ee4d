//! The device directory: what an enumeration of attached devices reports.
use vstd::prelude::*;
use vstd::string::StringExecFns;

verus! {

/// One attached device as the enumeration found it. The product name is
/// absent where the device would not give it.
#[derive(Debug, Clone, PartialEq, Eq)]
pub struct DeviceRecord {
    pub vendor_id: u16,
    pub product_id: u16,
    pub product_name: Option<String>,
}

/// The identity of an attached device: a snapshot, not a handle.
#[derive(Debug, Clone, PartialEq, Eq)]
pub struct DeviceIdentity {
    pub vendor_id: u16,
    pub product_id: u16,
    pub display_name: String,
}

/// The device subsystem could not be initialised; nothing was enumerated.
#[derive(Debug, Clone, PartialEq, Eq)]
pub struct EnumerationError {
    pub message: String,
}

/// What a device identity says, as plain values.
pub struct DeviceIdentityView {
    pub vendor_id: u16,
    pub product_id: u16,
    pub display_name: Seq<char>,
}

impl View for DeviceIdentity {
    type V = DeviceIdentityView;

    open spec fn view(&self) -> DeviceIdentityView {
        DeviceIdentityView {
            vendor_id: self.vendor_id,
            product_id: self.product_id,
            display_name: self.display_name@,
        }
    }
}

/// The name shown for a device that gives none.
pub open spec fn unknown_device() -> Seq<char> {
    "Unknown Device"@
}

/// The identity that stands for `record`: its identifiers, and its product
/// name or else the name for unknown devices.
pub open spec fn identity_of(record: DeviceRecord) -> DeviceIdentityView {
    DeviceIdentityView {
        vendor_id: record.vendor_id,
        product_id: record.product_id,
        display_name: match record.product_name {
            Some(name) => name@,
            None => unknown_device(),
        },
    }
}

impl DeviceIdentity {
    /// The identity of one enumerated device.
    pub fn from_record(record: &DeviceRecord) -> (identity: DeviceIdentity)
        ensures
            identity@ == identity_of(*record),
    {
        let display_name = match &record.product_name {
            Some(name) => name.clone(),
            None => String::from_str("Unknown Device"),
        };
        DeviceIdentity {
            vendor_id: record.vendor_id,
            product_id: record.product_id,
            display_name,
        }
    }
}

/// Turns the outcome of an enumeration into the list of device identities.
///
/// Every device found is listed, in the order found. A failure to
/// initialise the device subsystem is passed on with its message and is not
/// retried.
pub fn list_hid_devices(found: Result<Vec<DeviceRecord>, String>) -> (listing: Result<
    Vec<DeviceIdentity>,
    EnumerationError,
>)
    ensures
        match found {
            Ok(records) => {
                &&& listing matches Ok(devices)
                &&& devices.len() == records.len()
                &&& forall|i: int|
                    0 <= i < records.len() ==> (#[trigger] devices[i])@ == identity_of(records[i])
            },
            Err(message) => {
                &&& listing matches Err(e)
                &&& e.message@ == message@
            },
        },
{
    match found {
        Ok(records) => {
            let mut devices: Vec<DeviceIdentity> = Vec::new();
            let mut at: usize = 0;
            while at < records.len()
                invariant
                    at <= records.len(),
                    devices.len() == at,
                    forall|i: int|
                        0 <= i < at ==> (#[trigger] devices[i])@ == identity_of(records[i]),
                decreases records.len() - at,
            {
                devices.push(DeviceIdentity::from_record(&records[at]));
                at = at + 1;
            }
            Ok(devices)
        },
        Err(message) => Err(EnumerationError { message }),
    }
}

} // verus!
