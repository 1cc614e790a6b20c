//! Recognizing a supported controller in an enumerated device list.
//!
//! A device is identified by its 16-bit USB vendor and product
//! identifiers. Two variants are supported, sharing one vendor identifier;
//! the scan takes the first device in enumeration order that carries either
//! identity, and nothing disambiguates when several are attached.

use vstd::prelude::*;

verus! {

/// USB vendor identifier shared by both supported controller variants.
pub const VENDOR_ID: u16 = 0x054c;

/// USB product identifier of the DualSense Edge controller.
pub const EDGE_PRODUCT_ID: u16 = 0x0df2;

/// USB product identifier of the regular DualSense controller.
pub const REG_PRODUCT_ID: u16 = 0x0ce6;

/// The two supported controller variants.
#[derive(Clone, Copy, PartialEq, Eq, Structural, Debug)]
pub enum DeviceVariant {
    Regular,
    Edge,
}

impl DeviceVariant {
    /// USB vendor identifier of this variant.
    pub fn vendor_id(&self) -> (v: u16)
        ensures
            v == VENDOR_ID,
    {
        VENDOR_ID
    }

    /// USB product identifier of this variant.
    pub fn product_id(&self) -> (p: u16)
        ensures
            *self == DeviceVariant::Regular ==> p == REG_PRODUCT_ID,
            *self == DeviceVariant::Edge ==> p == EDGE_PRODUCT_ID,
    {
        match self {
            DeviceVariant::Regular => REG_PRODUCT_ID,
            DeviceVariant::Edge => EDGE_PRODUCT_ID,
        }
    }

    /// Human-readable name of this variant.
    pub fn description(&self) -> (d: String)
        ensures
            *self == DeviceVariant::Regular ==> d@ == "DualSense controller"@,
            *self == DeviceVariant::Edge ==> d@ == "DualSense Edge Controller"@,
    {
        match self {
            DeviceVariant::Regular => "DualSense controller".to_owned(),
            DeviceVariant::Edge => "DualSense Edge Controller".to_owned(),
        }
    }
}

/// Which supported variant, if any, a device with the given vendor and
/// product identifiers is.
pub open spec fn variant_of(vendor: u16, product: u16) -> Option<DeviceVariant> {
    if vendor == VENDOR_ID && product == REG_PRODUCT_ID {
        Some(DeviceVariant::Regular)
    } else if vendor == VENDOR_ID && product == EDGE_PRODUCT_ID {
        Some(DeviceVariant::Edge)
    } else {
        None
    }
}

/// The variant of the first supported device in an enumerated list of
/// `(vendor, product)` pairs, scanning front to back.
pub open spec fn first_supported(devices: Seq<(u16, u16)>) -> Option<DeviceVariant>
    decreases devices.len(),
{
    if devices.len() == 0 {
        None
    } else if variant_of(devices[0].0, devices[0].1) is Some {
        variant_of(devices[0].0, devices[0].1)
    } else {
        first_supported(devices.skip(1))
    }
}

/// Scan an enumerated device list front to back and pick the first
/// supported controller; `None` exactly when no listed device carries a
/// supported identity.
pub fn select_device(devices: &Vec<(u16, u16)>) -> (found: Option<DeviceVariant>)
    ensures
        found == first_supported(devices@),
        found is None <==> (forall|j: int|
            0 <= j < devices@.len() ==> variant_of(devices@[j].0, devices@[j].1) is None),
{
    let n: usize = devices.len();
    let mut i: usize = 0;
    proof {
        assert(devices@.skip(0) =~= devices@);
    }
    while i < n
        invariant
            i <= n,
            n == devices@.len(),
            first_supported(devices@) == first_supported(devices@.skip(i as int)),
            forall|j: int| 0 <= j < i ==> variant_of(devices@[j].0, devices@[j].1) is None,
        decreases n - i,
    {
        let (vid, pid) = devices[i];
        proof {
            assert(devices@.skip(i as int)[0] == devices@[i as int]);
        }
        if vid == VENDOR_ID && pid == REG_PRODUCT_ID {
            return Some(DeviceVariant::Regular);
        } else if vid == VENDOR_ID && pid == EDGE_PRODUCT_ID {
            return Some(DeviceVariant::Edge);
        }
        proof {
            assert(devices@.skip(i as int).skip(1) =~= devices@.skip(i as int + 1));
        }
        i = i + 1;
    }
    proof {
        assert(devices@.skip(n as int) =~= Seq::<(u16, u16)>::empty());
    }
    None
}

} // verus!
