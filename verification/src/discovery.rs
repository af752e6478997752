//! Device identity resolution.
//!
//! Compatible hardware is identified by a four-way match: vendor ID,
//! product ID, manufacturer string and product string must all agree, since
//! other devices may share the numeric IDs. The caller enumerates attached
//! USB devices and reads each one's descriptor data (leaving a string out
//! when the device cannot be opened or the descriptor cannot be read); the
//! filter yields the identity triple of every match and skips the rest, so
//! one bad device never aborts a scan.

use vstd::prelude::*;

verus! {

/// Vendor ID of compatible hardware.
pub const VENDOR_ID: u16 = 0x2E8A;

/// Product ID of compatible hardware.
pub const PRODUCT_ID: u16 = 0x000A;

/// Descriptor data read from one attached USB device. A `None` string
/// means the device could not be opened or the descriptor not read; such a
/// device is skipped, never an error.
pub struct DeviceProbe {
    pub vendor_id: u16,
    pub product_id: u16,
    pub manufacturer: Option<String>,
    pub product: Option<String>,
    pub serial_number: Option<String>,
}

/// The characters of an optional string, empty when absent.
pub open spec fn opt_chars(o: Option<String>) -> Seq<char> {
    match o {
        Some(s) => s@,
        None => Seq::empty(),
    }
}

/// Whether a probed device is compatible hardware: vendor ID, product ID
/// and both descriptor strings must match, and a serial number must have
/// been readable.
pub open spec fn probe_matches(d: DeviceProbe) -> bool {
    &&& d.vendor_id == VENDOR_ID
    &&& d.product_id == PRODUCT_ID
    &&& d.manufacturer matches Some(m) && m@ == "Raspberry Pi"@
    &&& d.product matches Some(p) && p@ == "Pico"@
    &&& d.serial_number is Some
}

/// The identity triples (manufacturer, product, serial number) of the
/// matching probes, in scan order.
pub open spec fn spec_found(probes: Seq<DeviceProbe>) -> Seq<(Seq<char>, Seq<char>, Seq<char>)>
    decreases probes.len(),
{
    if probes.len() == 0 {
        Seq::empty()
    } else {
        let rest = spec_found(probes.drop_last());
        let d = probes.last();
        if probe_matches(d) {
            rest.push((opt_chars(d.manufacturer), opt_chars(d.product), opt_chars(d.serial_number)))
        } else {
            rest
        }
    }
}

/// Whether one probed device is compatible hardware.
pub fn probe_is_match(d: &DeviceProbe) -> (r: bool)
    ensures
        r == probe_matches(*d),
{
    if d.vendor_id != VENDOR_ID || d.product_id != PRODUCT_ID {
        return false;
    }
    let manufacturer_ok = match &d.manufacturer {
        Some(m) => *m == "Raspberry Pi".to_owned(),
        None => false,
    };
    if !manufacturer_ok {
        return false;
    }
    let product_ok = match &d.product {
        Some(p) => *p == "Pico".to_owned(),
        None => false,
    };
    if !product_ok {
        return false;
    }
    match &d.serial_number {
        Some(_) => true,
        None => false,
    }
}

/// Filters probed devices down to the identity triples of the compatible
/// ones, in scan order, skipping every device that does not match or whose
/// descriptor data is missing.
pub fn find_devices(probes: &Vec<DeviceProbe>) -> (r: Vec<(String, String, String)>)
    ensures
        r@.len() == spec_found(probes@).len(),
        forall|i: int|
            0 <= i < r@.len() ==> (#[trigger] r@[i]).0@ == spec_found(probes@)[i].0 && r@[i].1@
                == spec_found(probes@)[i].1 && r@[i].2@ == spec_found(probes@)[i].2,
{
    let n = probes.len();
    let mut r: Vec<(String, String, String)> = Vec::new();
    let mut i: usize = 0;
    while i < n
        invariant
            n == probes@.len(),
            i <= n,
            r@.len() == spec_found(probes@.take(i as int)).len(),
            forall|j: int|
                0 <= j < r@.len() ==> (#[trigger] r@[j]).0@ == spec_found(probes@.take(i as int))[j].0
                    && r@[j].1@ == spec_found(probes@.take(i as int))[j].1 && r@[j].2@ == spec_found(
                    probes@.take(i as int),
                )[j].2,
        decreases n - i,
    {
        let ghost prefix = probes@.take(i as int);
        let d = &probes[i];
        if probe_is_match(d) {
            let m = match &d.manufacturer {
                Some(s) => s.clone(),
                None => String::new(),
            };
            let p = match &d.product {
                Some(s) => s.clone(),
                None => String::new(),
            };
            let sn = match &d.serial_number {
                Some(s) => s.clone(),
                None => String::new(),
            };
            r.push((m, p, sn));
        }
        proof {
            assert(probes@.take(i + 1).drop_last() =~= prefix);
            assert(probes@.take(i + 1).last() == probes@[i as int]);
        }
        i = i + 1;
    }
    proof {
        assert(probes@.take(n as int) =~= probes@);
    }
    r
}

} // verus!
