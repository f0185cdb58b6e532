//! Recognizing CMSIS-DAP v2 probes among USB devices. The descriptors are
//! read by the application and handed over as plain values.
use vstd::prelude::*;
use crate::error::Error;
use crate::text::{contains_seq, str_contains};

verus! {

/// A USB device found on the bus.
#[derive(Debug)]
pub struct DeviceInfo {
    pub vid: u16,
    pub pid: u16,
    pub manufacturer: String,
    pub product: String,
    pub serial: String,
    pub bus_number: u8,
    pub address: u8,
}

/// Whether a vendor and product id belong to a known CMSIS-DAP v2 probe.
pub open spec fn known_device(vid: u16, pid: u16) -> bool {
    ||| vid == 0x0d28 && pid == 0x0204  // ARM mbed DAPLink
    ||| vid == 0x0d28 && pid == 0x0205  // ARM mbed DAPLink (alternative)
    ||| vid == 0x1fc9 && pid == 0x0132  // NXP LPC-Link2
    ||| vid == 0x03eb && pid == 0x2111  // Atmel EDBG
    ||| vid == 0x2e88 && pid == 0x0001  // AT-Link (AT32)
    ||| vid == 0x0483 && (pid == 0x374b || pid == 0x374c || pid == 0x374d || pid == 0x374e)  // ST-Link v3
    ||| vid == 0xc251 && (pid == 0x1001 || pid == 0x1002)  // J-Link (CMSIS-DAP mode)
}

/// Whether a vendor and product id belong to a known CMSIS-DAP v2 probe.
pub fn is_known_device(vid: u16, pid: u16) -> (b: bool)
    ensures
        b == known_device(vid, pid),
{
    (vid == 0x0d28 && pid == 0x0204) || (vid == 0x0d28 && pid == 0x0205) || (vid == 0x1fc9 && pid
        == 0x0132) || (vid == 0x03eb && pid == 0x2111) || (vid == 0x2e88 && pid == 0x0001) || (vid
        == 0x0483 && (pid == 0x374b || pid == 0x374c || pid == 0x374d || pid == 0x374e)) || (vid
        == 0xc251 && (pid == 0x1001 || pid == 0x1002))
}

/// Names the text that `str::to_uppercase` makes of a string.
pub uninterp spec fn uppercase(s: Seq<char>) -> Seq<char>;

/// `str::to_uppercase`. Its result is named by `uppercase` of the text;
/// nothing else is stated of the Unicode case mapping.
#[verifier::external_body]
fn to_uppercase(s: &str) -> (r: String)
    ensures
        r@ == uppercase(s@),
{
    s.to_uppercase()
}

/// Whether a product string names a CMSIS-DAP probe: its upper case
/// contains `CMSIS-DAP`.
pub fn is_cmsis_dap_product(product: &str) -> (b: bool)
    ensures
        b == contains_seq(uppercase(product@), "CMSIS-DAP"@),
{
    let upper = to_uppercase(product);
    str_contains(upper.as_str(), "CMSIS-DAP")
}

/// Interface classes that are never CMSIS-DAP.
pub const AUDIO_CLASS: u8 = 0x01;
pub const CDC_CLASS: u8 = 0x02;
pub const HID_CLASS: u8 = 0x03;
pub const MSC_CLASS: u8 = 0x08;
pub const HUB_CLASS: u8 = 0x09;
pub const CDC_DATA_CLASS: u8 = 0x0A;

/// An endpoint of an interface setting.
#[derive(Debug, Clone, Copy)]
pub struct EndpointDesc {
    pub address: u8,
    /// Bulk transfer type.
    pub bulk: bool,
    /// Direction IN (device to host); OUT otherwise.
    pub dir_in: bool,
}

/// One alternate setting of an interface of the active configuration.
#[derive(Debug)]
pub struct InterfaceAlt {
    pub number: u8,
    pub class_code: u8,
    pub endpoints: Vec<EndpointDesc>,
}

/// Whether an endpoint list has a bulk endpoint in the given direction.
pub open spec fn has_bulk(eps: Seq<EndpointDesc>, dir_in: bool) -> bool {
    exists|i: int| 0 <= i < eps.len() && eps[i].bulk && eps[i].dir_in == dir_in
}

/// Whether a setting may be the CMSIS-DAP v2 interface: not of a class
/// known to be something else, with a bulk IN and a bulk OUT endpoint.
pub open spec fn candidate(class_code: u8, eps: Seq<EndpointDesc>) -> bool {
    &&& class_code != CDC_CLASS && class_code != CDC_DATA_CLASS && class_code != MSC_CLASS
        && class_code != HUB_CLASS && class_code != AUDIO_CLASS && class_code != HID_CLASS
    &&& has_bulk(eps, true)
    &&& has_bulk(eps, false)
}

/// Index of the first candidate setting among `alts`, if any.
pub open spec fn first_candidate(alts: Seq<InterfaceAlt>) -> Option<int> {
    if exists|i: int| 0 <= i < alts.len() && candidate(alts[i].class_code, alts[i].endpoints@) {
        Some(
            choose|i: int|
                0 <= i < alts.len() && candidate(alts[i].class_code, alts[i].endpoints@) && forall|
                    j: int,
                |
                    0 <= j < i ==> !candidate(alts[j].class_code, alts[j].endpoints@),
        )
    } else {
        None
    }
}

/// Address of the last bulk endpoint of the direction, or 0 when none.
pub open spec fn last_bulk_address(eps: Seq<EndpointDesc>, dir_in: bool) -> u8
    decreases eps.len(),
{
    if eps.len() == 0 {
        0
    } else if eps.last().bulk && eps.last().dir_in == dir_in {
        eps.last().address
    } else {
        last_bulk_address(eps.drop_last(), dir_in)
    }
}

/// Whether a setting yields a usable endpoint pair: a candidate whose last
/// bulk OUT and last bulk IN endpoints both have nonzero addresses.
pub open spec fn endpoint_pair_ok(alt: InterfaceAlt) -> bool {
    candidate(alt.class_code, alt.endpoints@) && last_bulk_address(alt.endpoints@, false) != 0
        && last_bulk_address(alt.endpoints@, true) != 0
}

/// Whether a setting may be the CMSIS-DAP v2 interface.
pub fn is_cmsis_dap_candidate(alt: &InterfaceAlt) -> (b: bool)
    ensures
        b == candidate(alt.class_code, alt.endpoints@),
{
    let class = alt.class_code;
    if class == CDC_CLASS || class == CDC_DATA_CLASS || class == MSC_CLASS || class == HUB_CLASS
        || class == AUDIO_CLASS || class == HID_CLASS {
        return false;
    }
    let mut has_bulk_in = false;
    let mut has_bulk_out = false;
    let mut i: usize = 0;
    while i < alt.endpoints.len()
        invariant
            i <= alt.endpoints@.len(),
            has_bulk_in == exists|k: int|
                0 <= k < i && alt.endpoints@[k].bulk && alt.endpoints@[k].dir_in,
            has_bulk_out == exists|k: int|
                0 <= k < i && alt.endpoints@[k].bulk && !alt.endpoints@[k].dir_in,
        decreases alt.endpoints@.len() - i,
    {
        let ep = alt.endpoints[i];
        if ep.bulk {
            if ep.dir_in {
                has_bulk_in = true;
            } else {
                has_bulk_out = true;
            }
        }
        i = i + 1;
    }
    has_bulk_in && has_bulk_out
}

fn first_candidate_index(alts: &[InterfaceAlt]) -> (r: Option<usize>)
    ensures
        r matches Some(i) ==> first_candidate(alts@) == Some(i as int) && i < alts@.len()
            && candidate(alts@[i as int].class_code, alts@[i as int].endpoints@),
        r is None ==> first_candidate(alts@) is None,
{
    let mut i: usize = 0;
    while i < alts.len()
        invariant
            i <= alts@.len(),
            forall|j: int| 0 <= j < i ==> !candidate(alts@[j].class_code, alts@[j].endpoints@),
        decreases alts@.len() - i,
    {
        if is_cmsis_dap_candidate(&alts[i]) {
            let ghost w = choose|k: int|
                0 <= k < alts@.len() && candidate(alts@[k].class_code, alts@[k].endpoints@)
                    && forall|j: int|
                    0 <= j < k ==> !candidate(alts@[j].class_code, alts@[j].endpoints@);
            assert(w == i) by {
                if w < i {
                } else if w > i {
                }
            }
            return Some(i);
        }
        i = i + 1;
    }
    None
}

/// Whether the configuration has a CMSIS-DAP v2 interface.
pub fn has_cmsis_dap_interface(alts: &[InterfaceAlt]) -> (b: bool)
    ensures
        b == exists|i: int|
            0 <= i < alts@.len() && candidate(alts@[i].class_code, alts@[i].endpoints@),
{
    let r = first_candidate_index(alts);
    match r {
        Some(i) => {
            assert(candidate(alts@[i as int].class_code, alts@[i as int].endpoints@));
            true
        },
        None => false,
    }
}

/// Interface number of the first CMSIS-DAP v2 candidate setting.
pub fn find_cmsis_dap_interface_number(alts: &[InterfaceAlt]) -> (r: Result<u8, Error>)
    ensures
        first_candidate(alts@) matches Some(i) ==> r == Ok::<u8, Error>(alts@[i].number),
        first_candidate(alts@) is None ==> r matches Err(Error::DeviceNotFound),
{
    match first_candidate_index(alts) {
        Some(i) => Ok(alts[i].number),
        None => Err(Error::DeviceNotFound),
    }
}

fn last_bulk(eps: &Vec<EndpointDesc>, dir_in: bool) -> (a: u8)
    ensures
        a == last_bulk_address(eps@, dir_in),
{
    let mut a: u8 = 0;
    let mut i: usize = 0;
    while i < eps.len()
        invariant
            i <= eps@.len(),
            a == last_bulk_address(eps@.subrange(0, i as int), dir_in),
        decreases eps@.len() - i,
    {
        proof {
            let s = eps@.subrange(0, i + 1);
            assert(s.drop_last() =~= eps@.subrange(0, i as int));
        }
        if eps[i].bulk && eps[i].dir_in == dir_in {
            a = eps[i].address;
        }
        i = i + 1;
    }
    assert(eps@.subrange(0, eps@.len() as int) =~= eps@);
    a
}

/// Endpoint addresses (OUT, IN) of the first candidate setting that has a
/// nonzero address in both directions, taking in each setting the last
/// bulk endpoint of each direction.
pub fn find_bulk_endpoints(alts: &[InterfaceAlt]) -> (r: Result<(u8, u8), Error>)
    ensures
        (exists|i: int| 0 <= i < alts@.len() && endpoint_pair_ok(alts@[i])) ==> ({
            let i = choose|i: int|
                0 <= i < alts@.len() && endpoint_pair_ok(alts@[i]) && forall|j: int|
                    0 <= j < i ==> !endpoint_pair_ok(alts@[j]);
            r == Ok::<(u8, u8), Error>(
                (
                    last_bulk_address(alts@[i].endpoints@, false),
                    last_bulk_address(alts@[i].endpoints@, true),
                ),
            )
        }),
        !(exists|i: int| 0 <= i < alts@.len() && endpoint_pair_ok(alts@[i])) ==> r matches Err(
            Error::DeviceNotFound,
        ),
{
    let mut i: usize = 0;
    while i < alts.len()
        invariant
            i <= alts@.len(),
            forall|j: int| 0 <= j < i ==> !endpoint_pair_ok(#[trigger] alts@[j]),
        decreases alts@.len() - i,
    {
        if is_cmsis_dap_candidate(&alts[i]) {
            let ep_out = last_bulk(&alts[i].endpoints, false);
            let ep_in = last_bulk(&alts[i].endpoints, true);
            if ep_out != 0 && ep_in != 0 {
                let ghost w = choose|k: int|
                    0 <= k < alts@.len() && endpoint_pair_ok(alts@[k]) && forall|j: int|
                        0 <= j < k ==> !endpoint_pair_ok(alts@[j]);
                assert(endpoint_pair_ok(alts@[i as int]));
                assert(w == i) by {
                    if w < i {
                    } else if w > i {
                    }
                }
                return Ok((ep_out, ep_in));
            }
        }
        i = i + 1;
    }
    Err(Error::DeviceNotFound)
}

} // verus!
