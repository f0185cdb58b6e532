//! CMSIS-DAP command codes, register addresses and the SWD request byte.
use vstd::prelude::*;

verus! {

// ------------------------------------------------------------
// DAP command codes
// ------------------------------------------------------------
pub const DAP_INFO: u8 = 0x00;
pub const DAP_LED: u8 = 0x01;
pub const DAP_CONNECT: u8 = 0x02;
pub const DAP_DISCONNECT: u8 = 0x03;
pub const DAP_TRANSFER_CONFIGURE: u8 = 0x04;
pub const DAP_TRANSFER: u8 = 0x05;
pub const DAP_SWJ_PINS: u8 = 0x10;
pub const DAP_SWJ_CLOCK: u8 = 0x11;
pub const DAP_SWJ_SEQUENCE: u8 = 0x12;
pub const DAP_SWD_CONFIGURE: u8 = 0x13;

// ------------------------------------------------------------
// DAP_Info request ids
// ------------------------------------------------------------
pub const INFO_ID_VENDOR: u8 = 0x01;
pub const INFO_ID_PRODUCT: u8 = 0x02;
pub const INFO_ID_SER_NUM: u8 = 0x03;
pub const INFO_ID_FW_VER: u8 = 0x04;
pub const INFO_ID_DEVICE_VENDOR: u8 = 0x05;
pub const INFO_ID_DEVICE_NAME: u8 = 0x06;
pub const INFO_ID_CAPABILITIES: u8 = 0xF0;
pub const INFO_ID_PACKET_COUNT: u8 = 0xFE;
pub const INFO_ID_PACKET_SIZE: u8 = 0xFF;

/// DAP_Connect port modes.
pub const CONNECT_MODE_SWD: u8 = 0x00;
pub const CONNECT_MODE_JTAG: u8 = 0x01;

/// DAP_Transfer status codes.
pub const TRANSFER_OK: u8 = 0x01;
pub const TRANSFER_WAIT: u8 = 0x02;
pub const TRANSFER_FAULT: u8 = 0x04;
pub const TRANSFER_PROTOCOL_ERR: u8 = 0x08;

// ------------------------------------------------------------
// DP register addresses (bits [3:2] = A3, A2)
// ------------------------------------------------------------
pub const DP_REG_DPIDR: u8 = 0x00;
pub const DP_REG_CTRL_STAT: u8 = 0x04;
pub const DP_REG_SELECT: u8 = 0x08;
pub const DP_REG_RDBUFF: u8 = 0x0C;

// ------------------------------------------------------------
// AP register addresses
// ------------------------------------------------------------
pub const AP_REG_CSW: u8 = 0x00;
pub const AP_REG_TAR: u8 = 0x04;
pub const AP_REG_DRW: u8 = 0x0C;
/// Same address as DRW: reads the IDR while CSW is zero.
pub const AP_REG_IDR: u8 = 0x0C;

// ------------------------------------------------------------
// DP CTRL/STAT bits
// ------------------------------------------------------------
pub const CSYSPWRUPREQ: u32 = 0x4000_0000;
pub const CDBGPWRUPREQ: u32 = 0x1000_0000;
pub const CSYSPWRUPACK: u32 = 0x8000_0000;
pub const CDBGPWRUPACK: u32 = 0x2000_0000;
pub const CDBGRSTREQ: u32 = 0x0400_0000;
pub const CDBGRSTACK: u32 = 0x0800_0000;

// ------------------------------------------------------------
// SWD request byte (CMSIS-DAP encoding)
//
// bit 0: APnDP (0 = DP, 1 = AP)
// bit 1: RnW   (0 = write, 1 = read)
// bit 2: A2
// bit 3: A3
// ------------------------------------------------------------

/// The request byte whose four low bits are the given flags.
pub open spec fn request_bits(rnw: bool, apndp: bool, a2: bool, a3: bool) -> u8 {
    ((if apndp { 1int } else { 0int }) + (if rnw { 2int } else { 0int }) + (if a2 {
        4int
    } else {
        0int
    }) + (if a3 { 8int } else { 0int })) as u8
}

/// Bit 2 of a register address.
pub open spec fn addr_a2(addr: u8) -> bool {
    (addr / 4) % 2 == 1
}

/// Bit 3 of a register address.
pub open spec fn addr_a3(addr: u8) -> bool {
    (addr / 8) % 2 == 1
}

/// Builds the SWD request byte from its four flags.
pub fn make_request(rnw: bool, apndp: bool, a2: bool, a3: bool) -> (val: u8)
    ensures
        val == request_bits(rnw, apndp, a2, a3),
        val < 16,
{
    let mut val: u8 = 0;
    if apndp {
        val = val + 1;
    }
    if rnw {
        val = val + 2;
    }
    if a2 {
        val = val + 4;
    }
    if a3 {
        val = val + 8;
    }
    val
}

fn reg_a2(addr: u8) -> (b: bool)
    ensures
        b == addr_a2(addr),
{
    assert(((addr >> 2u8) & 1u8 != 0) == ((addr / 4) % 2 == 1)) by (bit_vector);
    (addr >> 2u8) & 0x01 != 0
}

fn reg_a3(addr: u8) -> (b: bool)
    ensures
        b == addr_a3(addr),
{
    assert(((addr >> 3u8) & 1u8 != 0) == ((addr / 8) % 2 == 1)) by (bit_vector);
    (addr >> 3u8) & 0x01 != 0
}

/// Request byte that reads the DP register at `addr`.
pub fn req_read_dp(addr: u8) -> (val: u8)
    ensures
        val == request_bits(true, false, addr_a2(addr), addr_a3(addr)),
{
    make_request(true, false, reg_a2(addr), reg_a3(addr))
}

/// Request byte that writes the DP register at `addr`.
pub fn req_write_dp(addr: u8) -> (val: u8)
    ensures
        val == request_bits(false, false, addr_a2(addr), addr_a3(addr)),
{
    make_request(false, false, reg_a2(addr), reg_a3(addr))
}

/// Request byte that reads the AP register at `addr`.
pub fn req_read_ap(addr: u8) -> (val: u8)
    ensures
        val == request_bits(true, true, addr_a2(addr), addr_a3(addr)),
{
    make_request(true, true, reg_a2(addr), reg_a3(addr))
}

/// Request byte that writes the AP register at `addr`.
pub fn req_write_ap(addr: u8) -> (val: u8)
    ensures
        val == request_bits(false, true, addr_a2(addr), addr_a3(addr)),
{
    make_request(false, true, reg_a2(addr), reg_a3(addr))
}

// ------------------------------------------------------------
// Transfer request / response
// ------------------------------------------------------------

/// One request of a DAP_Transfer command.
#[derive(Debug, Clone, Copy)]
pub struct TransferRequest {
    pub rnw: bool,
    pub apndp: bool,
    pub reg_addr: u8,
    pub write_data: Option<u32>,
}

impl TransferRequest {
    /// The request byte that encodes this request.
    pub open spec fn spec_request_byte(self) -> u8 {
        request_bits(self.rnw, self.apndp, addr_a2(self.reg_addr), addr_a3(self.reg_addr))
    }

    pub fn read_dp(reg_addr: u8) -> (r: Self)
        ensures
            r == (TransferRequest { rnw: true, apndp: false, reg_addr, write_data: None }),
    {
        Self { rnw: true, apndp: false, reg_addr, write_data: None }
    }

    pub fn write_dp(reg_addr: u8, data: u32) -> (r: Self)
        ensures
            r == (TransferRequest { rnw: false, apndp: false, reg_addr, write_data: Some(data) }),
    {
        Self { rnw: false, apndp: false, reg_addr, write_data: Some(data) }
    }

    pub fn read_ap(reg_addr: u8) -> (r: Self)
        ensures
            r == (TransferRequest { rnw: true, apndp: true, reg_addr, write_data: None }),
    {
        Self { rnw: true, apndp: true, reg_addr, write_data: None }
    }

    pub fn write_ap(reg_addr: u8, data: u32) -> (r: Self)
        ensures
            r == (TransferRequest { rnw: false, apndp: true, reg_addr, write_data: Some(data) }),
    {
        Self { rnw: false, apndp: true, reg_addr, write_data: Some(data) }
    }

    /// Encodes the request as a DAP_Transfer request byte.
    pub fn request_byte(&self) -> (b: u8)
        ensures
            b == self.spec_request_byte(),
    {
        make_request(self.rnw, self.apndp, reg_a2(self.reg_addr), reg_a3(self.reg_addr))
    }
}

/// Response to a DAP_Transfer command.
#[derive(Debug)]
pub struct TransferResponse {
    pub status: u8,
    pub count: u8,
    pub data: Vec<u32>,
}

/// Information that a probe reports through DAP_Info.
#[derive(Debug)]
pub struct DapInfo {
    pub vendor: String,
    pub product: String,
    pub serial: String,
    pub fw_version: String,
    pub packet_size: u16,
    pub packet_count: u8,
}

} // verus!
