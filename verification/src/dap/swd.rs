//! SWD bring-up and memory reads through a CMSIS-DAP probe.
//!
//! The bring-up is a sequence of command/reply exchanges. `SwdInit` decides
//! it: from the reply to one exchange it gives the next command to send, or
//! the end of the bring-up with what it found, or the error it stops on.
use vstd::prelude::*;
use vstd::string::*;
use crate::dap::commands::{
    DapInfo, TransferRequest, TransferResponse, AP_REG_DRW, AP_REG_IDR, AP_REG_TAR, CDBGPWRUPACK,
    CDBGPWRUPREQ, CONNECT_MODE_SWD, CSYSPWRUPACK, CSYSPWRUPREQ, DAP_CONNECT, DAP_DISCONNECT,
    DAP_INFO, DAP_LED, DAP_SWD_CONFIGURE, DAP_SWJ_CLOCK, DAP_TRANSFER_CONFIGURE, DP_REG_CTRL_STAT,
    DP_REG_DPIDR, DP_REG_RDBUFF, DP_REG_SELECT, INFO_ID_FW_VER, INFO_ID_PACKET_COUNT,
    INFO_ID_PACKET_SIZE, INFO_ID_PRODUCT, INFO_ID_SER_NUM, INFO_ID_VENDOR, TRANSFER_OK,
};
use crate::dap::protocol::{
    config_failed, le_u16, le_u32, response_words, too_short, transfer_command, transfer_too_short,
    trim_end_nul, u16_from_le, utf8_lossy, DapProtocol,
};
use crate::error::Error;
use crate::text::{decimal_digits, hex_digits, push_decimal, push_hex};

verus! {

/// What the bring-up found on the target.
#[derive(Debug)]
pub struct DeviceInfo {
    pub dpidr: u32,
    pub ap_idr: u32,
    pub target_info: String,
}

/// An error, by what it is reported as.
pub enum Fault {
    /// `Error::InvalidResponse` with this message.
    Invalid(Seq<char>),
    /// `Error::TransferFailed` with this status and count.
    Transfer(u8, u8),
    /// `Error::Swd` with this message.
    Swd(Seq<char>),
}

/// Whether `e` is the error `f` describes.
pub open spec fn reported_as(e: Error, f: Fault) -> bool {
    match f {
        Fault::Invalid(m) => e matches Error::InvalidResponse(x) && x@ == m,
        Fault::Transfer(s, c) => e matches Error::TransferFailed(a, b) && a == s && b == c,
        Fault::Swd(m) => e matches Error::Swd(x) && x@ == m,
    }
}

/// The clock the bring-up sets, in Hz.
pub const SWD_CLOCK_HZ: u32 = 10_000_000;

/// How long the probe is left after the disconnect that opens the
/// bring-up, in milliseconds.
pub const DISCONNECT_PAUSE_MS: u32 = 100;

/// The DAP_Info queries of the bring-up, in order.
pub const INFO_QUERY_COUNT: u8 = 6;

/// The information ID of DAP_Info query `i` of the bring-up: vendor,
/// product, serial number, firmware version, packet size, packet count.
pub open spec fn info_id(i: u8) -> u8 {
    if i == 0 {
        INFO_ID_VENDOR
    } else if i == 1 {
        INFO_ID_PRODUCT
    } else if i == 2 {
        INFO_ID_SER_NUM
    } else if i == 3 {
        INFO_ID_FW_VER
    } else if i == 4 {
        INFO_ID_PACKET_SIZE
    } else {
        INFO_ID_PACKET_COUNT
    }
}

fn info_query_id(i: u8) -> (id: u8)
    ensures
        id == info_id(i),
{
    if i == 0 {
        INFO_ID_VENDOR
    } else if i == 1 {
        INFO_ID_PRODUCT
    } else if i == 2 {
        INFO_ID_SER_NUM
    } else if i == 3 {
        INFO_ID_FW_VER
    } else if i == 4 {
        INFO_ID_PACKET_SIZE
    } else {
        INFO_ID_PACKET_COUNT
    }
}

/// The exchanges of the bring-up, in the order they are made.
#[derive(Clone, Copy, PartialEq, Eq, Structural, Debug)]
pub enum InitPhase {
    /// DAP_Disconnect, to clear what a previous session left.
    Disconnect,
    /// DAP_Info query `i`.
    Info(u8),
    /// DAP_Connect in SWD mode.
    Connect,
    /// DAP_SWJ_Clock at 10 MHz.
    Clock,
    /// DAP_TransferConfigure: no idle cycles, 100 WAIT retries, no match retries.
    TransferConfigure,
    /// DAP_SWD_Configure: one turnaround cycle, no data phase.
    SwdConfigure,
    /// DAP_HostStatus: the connect LED on.
    HostStatus,
    /// Read DPIDR.
    ReadDpidr,
    /// Read DPIDR again, to see that the link holds.
    ReadDpidrAgain,
    /// Read RDBUFF to empty the read pipeline.
    FlushBeforePower,
    /// Write CTRL/STAT to request system and debug power.
    PowerRequest,
    /// Read CTRL/STAT.
    ReadCtrlStat,
    /// Read RDBUFF again.
    FlushAfterPower,
    /// Write SELECT = 0.
    WriteSelect,
    /// Select AP 0.
    SelectAp,
    /// Read the IDR of AP 0.
    ReadApIdr,
    /// Read the word at address 0, as a check whose result is not used.
    VerifyRead,
    /// The bring-up has ended.
    Finished,
}

/// A phase the bring-up can be in: there are six DAP_Info queries.
pub open spec fn phase_valid(p: InitPhase) -> bool {
    p matches InitPhase::Info(i) ==> i < INFO_QUERY_COUNT
}

/// The position of a phase in the bring-up.
pub open spec fn phase_index(p: InitPhase) -> int {
    match p {
        InitPhase::Disconnect => 0,
        InitPhase::Info(i) => 1 + i,
        InitPhase::Connect => 300,
        InitPhase::Clock => 301,
        InitPhase::TransferConfigure => 302,
        InitPhase::SwdConfigure => 303,
        InitPhase::HostStatus => 304,
        InitPhase::ReadDpidr => 305,
        InitPhase::ReadDpidrAgain => 306,
        InitPhase::FlushBeforePower => 307,
        InitPhase::PowerRequest => 308,
        InitPhase::ReadCtrlStat => 309,
        InitPhase::FlushAfterPower => 310,
        InitPhase::WriteSelect => 311,
        InitPhase::SelectAp => 312,
        InitPhase::ReadApIdr => 313,
        InitPhase::VerifyRead => 314,
        InitPhase::Finished => 315,
    }
}

/// The two requests that read the word at `address`: write TAR, read DRW.
pub open spec fn memory_read_requests(address: u32) -> Seq<TransferRequest> {
    seq![
        TransferRequest { rnw: false, apndp: true, reg_addr: AP_REG_TAR, write_data: Some(address) },
        TransferRequest { rnw: true, apndp: true, reg_addr: AP_REG_DRW, write_data: None },
    ]
}

/// A request that reads DP register `reg`.
pub open spec fn dp_read(reg: u8) -> TransferRequest {
    TransferRequest { rnw: true, apndp: false, reg_addr: reg, write_data: None }
}

/// A request that writes `v` to DP register `reg`.
pub open spec fn dp_write(reg: u8, v: u32) -> TransferRequest {
    TransferRequest { rnw: false, apndp: false, reg_addr: reg, write_data: Some(v) }
}

/// The DAP_Transfer requests of a phase; none for the other phases.
pub open spec fn phase_requests(p: InitPhase) -> Seq<TransferRequest> {
    match p {
        InitPhase::ReadDpidr => seq![dp_read(DP_REG_DPIDR)],
        InitPhase::ReadDpidrAgain => seq![dp_read(DP_REG_DPIDR)],
        InitPhase::FlushBeforePower => seq![dp_read(DP_REG_RDBUFF)],
        InitPhase::PowerRequest => seq![dp_write(DP_REG_CTRL_STAT, CSYSPWRUPREQ | CDBGPWRUPREQ)],
        InitPhase::ReadCtrlStat => seq![dp_read(DP_REG_CTRL_STAT)],
        InitPhase::FlushAfterPower => seq![dp_read(DP_REG_RDBUFF)],
        InitPhase::WriteSelect => seq![dp_write(DP_REG_SELECT, 0)],
        InitPhase::SelectAp => seq![dp_write(DP_REG_SELECT, 0)],
        InitPhase::ReadApIdr => seq![
            TransferRequest { rnw: true, apndp: true, reg_addr: AP_REG_IDR, write_data: None },
        ],
        InitPhase::VerifyRead => memory_read_requests(0),
        _ => Seq::empty(),
    }
}

/// Whether a phase is a DAP_Transfer.
pub open spec fn is_transfer_phase(p: InitPhase) -> bool {
    phase_index(p) >= 305 && phase_index(p) <= 314
}

/// The command sent in a phase, for a probe at DAP index `dap_index`.
pub open spec fn phase_command(p: InitPhase, dap_index: u8) -> Seq<u8> {
    match p {
        InitPhase::Disconnect => seq![DAP_DISCONNECT],
        InitPhase::Info(i) => seq![DAP_INFO, info_id(i)],
        InitPhase::Connect => seq![DAP_CONNECT, CONNECT_MODE_SWD],
        InitPhase::Clock => seq![DAP_SWJ_CLOCK] + le_u32(SWD_CLOCK_HZ),
        InitPhase::TransferConfigure => seq![DAP_TRANSFER_CONFIGURE, 0u8] + le_u16(100) + le_u16(
            0,
        ),
        InitPhase::SwdConfigure => seq![DAP_SWD_CONFIGURE, 0u8],
        InitPhase::HostStatus => seq![DAP_LED, 0u8, 1u8],
        InitPhase::Finished => Seq::empty(),
        _ => transfer_command(dap_index, phase_requests(p)),
    }
}

/// Whether a failure of the exchange itself is let pass in a phase: the
/// reply to the opening disconnect and to the check read are not needed.
pub open spec fn phase_tolerant(p: InitPhase) -> bool {
    p is Disconnect || p is VerifyRead
}

/// The pause after a phase's exchange, in milliseconds.
pub open spec fn phase_pause_ms(p: InitPhase) -> u32 {
    if p is Disconnect {
        DISCONNECT_PAUSE_MS
    } else {
        0
    }
}

/// The first word a DAP_Transfer reply carries, 0 when it carries none.
pub open spec fn first_word(reply: Seq<u8>) -> u32 {
    if response_words(reply).len() > 0 {
        response_words(reply)[0]
    } else {
        0
    }
}

/// The text of the found target.
pub open spec fn target_text(dpidr: u32) -> Seq<char> {
    "Cortex-M DPIDR=0x"@ + hex_digits(dpidr as nat, 8)
}

/// The message of a refused power-up request.
pub open spec fn power_request_failed(status: u8, count: u8) -> Seq<char> {
    "电源上电请求失败: status="@ + decimal_digits(status as nat) + ", count="@ + decimal_digits(
        count as nat,
    )
}

/// The message of debug power that did not come up.
pub open spec fn power_not_ready(ctrl_stat: u32) -> Seq<char> {
    "调试电源未就绪: CTRL/STAT=0x"@ + hex_digits(ctrl_stat as nat, 8)
}

/// The power-up acknowledge bits.
pub open spec fn power_acks() -> u32 {
    CSYSPWRUPACK | CDBGPWRUPACK
}

/// What a reply leads to.
pub enum Outcome {
    /// The next phase, and the DPIDR, CTRL/STAT and AP IDR known after it.
    Next(InitPhase, u32, u32, u32),
    /// The bring-up is done: the DPIDR and the AP IDR.
    Finish(u32, u32),
    /// The bring-up stops on this error.
    Stop(Fault),
}

/// What the reply `reply` to phase `p` leads to, where `dpidr`, `ctrl` and
/// `ap` are what earlier phases found.
pub open spec fn init_outcome(p: InitPhase, dpidr: u32, ctrl: u32, ap: u32, reply: Seq<u8>) -> Outcome {
    let short = reply.len() < 2;
    let tshort = reply.len() < 3;
    let tfail = Fault::Invalid(transfer_too_short(reply.len()));
    match p {
        InitPhase::Disconnect => Outcome::Next(InitPhase::Info(0), dpidr, ctrl, ap),
        InitPhase::Info(i) => if short {
            Outcome::Stop(Fault::Invalid(too_short("DAP_Info"@)))
        } else if i + 1 < INFO_QUERY_COUNT {
            Outcome::Next(InitPhase::Info((i + 1) as u8), dpidr, ctrl, ap)
        } else {
            Outcome::Next(InitPhase::Connect, dpidr, ctrl, ap)
        },
        InitPhase::Connect => if short {
            Outcome::Stop(Fault::Invalid(too_short("DAP_Connect"@)))
        } else {
            Outcome::Next(InitPhase::Clock, dpidr, ctrl, ap)
        },
        InitPhase::Clock => if short {
            Outcome::Stop(Fault::Invalid(too_short("DAP_SWJ_Clock"@)))
        } else {
            Outcome::Next(InitPhase::TransferConfigure, dpidr, ctrl, ap)
        },
        InitPhase::TransferConfigure => if short {
            Outcome::Stop(Fault::Invalid(too_short("DAP_TransferConfigure"@)))
        } else if reply[1] != 0 {
            Outcome::Stop(Fault::Invalid(config_failed("DAP_TransferConfigure"@, reply[1])))
        } else {
            Outcome::Next(InitPhase::SwdConfigure, dpidr, ctrl, ap)
        },
        InitPhase::SwdConfigure => if short {
            Outcome::Stop(Fault::Invalid(too_short("DAP_SWD_Configure"@)))
        } else if reply[1] != 0 {
            Outcome::Stop(Fault::Invalid(config_failed("DAP_SWD_Configure"@, reply[1])))
        } else {
            Outcome::Next(InitPhase::HostStatus, dpidr, ctrl, ap)
        },
        InitPhase::HostStatus => if short {
            Outcome::Stop(Fault::Invalid(too_short("DAP_HostStatus"@)))
        } else {
            Outcome::Next(InitPhase::ReadDpidr, dpidr, ctrl, ap)
        },
        InitPhase::ReadDpidr => if tshort {
            Outcome::Stop(tfail)
        } else if reply[2] != TRANSFER_OK {
            Outcome::Stop(Fault::Transfer(reply[2], reply[1]))
        } else {
            Outcome::Next(InitPhase::ReadDpidrAgain, first_word(reply), ctrl, ap)
        },
        InitPhase::ReadDpidrAgain => if tshort {
            Outcome::Stop(tfail)
        } else if reply[2] != TRANSFER_OK {
            Outcome::Stop(Fault::Transfer(reply[2], reply[1]))
        } else {
            Outcome::Next(InitPhase::FlushBeforePower, dpidr, ctrl, ap)
        },
        InitPhase::FlushBeforePower => if tshort {
            Outcome::Stop(tfail)
        } else {
            Outcome::Next(InitPhase::PowerRequest, dpidr, ctrl, ap)
        },
        InitPhase::PowerRequest => if tshort {
            Outcome::Stop(tfail)
        } else if reply[2] != TRANSFER_OK {
            Outcome::Stop(Fault::Swd(power_request_failed(reply[2], reply[1])))
        } else {
            Outcome::Next(InitPhase::ReadCtrlStat, dpidr, ctrl, ap)
        },
        InitPhase::ReadCtrlStat => if tshort {
            Outcome::Stop(tfail)
        } else {
            Outcome::Next(InitPhase::FlushAfterPower, dpidr, first_word(reply), ap)
        },
        InitPhase::FlushAfterPower => if tshort {
            Outcome::Stop(tfail)
        } else if ctrl & power_acks() != power_acks() {
            Outcome::Stop(Fault::Swd(power_not_ready(ctrl)))
        } else {
            Outcome::Next(InitPhase::WriteSelect, dpidr, ctrl, ap)
        },
        InitPhase::WriteSelect => if tshort {
            Outcome::Stop(tfail)
        } else if reply[2] != TRANSFER_OK {
            Outcome::Stop(Fault::Swd("写 SELECT 失败"@))
        } else {
            Outcome::Next(InitPhase::SelectAp, dpidr, ctrl, ap)
        },
        InitPhase::SelectAp => if tshort {
            Outcome::Stop(tfail)
        } else if reply[2] != TRANSFER_OK {
            Outcome::Stop(Fault::Swd("选择 AP0 失败"@))
        } else {
            Outcome::Next(InitPhase::ReadApIdr, dpidr, ctrl, ap)
        },
        InitPhase::ReadApIdr => if tshort {
            Outcome::Stop(tfail)
        } else if reply[2] != TRANSFER_OK || response_words(reply).len() == 0 {
            Outcome::Stop(Fault::Swd("AP 扫描失败"@))
        } else {
            Outcome::Next(InitPhase::VerifyRead, dpidr, ctrl, response_words(reply)[0])
        },
        InitPhase::VerifyRead => Outcome::Finish(dpidr, ap),
        InitPhase::Finished => Outcome::Finish(dpidr, ap),
    }
}

/// What the bring-up asks of the caller next.
pub enum SwdAction {
    /// Send `command` and hand the reply to `SwdInit::step`, then wait
    /// `pause_ms`. When `tolerant`, a failed read is not an error: the step
    /// gets an empty reply.
    Exchange { command: Vec<u8>, tolerant: bool, pause_ms: u32 },
    /// The bring-up succeeded.
    Done(DeviceInfo),
    /// The bring-up failed.
    Fail(Error),
}

/// The text of a DAP_Info string reply's content.
pub open spec fn info_text(content: Seq<u8>) -> Seq<char> {
    trim_end_nul(utf8_lossy(content))
}

/// What the DAP_Info reply content `content` to query `i` leaves of the
/// probe information `old`: the string or number it asks for is replaced,
/// the rest kept.
pub open spec fn info_after(old: DapInfo, new: DapInfo, i: u8, content: Seq<u8>) -> bool {
    &&& new.vendor@ == if i == 0 {
        info_text(content)
    } else {
        old.vendor@
    }
    &&& new.product@ == if i == 1 {
        info_text(content)
    } else {
        old.product@
    }
    &&& new.serial@ == if i == 2 {
        info_text(content)
    } else {
        old.serial@
    }
    &&& new.fw_version@ == if i == 3 {
        info_text(content)
    } else {
        old.fw_version@
    }
    &&& new.packet_size == if i == 4 {
        if content.len() >= 2 {
            u16_from_le(content[0], content[1])
        } else {
            0
        }
    } else {
        old.packet_size
    }
    &&& new.packet_count == if i == 5 {
        if content.len() >= 1 {
            content[0]
        } else {
            0
        }
    } else {
        old.packet_count
    }
}

/// The reply to a DAP_Info query of the bring-up fills the field named by
/// the ID that the query sent asks for (vendor 0x01, product 0x02, serial
/// number 0x03, firmware version 0x04, packet size 0xFF, packet count
/// 0xFE), and leaves every other field as it was; the six queries ask for
/// six different IDs.
pub proof fn lemma_info_reply_fills_asked_field(
    old: DapInfo,
    new: DapInfo,
    i: u8,
    content: Seq<u8>,
    dap_index: u8,
)
    requires
        i < INFO_QUERY_COUNT,
        info_after(old, new, i, content),
    ensures
        ({
            let cmd = phase_command(InitPhase::Info(i), dap_index);
            let asked = cmd[1];
            &&& cmd.len() == 2
            &&& cmd[0] == DAP_INFO
            &&& new.vendor@ == if asked == INFO_ID_VENDOR {
                info_text(content)
            } else {
                old.vendor@
            }
            &&& new.product@ == if asked == INFO_ID_PRODUCT {
                info_text(content)
            } else {
                old.product@
            }
            &&& new.serial@ == if asked == INFO_ID_SER_NUM {
                info_text(content)
            } else {
                old.serial@
            }
            &&& new.fw_version@ == if asked == INFO_ID_FW_VER {
                info_text(content)
            } else {
                old.fw_version@
            }
            &&& new.packet_size == if asked == INFO_ID_PACKET_SIZE {
                if content.len() >= 2 {
                    u16_from_le(content[0], content[1])
                } else {
                    0
                }
            } else {
                old.packet_size
            }
            &&& new.packet_count == if asked == INFO_ID_PACKET_COUNT {
                if content.len() >= 1 {
                    content[0]
                } else {
                    0
                }
            } else {
                old.packet_count
            }
        }),
        forall|j: u8|
            j < INFO_QUERY_COUNT && j != i ==> #[trigger] phase_command(InitPhase::Info(j), dap_index)[1]
                != phase_command(InitPhase::Info(i), dap_index)[1],
{
}

/// The state of an SWD bring-up.
pub struct SwdInit {
    pub dap: DapProtocol,
    /// What the probe reported through DAP_Info so far.
    pub info: DapInfo,
    pub phase: InitPhase,
    pub dpidr: u32,
    pub ctrl_stat: u32,
    pub ap_idr: u32,
}

/// Whether `a` asks for the exchange of phase `p`.
pub open spec fn asks_exchange(a: SwdAction, p: InitPhase, dap_index: u8) -> bool {
    a matches SwdAction::Exchange { command, tolerant, pause_ms } && command@ == phase_command(
        p,
        dap_index,
    ) && tolerant == phase_tolerant(p) && pause_ms == phase_pause_ms(p)
}

fn phase_request_list(p: InitPhase) -> (v: Vec<TransferRequest>)
    ensures
        v@ == phase_requests(p),
{
    let v = match p {
        InitPhase::ReadDpidr | InitPhase::ReadDpidrAgain => vec![TransferRequest::read_dp(DP_REG_DPIDR)],
        InitPhase::FlushBeforePower | InitPhase::FlushAfterPower => vec![
            TransferRequest::read_dp(DP_REG_RDBUFF),
        ],
        InitPhase::PowerRequest => vec![
            TransferRequest::write_dp(DP_REG_CTRL_STAT, CSYSPWRUPREQ | CDBGPWRUPREQ),
        ],
        InitPhase::ReadCtrlStat => vec![TransferRequest::read_dp(DP_REG_CTRL_STAT)],
        InitPhase::WriteSelect | InitPhase::SelectAp => vec![TransferRequest::write_dp(DP_REG_SELECT, 0)],
        InitPhase::ReadApIdr => vec![TransferRequest::read_ap(AP_REG_IDR)],
        InitPhase::VerifyRead => read_memory_requests(0),
        _ => Vec::new(),
    };
    assert(v@ =~= phase_requests(p));
    v
}

/// The command of phase `p`.
fn phase_command_bytes(dap: &DapProtocol, p: InitPhase) -> (cmd: Vec<u8>)
    ensures
        cmd@ == phase_command(p, dap.dap_index),
{
    match p {
        InitPhase::Disconnect => {
            let cmd = vec![DAP_DISCONNECT];
            assert(cmd@ =~= seq![DAP_DISCONNECT]);
            cmd
        },
        InitPhase::Info(i) => dap.build_info_request(info_query_id(i)),
        InitPhase::Connect => dap.build_connect_request(CONNECT_MODE_SWD),
        InitPhase::Clock => dap.build_clock_request(SWD_CLOCK_HZ),
        InitPhase::TransferConfigure => DapProtocol::build_transfer_configure_request(0, 100, 0),
        InitPhase::SwdConfigure => DapProtocol::build_swd_configure_request(0),
        InitPhase::HostStatus => DapProtocol::build_host_status_request(0, 1),
        InitPhase::Finished => Vec::new(),
        _ => {
            let reqs = phase_request_list(p);
            dap.build_transfer_request(reqs.as_slice())
        },
    }
}

impl SwdInit {
    /// The bring-up begins with a disconnect.
    pub fn start(dap: DapProtocol) -> (r: (SwdInit, SwdAction))
        ensures
            r.0.phase == InitPhase::Disconnect,
            r.0.dap == dap,
            r.0.dpidr == 0 && r.0.ctrl_stat == 0 && r.0.ap_idr == 0,
            phase_valid(r.0.phase),
            r.0.info.vendor@.len() == 0 && r.0.info.product@.len() == 0,
            r.0.info.serial@.len() == 0 && r.0.info.fw_version@.len() == 0,
            r.0.info.packet_size == 0 && r.0.info.packet_count == 0,
            asks_exchange(r.1, InitPhase::Disconnect, dap.dap_index),
    {
        let cmd = phase_command_bytes(&dap, InitPhase::Disconnect);
        (
            SwdInit {
                dap,
                info: DapInfo {
                    vendor: String::new(),
                    product: String::new(),
                    serial: String::new(),
                    fw_version: String::new(),
                    packet_size: 0,
                    packet_count: 0,
                },
                phase: InitPhase::Disconnect,
                dpidr: 0,
                ctrl_stat: 0,
                ap_idr: 0,
            },
            SwdAction::Exchange { command: cmd, tolerant: true, pause_ms: DISCONNECT_PAUSE_MS },
        )
    }

    fn advance(&mut self, p: InitPhase) -> (a: SwdAction)
        requires
            p != InitPhase::Finished,
        ensures
            final(self).phase == p,
            final(self).dap == old(self).dap,
            final(self).info == old(self).info,
            final(self).dpidr == old(self).dpidr,
            final(self).ctrl_stat == old(self).ctrl_stat,
            final(self).ap_idr == old(self).ap_idr,
            asks_exchange(a, p, old(self).dap.dap_index),
    {
        self.phase = p;
        let command = phase_command_bytes(&self.dap, p);
        let tolerant = match p {
            InitPhase::Disconnect | InitPhase::VerifyRead => true,
            _ => false,
        };
        let pause_ms = match p {
            InitPhase::Disconnect => DISCONNECT_PAUSE_MS,
            _ => 0,
        };
        SwdAction::Exchange { command, tolerant, pause_ms }
    }

    fn record_info(&mut self, i: u8, content: &Vec<u8>)
        ensures
            info_after(old(self).info, final(self).info, i, content@),
            final(self).phase == old(self).phase,
            final(self).dap == old(self).dap,
            final(self).dpidr == old(self).dpidr,
            final(self).ctrl_stat == old(self).ctrl_stat,
            final(self).ap_idr == old(self).ap_idr,
    {
        if i == 0 {
            self.info.vendor = DapProtocol::info_string(content.as_slice());
        } else if i == 1 {
            self.info.product = DapProtocol::info_string(content.as_slice());
        } else if i == 2 {
            self.info.serial = DapProtocol::info_string(content.as_slice());
        } else if i == 3 {
            self.info.fw_version = DapProtocol::info_string(content.as_slice());
        } else if i == 4 {
            self.info.packet_size = DapProtocol::info_u16(content.as_slice());
        } else if i == 5 {
            self.info.packet_count = DapProtocol::info_u8(content.as_slice());
        }
    }

    fn stop(&mut self, e: Error) -> (a: SwdAction)
        ensures
            final(self).phase == InitPhase::Finished,
            final(self).dap == old(self).dap,
            final(self).info == old(self).info,
            a matches SwdAction::Fail(x) && x == e,
    {
        self.phase = InitPhase::Finished;
        SwdAction::Fail(e)
    }

    fn swd_error(&mut self, m: &str) -> (a: SwdAction)
        ensures
            final(self).phase == InitPhase::Finished,
            final(self).dap == old(self).dap,
            final(self).info == old(self).info,
            a matches SwdAction::Fail(e) && reported_as(e, Fault::Swd(m@)),
    {
        self.stop(Error::Swd(String::from_str(m)))
    }

    /// Takes the reply to the current phase's exchange and says what comes
    /// next: the next exchange, the end of the bring-up, or its error.
    pub fn step(&mut self, reply: &[u8]) -> (a: SwdAction)
        requires
            old(self).phase != InitPhase::Finished,
            phase_valid(old(self).phase),
        ensures
            final(self).dap == old(self).dap,
            phase_valid(final(self).phase),
            old(self).phase is Info && reply@.len() >= 2 ==> info_after(
                old(self).info,
                final(self).info,
                old(self).phase->Info_0,
                reply@.subrange(2, reply@.len() as int),
            ),
            !(old(self).phase is Info && reply@.len() >= 2) ==> final(self).info == old(self).info,
            match init_outcome(
                old(self).phase,
                old(self).dpidr,
                old(self).ctrl_stat,
                old(self).ap_idr,
                reply@,
            ) {
                Outcome::Next(p, d, c, i) => final(self).phase == p && final(self).dpidr == d
                    && final(self).ctrl_stat == c && final(self).ap_idr == i && asks_exchange(
                    a,
                    p,
                    old(self).dap.dap_index,
                ),
                Outcome::Finish(d, i) => final(self).phase == InitPhase::Finished && (
                a matches SwdAction::Done(info) && info.dpidr == d && info.ap_idr == i
                    && info.target_info@ == target_text(d)),
                Outcome::Stop(f) => final(self).phase == InitPhase::Finished && (
                a matches SwdAction::Fail(e) && reported_as(e, f)),
            },
    {
        proof {
            reveal_strlit("DAP_Info");
            reveal_strlit("DAP_Connect");
            reveal_strlit("DAP_SWJ_Clock");
            reveal_strlit("DAP_TransferConfigure");
            reveal_strlit("DAP_SWD_Configure");
            reveal_strlit("DAP_HostStatus");
        }
        match self.phase {
            InitPhase::Disconnect => self.advance(InitPhase::Info(0)),
            InitPhase::Info(i) => match DapProtocol::parse_info_response(reply) {
                Err(e) => self.stop(e),
                Ok((_, content)) => {
                    self.record_info(i, &content);
                    if i + 1 < INFO_QUERY_COUNT {
                        self.advance(InitPhase::Info(i + 1))
                    } else {
                        self.advance(InitPhase::Connect)
                    }
                },
            },
            InitPhase::Connect => match DapProtocol::parse_connect_response(reply) {
                Err(e) => self.stop(e),
                Ok(_) => self.advance(InitPhase::Clock),
            },
            InitPhase::Clock => match DapProtocol::parse_clock_response(reply) {
                Err(e) => self.stop(e),
                Ok(_) => self.advance(InitPhase::TransferConfigure),
            },
            InitPhase::TransferConfigure => match DapProtocol::parse_transfer_configure_response(
                reply,
            ) {
                Err(e) => self.stop(e),
                Ok(_) => self.advance(InitPhase::SwdConfigure),
            },
            InitPhase::SwdConfigure => match DapProtocol::parse_swd_configure_response(reply) {
                Err(e) => self.stop(e),
                Ok(_) => self.advance(InitPhase::HostStatus),
            },
            InitPhase::HostStatus => match DapProtocol::parse_host_status_response(reply) {
                Err(e) => self.stop(e),
                Ok(_) => self.advance(InitPhase::ReadDpidr),
            },
            InitPhase::VerifyRead => {
                self.phase = InitPhase::Finished;
                let mut text = String::from_str("Cortex-M DPIDR=0x");
                push_hex(&mut text, self.dpidr, 8);
                proof {
                    reveal_strlit("Cortex-M DPIDR=0x");
                }
                SwdAction::Done(DeviceInfo { dpidr: self.dpidr, ap_idr: self.ap_idr, target_info: text })
            },
            InitPhase::Finished => {
                SwdAction::Done(DeviceInfo { dpidr: 0, ap_idr: 0, target_info: String::new() })
            },
            _ => self.transfer_step(reply),
        }
    }

    fn transfer_step(&mut self, reply: &[u8]) -> (a: SwdAction)
        requires
            is_transfer_phase(old(self).phase),
            !(old(self).phase is VerifyRead),
        ensures
            final(self).dap == old(self).dap,
            final(self).info == old(self).info,
            match init_outcome(
                old(self).phase,
                old(self).dpidr,
                old(self).ctrl_stat,
                old(self).ap_idr,
                reply@,
            ) {
                Outcome::Next(p, d, c, i) => final(self).phase == p && final(self).dpidr == d
                    && final(self).ctrl_stat == c && final(self).ap_idr == i && asks_exchange(
                    a,
                    p,
                    old(self).dap.dap_index,
                ),
                Outcome::Finish(d, i) => final(self).phase == InitPhase::Finished && (
                a matches SwdAction::Done(info) && info.dpidr == d && info.ap_idr == i
                    && info.target_info@ == target_text(d)),
                Outcome::Stop(f) => final(self).phase == InitPhase::Finished && (
                a matches SwdAction::Fail(e) && reported_as(e, f)),
            },
    {
        let resp = match DapProtocol::parse_transfer_response(reply) {
            Err(e) => {
                return self.stop(e);
            },
            Ok(r) => r,
        };
        let ok = resp.status == TRANSFER_OK;
        let first = if resp.data.len() > 0 {
            resp.data[0]
        } else {
            0
        };
        assert(first == first_word(reply@));
        match self.phase {
            InitPhase::ReadDpidr => {
                if !ok {
                    return self.stop(Error::TransferFailed(resp.status, resp.count));
                }
                self.dpidr = first;
                self.advance(InitPhase::ReadDpidrAgain)
            },
            InitPhase::ReadDpidrAgain => {
                if !ok {
                    return self.stop(Error::TransferFailed(resp.status, resp.count));
                }
                self.advance(InitPhase::FlushBeforePower)
            },
            InitPhase::FlushBeforePower => self.advance(InitPhase::PowerRequest),
            InitPhase::PowerRequest => {
                if !ok {
                    let mut m = String::from_str("电源上电请求失败: status=");
                    push_decimal(&mut m, resp.status as u64);
                    m.append(", count=");
                    push_decimal(&mut m, resp.count as u64);
                    proof {
                        reveal_strlit("电源上电请求失败: status=");
                        reveal_strlit(", count=");
                    }
                    assert(m@ =~= power_request_failed(resp.status, resp.count));
                    return self.stop(Error::Swd(m));
                }
                self.advance(InitPhase::ReadCtrlStat)
            },
            InitPhase::ReadCtrlStat => {
                self.ctrl_stat = first;
                self.advance(InitPhase::FlushAfterPower)
            },
            InitPhase::FlushAfterPower => {
                let acks = CSYSPWRUPACK | CDBGPWRUPACK;
                if self.ctrl_stat & acks != acks {
                    let mut m = String::from_str("调试电源未就绪: CTRL/STAT=0x");
                    push_hex(&mut m, self.ctrl_stat, 8);
                    proof {
                        reveal_strlit("调试电源未就绪: CTRL/STAT=0x");
                    }
                    return self.stop(Error::Swd(m));
                }
                self.advance(InitPhase::WriteSelect)
            },
            InitPhase::WriteSelect => {
                if !ok {
                    return self.swd_error("写 SELECT 失败");
                }
                self.advance(InitPhase::SelectAp)
            },
            InitPhase::SelectAp => {
                if !ok {
                    return self.swd_error("选择 AP0 失败");
                }
                self.advance(InitPhase::ReadApIdr)
            },
            _ => {
                if !ok || resp.data.len() == 0 {
                    return self.swd_error("AP 扫描失败");
                }
                self.ap_idr = resp.data[0];
                self.advance(InitPhase::VerifyRead)
            },
        }
    }
}

/// Each step of the bring-up moves it forward: the phase after a reply
/// comes later than the phase the reply answered, so the bring-up ends.
pub proof fn lemma_bring_up_advances(p: InitPhase, dpidr: u32, ctrl: u32, ap: u32, reply: Seq<u8>)
    requires
        p != InitPhase::Finished,
        phase_valid(p),
    ensures
        init_outcome(p, dpidr, ctrl, ap, reply) matches Outcome::Next(q, _, _, _) ==> phase_index(q)
            > phase_index(p) && q != InitPhase::Finished && phase_valid(q),
{
}

// ------------------------------------------------------------
// Memory reads
// ------------------------------------------------------------

/// The requests that read the word at `address`: write TAR, read DRW.
pub fn read_memory_requests(address: u32) -> (v: Vec<TransferRequest>)
    ensures
        v@ == memory_read_requests(address),
{
    let v = vec![TransferRequest::write_ap(AP_REG_TAR, address), TransferRequest::read_ap(AP_REG_DRW)];
    assert(v@ =~= memory_read_requests(address));
    v
}

/// The most addresses read in one batch.
pub const MAX_BATCH_READS: usize = 8;

/// The requests that read the words at the first `k` addresses.
pub open spec fn batch_read_requests(addresses: Seq<u32>, k: nat) -> Seq<TransferRequest>
    decreases k,
{
    if k == 0 {
        Seq::empty()
    } else {
        batch_read_requests(addresses, (k - 1) as nat) + memory_read_requests(addresses[k - 1])
    }
}

/// The number of addresses a batch reads: at most eight.
pub open spec fn batch_len(n: nat) -> nat {
    if n < MAX_BATCH_READS {
        n
    } else {
        MAX_BATCH_READS as nat
    }
}

/// The requests of a batch read: those of the first eight addresses at
/// most, in order.
pub fn read_memory_batch_requests(addresses: &[u32]) -> (v: Vec<TransferRequest>)
    ensures
        v@ == batch_read_requests(addresses@, batch_len(addresses@.len())),
{
    let n = if addresses.len() < MAX_BATCH_READS {
        addresses.len()
    } else {
        MAX_BATCH_READS
    };
    let mut v: Vec<TransferRequest> = Vec::with_capacity(n * 2);
    let mut i: usize = 0;
    while i < n
        invariant
            n == batch_len(addresses@.len()),
            n <= addresses@.len(),
            i <= n,
            v@ == batch_read_requests(addresses@, i as nat),
        decreases n - i,
    {
        v.push(TransferRequest::write_ap(AP_REG_TAR, addresses[i]));
        v.push(TransferRequest::read_ap(AP_REG_DRW));
        i = i + 1;
        assert(v@ =~= batch_read_requests(addresses@, i as nat));
    }
    v
}

/// The word a single-address read gives: the first value of the reply, or
/// 0 when it carries none; a status other than OK is a transfer error.
pub fn memory_value(resp: &TransferResponse) -> (r: Result<u32, Error>)
    ensures
        resp.status != TRANSFER_OK ==> (r matches Err(e) && reported_as(
            e,
            Fault::Transfer(resp.status, resp.count),
        )),
        resp.status == TRANSFER_OK ==> r == Ok::<u32, Error>(
            if resp.data@.len() > 0 {
                resp.data@[0]
            } else {
                0
            },
        ),
{
    if resp.status != TRANSFER_OK {
        return Err(Error::TransferFailed(resp.status, resp.count));
    }
    if resp.data.len() > 0 {
        Ok(resp.data[0])
    } else {
        Ok(0)
    }
}

/// The words a batch read gives: the values of the reply; a status other
/// than OK is a transfer error.
pub fn memory_values(resp: TransferResponse) -> (r: Result<Vec<u32>, Error>)
    ensures
        resp.status != TRANSFER_OK ==> (r matches Err(e) && reported_as(
            e,
            Fault::Transfer(resp.status, resp.count),
        )),
        resp.status == TRANSFER_OK ==> (r matches Ok(v) && v@ == resp.data@),
{
    if resp.status != TRANSFER_OK {
        return Err(Error::TransferFailed(resp.status, resp.count));
    }
    Ok(resp.data)
}

} // verus!
