//! CMSIS-DAP commands: how each request is laid out in bytes and how each
//! response is read back.
use vstd::prelude::*;
use vstd::slice::*;
use vstd::string::*;
use crate::error::Error;
use crate::text::{decimal_digits, push_decimal};
use crate::dap::commands::{
    TransferRequest, TransferResponse, DAP_CONNECT, DAP_INFO, DAP_LED, DAP_SWD_CONFIGURE,
    DAP_SWJ_CLOCK, DAP_SWJ_PINS, DAP_SWJ_SEQUENCE, DAP_TRANSFER, DAP_TRANSFER_CONFIGURE,
};

verus! {

// ------------------------------------------------------------
// Little-endian integers
// ------------------------------------------------------------

/// The four little-endian bytes of `v`.
pub open spec fn le_u32(v: u32) -> Seq<u8> {
    seq![
        (v % 256) as u8,
        ((v / 256) % 256) as u8,
        ((v / 65536) % 256) as u8,
        ((v / 16777216) % 256) as u8,
    ]
}

/// The two little-endian bytes of `v`.
pub open spec fn le_u16(v: u16) -> Seq<u8> {
    seq![(v % 256) as u8, ((v / 256) % 256) as u8]
}

/// The `u32` whose little-endian bytes are `b0, b1, b2, b3`.
pub open spec fn u32_from_le(b0: u8, b1: u8, b2: u8, b3: u8) -> u32 {
    (b0 + 256 * b1 + 65536 * b2 + 16777216 * b3) as u32
}

/// The `u16` whose little-endian bytes are `b0, b1`.
pub open spec fn u16_from_le(b0: u8, b1: u8) -> u16 {
    (b0 + 256 * b1) as u16
}

/// The `u32` that starts at byte `at` of `s`, read little-endian.
pub open spec fn word_at(s: Seq<u8>, at: int) -> u32 {
    u32_from_le(s[at], s[at + 1], s[at + 2], s[at + 3])
}

/// Appends the little-endian bytes of `v` to `cmd`.
pub fn push_le_u32(cmd: &mut Vec<u8>, v: u32)
    ensures
        final(cmd)@ == old(cmd)@ + le_u32(v),
{
    cmd.push((v % 256) as u8);
    cmd.push(((v / 256) % 256) as u8);
    cmd.push(((v / 65536) % 256) as u8);
    cmd.push(((v / 16777216) % 256) as u8);
    assert(final(cmd)@ =~= old(cmd)@ + le_u32(v));
}

/// Appends the little-endian bytes of `v` to `cmd`.
pub fn push_le_u16(cmd: &mut Vec<u8>, v: u16)
    ensures
        final(cmd)@ == old(cmd)@ + le_u16(v),
{
    cmd.push((v % 256) as u8);
    cmd.push(((v / 256) % 256) as u8);
    assert(final(cmd)@ =~= old(cmd)@ + le_u16(v));
}

/// Reads the `u32` stored little-endian at byte `at` of `data`.
pub fn read_le_u32(data: &[u8], at: usize) -> (v: u32)
    requires
        at + 4 <= data@.len(),
    ensures
        v == word_at(data@, at as int),
{
    let b0 = data[at] as u32;
    let b1 = data[at + 1] as u32;
    let b2 = data[at + 2] as u32;
    let b3 = data[at + 3] as u32;
    b0 + 256 * b1 + 65536 * b2 + 16777216 * b3
}

/// Reading back the little-endian bytes of a `u32` gives the same `u32`.
pub proof fn lemma_le_u32_roundtrip(v: u32)
    ensures
        u32_from_le(le_u32(v)[0], le_u32(v)[1], le_u32(v)[2], le_u32(v)[3]) == v,
{
    let b = le_u32(v);
    assert(b[0] + 256 * b[1] + 65536 * b[2] + 16777216 * b[3] == v) by (nonlinear_arith)
        requires
            b[0] == v % 256,
            b[1] == (v / 256) % 256,
            b[2] == (v / 65536) % 256,
            b[3] == (v / 16777216) % 256,
            v < 0x1_0000_0000,
    ;
}

/// Reading back the little-endian bytes of a `u16` gives the same `u16`.
pub proof fn lemma_le_u16_roundtrip(v: u16)
    ensures
        u16_from_le(le_u16(v)[0], le_u16(v)[1]) == v,
{
}

// ------------------------------------------------------------
// Transfer requests in bytes
// ------------------------------------------------------------

/// The bytes of one DAP_Transfer request: its request byte, followed for a
/// write by the little-endian data (zero when none is given).
pub open spec fn encode_request(r: TransferRequest) -> Seq<u8> {
    if r.rnw {
        seq![r.spec_request_byte()]
    } else {
        seq![r.spec_request_byte()] + le_u32(
            match r.write_data {
                Some(d) => d,
                None => 0u32,
            },
        )
    }
}

/// The bytes of a list of DAP_Transfer requests, one after the other.
pub open spec fn encode_requests(rs: Seq<TransferRequest>) -> Seq<u8>
    decreases rs.len(),
{
    if rs.len() == 0 {
        Seq::empty()
    } else {
        encode_requests(rs.drop_last()) + encode_request(rs.last())
    }
}

/// The DAP_Transfer command for `requests` on DAP index `dap_index`; the
/// request count is its low byte.
pub open spec fn transfer_command(dap_index: u8, requests: Seq<TransferRequest>) -> Seq<u8> {
    seq![DAP_TRANSFER, dap_index, (requests.len() % 256) as u8] + encode_requests(requests)
}

/// The values that a DAP_Transfer response carries: one little-endian
/// `u32` per complete group of four bytes after the three-byte header.
pub open spec fn response_words(data: Seq<u8>) -> Seq<u32> {
    Seq::new(((data.len() - 3) / 4) as nat, |i: int| word_at(data, 3 + 4 * i))
}

/// The bit count of a DAP_SWJ_Sequence for `n` bytes: eight per byte, at
/// most 256, in one byte, where 256 is the byte 0.
pub open spec fn sequence_bit_count(n: nat) -> u8 {
    if n * 8 < 256 {
        (n * 8) as u8
    } else {
        0
    }
}

/// The number of bits a DAP_SWJ_Sequence count byte stands for: the byte
/// itself, where 0 stands for 256.
pub open spec fn sequence_bits(count: u8) -> nat {
    if count == 0 {
        256
    } else {
        count as nat
    }
}

/// A DAP_SWJ_Sequence request carrying `data` announces as many bits as
/// its data bytes hold, eight per byte, up to the 256 bits a sequence can
/// carry at most; the data follow the two header bytes unchanged.
pub proof fn lemma_sequence_counts_bits(data: Seq<u8>)
    requires
        data.len() >= 1,
    ensures
        ({
            let cmd = seq![DAP_SWJ_SEQUENCE, sequence_bit_count(data.len())] + data;
            &&& cmd[0] == DAP_SWJ_SEQUENCE
            &&& sequence_bits(cmd[1]) == if 8 * data.len() <= 256 {
                8 * data.len()
            } else {
                256
            }
            &&& cmd.skip(2) == data
            &&& cmd.len() == data.len() + 2
        }),
{
    let cmd = seq![DAP_SWJ_SEQUENCE, sequence_bit_count(data.len())] + data;
    assert(cmd.skip(2) =~= data);
}

/// The message of a response shorter than its fixed header.
pub open spec fn too_short(cmd: Seq<char>) -> Seq<char> {
    cmd + " 响应过短"@
}

/// The message of a configuration command answered with a nonzero status.
pub open spec fn config_failed(cmd: Seq<char>, status: u8) -> Seq<char> {
    cmd + " 失败: 状态="@ + decimal_digits(status as nat)
}

/// The message of a DAP_Transfer response shorter than three bytes.
pub open spec fn transfer_too_short(len: nat) -> Seq<char> {
    "DAP_Transfer 响应过短: "@ + decimal_digits(len) + " 字节"@
}

/// The message error that a response shorter than its header gives.
pub open spec fn is_too_short_error(e: Error, cmd: Seq<char>) -> bool {
    e matches Error::InvalidResponse(m) && m@ == too_short(cmd)
}

fn too_short_error(cmd: &str) -> (e: Error)
    ensures
        is_too_short_error(e, cmd@),
{
    let mut m = String::from_str(cmd);
    m.append(" 响应过短");
    Error::InvalidResponse(m)
}

fn config_failed_error(cmd: &str, status: u8) -> (e: Error)
    ensures
        e matches Error::InvalidResponse(m) && m@ == config_failed(cmd@, status),
{
    let mut m = String::from_str(cmd);
    m.append(" 失败: 状态=");
    push_decimal(&mut m, status as u64);
    Error::InvalidResponse(m)
}

/// Names the text that `String::from_utf8_lossy` makes of a byte sequence.
pub uninterp spec fn utf8_lossy(bytes: Seq<u8>) -> Seq<char>;

/// `String::from_utf8_lossy`: decodes UTF-8, replacing invalid sequences.
/// Its result is named by `utf8_lossy` of the bytes; nothing else is
/// stated of the decoding.
#[verifier::external_body]
fn decode_utf8_lossy(bytes: &[u8]) -> (s: String)
    ensures
        s@ == utf8_lossy(bytes@),
{
    String::from_utf8_lossy(bytes).into_owned()
}

/// `s` without its trailing NUL characters.
pub open spec fn trim_end_nul(s: Seq<char>) -> Seq<char>
    decreases s.len(),
{
    if s.len() > 0 && s.last() == '\0' {
        trim_end_nul(s.drop_last())
    } else {
        s
    }
}

proof fn lemma_trim_end_nul_take(s: Seq<char>, j: int)
    requires
        0 <= j <= s.len(),
        forall|k: int| j <= k < s.len() ==> #[trigger] s[k] == '\0',
    ensures
        trim_end_nul(s) == trim_end_nul(s.take(j)),
    decreases s.len() - j,
{
    if j < s.len() {
        assert(s.drop_last().take(j) =~= s.take(j));
        lemma_trim_end_nul_take(s.drop_last(), j);
    } else {
        assert(s.take(j) =~= s);
    }
}

/// CMSIS-DAP protocol layer: builds commands and parses responses.
#[derive(Clone, Copy)]
pub struct DapProtocol {
    pub dap_index: u8,
}

impl DapProtocol {
    pub fn new() -> (p: Self)
        ensures
            p.dap_index == 0,
    {
        Self { dap_index: 0 }
    }

    // --------------------------------------------------------
    // DAP_Info
    // --------------------------------------------------------
    pub fn build_info_request(&self, info_id: u8) -> (cmd: Vec<u8>)
        ensures
            cmd@ == seq![DAP_INFO, info_id],
    {
        let cmd = vec![DAP_INFO, info_id];
        assert(cmd@ =~= seq![DAP_INFO, info_id]);
        cmd
    }

    /// Splits a DAP_Info response `[echo, status, content...]` into its
    /// status byte and its content.
    pub fn parse_info_response(data: &[u8]) -> (r: Result<(u8, Vec<u8>), Error>)
        ensures
            data@.len() < 2 ==> r is Err && is_too_short_error(r->Err_0, "DAP_Info"@),
            data@.len() >= 2 ==> r is Ok && r->Ok_0.0 == data@[1] && r->Ok_0.1@ == data@.subrange(
                2,
                data@.len() as int,
            ),
    {
        if data.len() < 2 {
            return Err(too_short_error("DAP_Info"));
        }
        let status = data[1];
        let content = slice_to_vec(slice_subrange(data, 2, data.len()));
        Ok((status, content))
    }

    /// The text of a DAP_Info string reply: the content decoded as UTF-8
    /// (invalid sequences replaced), without trailing NUL characters.
    pub fn info_string(content: &[u8]) -> (s: String)
        ensures
            s@ == trim_end_nul(utf8_lossy(content@)),
    {
        let decoded = decode_utf8_lossy(content);
        let text = decoded.as_str();
        let n = text.unicode_len();
        let mut hi: usize = n;
        while hi > 0 && text.get_char(hi - 1) == '\0'
            invariant
                n == text@.len(),
                hi <= n,
                forall|k: int| hi <= k < n ==> #[trigger] text@[k] == '\0',
            decreases hi,
        {
            hi = hi - 1;
        }
        proof {
            lemma_trim_end_nul_take(text@, hi as int);
            assert(trim_end_nul(text@.take(hi as int)) == text@.take(hi as int));
            assert(text@.take(hi as int) =~= text@.subrange(0, hi as int));
        }
        String::from_str(text.substring_char(0, hi))
    }

    /// The number in a DAP_Info reply of two bytes (little-endian); zero
    /// when the content is shorter.
    pub fn info_u16(content: &[u8]) -> (v: u16)
        ensures
            content@.len() >= 2 ==> v == u16_from_le(content@[0], content@[1]),
            content@.len() < 2 ==> v == 0,
    {
        if content.len() >= 2 {
            content[0] as u16 + 256 * (content[1] as u16)
        } else {
            0
        }
    }

    /// The number in a DAP_Info reply of one byte; zero when it is empty.
    pub fn info_u8(content: &[u8]) -> (v: u8)
        ensures
            content@.len() >= 1 ==> v == content@[0],
            content@.len() == 0 ==> v == 0,
    {
        if content.len() >= 1 {
            content[0]
        } else {
            0
        }
    }

    // --------------------------------------------------------
    // DAP_Connect
    // --------------------------------------------------------
    pub fn build_connect_request(&self, mode: u8) -> (cmd: Vec<u8>)
        ensures
            cmd@ == seq![DAP_CONNECT, mode],
    {
        let cmd = vec![DAP_CONNECT, mode];
        assert(cmd@ =~= seq![DAP_CONNECT, mode]);
        cmd
    }

    /// The port that DAP_Connect reports (0 = none, 1 = SWD, 2 = JTAG).
    pub fn parse_connect_response(data: &[u8]) -> (r: Result<u8, Error>)
        ensures
            data@.len() < 2 ==> r is Err && is_too_short_error(r->Err_0, "DAP_Connect"@),
            data@.len() >= 2 ==> r == Ok::<u8, Error>(data@[1]),
    {
        if data.len() < 2 {
            return Err(too_short_error("DAP_Connect"));
        }
        Ok(data[1])
    }

    // --------------------------------------------------------
    // DAP_SWJ_Clock
    // --------------------------------------------------------
    pub fn build_clock_request(&self, freq_hz: u32) -> (cmd: Vec<u8>)
        ensures
            cmd@ == seq![DAP_SWJ_CLOCK] + le_u32(freq_hz),
    {
        let mut cmd = vec![DAP_SWJ_CLOCK];
        assert(cmd@ =~= seq![DAP_SWJ_CLOCK]);
        push_le_u32(&mut cmd, freq_hz);
        cmd
    }

    /// The status byte of a DAP_SWJ_Clock response (0 = success).
    pub fn parse_clock_response(data: &[u8]) -> (r: Result<u8, Error>)
        ensures
            data@.len() < 2 ==> r is Err && is_too_short_error(r->Err_0, "DAP_SWJ_Clock"@),
            data@.len() >= 2 ==> r == Ok::<u8, Error>(data@[1]),
    {
        if data.len() < 2 {
            return Err(too_short_error("DAP_SWJ_Clock"));
        }
        Ok(data[1])
    }

    // --------------------------------------------------------
    // DAP_TransferConfigure
    // --------------------------------------------------------
    /// DAP_TransferConfigure with the idle cycles, the WAIT retry count and
    /// the match retry count.
    pub fn build_transfer_configure_request(idle_cycles: u8, wait_retry: u16, match_retry: u16) -> (cmd: Vec<u8>)
        ensures
            cmd@ == seq![DAP_TRANSFER_CONFIGURE, idle_cycles] + le_u16(wait_retry) + le_u16(
                match_retry,
            ),
    {
        let mut cmd = vec![DAP_TRANSFER_CONFIGURE, idle_cycles];
        assert(cmd@ =~= seq![DAP_TRANSFER_CONFIGURE, idle_cycles]);
        push_le_u16(&mut cmd, wait_retry);
        push_le_u16(&mut cmd, match_retry);
        cmd
    }

    pub fn parse_transfer_configure_response(data: &[u8]) -> (r: Result<(), Error>)
        ensures
            data@.len() < 2 ==> r is Err && is_too_short_error(
                r->Err_0,
                "DAP_TransferConfigure"@,
            ),
            data@.len() >= 2 && data@[1] != 0 ==> r is Err && (r->Err_0 matches Error::InvalidResponse(
                m,
            ) && m@ == config_failed("DAP_TransferConfigure"@, data@[1])),
            r is Ok <==> data@.len() >= 2 && data@[1] == 0,
    {
        if data.len() < 2 {
            return Err(too_short_error("DAP_TransferConfigure"));
        }
        if data[1] != 0 {
            return Err(config_failed_error("DAP_TransferConfigure", data[1]));
        }
        Ok(())
    }

    // --------------------------------------------------------
    // DAP_SWD_Configure
    // --------------------------------------------------------
    /// DAP_SWD_Configure: bits [1:0] turnaround cycles, bit 2 data phase.
    pub fn build_swd_configure_request(cfg: u8) -> (cmd: Vec<u8>)
        ensures
            cmd@ == seq![DAP_SWD_CONFIGURE, cfg],
    {
        let cmd = vec![DAP_SWD_CONFIGURE, cfg];
        assert(cmd@ =~= seq![DAP_SWD_CONFIGURE, cfg]);
        cmd
    }

    pub fn parse_swd_configure_response(data: &[u8]) -> (r: Result<(), Error>)
        ensures
            data@.len() < 2 ==> r is Err && is_too_short_error(r->Err_0, "DAP_SWD_Configure"@),
            data@.len() >= 2 && data@[1] != 0 ==> r is Err && (r->Err_0 matches Error::InvalidResponse(
                m,
            ) && m@ == config_failed("DAP_SWD_Configure"@, data@[1])),
            r is Ok <==> data@.len() >= 2 && data@[1] == 0,
    {
        if data.len() < 2 {
            return Err(too_short_error("DAP_SWD_Configure"));
        }
        if data[1] != 0 {
            return Err(config_failed_error("DAP_SWD_Configure", data[1]));
        }
        Ok(())
    }

    // --------------------------------------------------------
    // DAP_HostStatus
    // --------------------------------------------------------
    /// DAP_HostStatus: `status_type` 0 = connect, 1 = running; `status`
    /// 0 = off, 1 = on.
    pub fn build_host_status_request(status_type: u8, status: u8) -> (cmd: Vec<u8>)
        ensures
            cmd@ == seq![DAP_LED, status_type, status],
    {
        let cmd = vec![DAP_LED, status_type, status];
        assert(cmd@ =~= seq![DAP_LED, status_type, status]);
        cmd
    }

    /// Accepts any status: some probes do not support the command.
    pub fn parse_host_status_response(data: &[u8]) -> (r: Result<(), Error>)
        ensures
            data@.len() < 2 ==> r is Err && is_too_short_error(r->Err_0, "DAP_HostStatus"@),
            r is Ok <==> data@.len() >= 2,
    {
        if data.len() < 2 {
            return Err(too_short_error("DAP_HostStatus"));
        }
        Ok(())
    }

    // --------------------------------------------------------
    // DAP_SWJ_Pins
    // --------------------------------------------------------
    /// DAP_SWJ_Pins: pin `mask` (bit 0 SWCLK, bit 1 SWDIO, bit 2 nRESET),
    /// pin `value`, then the wait in microseconds.
    pub fn build_pins_request(&self, mask: u8, value: u8, wait_us: u32) -> (cmd: Vec<u8>)
        ensures
            cmd@ == seq![DAP_SWJ_PINS, mask, value] + le_u32(wait_us),
    {
        let mut cmd = vec![DAP_SWJ_PINS, mask, value];
        assert(cmd@ =~= seq![DAP_SWJ_PINS, mask, value]);
        push_le_u32(&mut cmd, wait_us);
        cmd
    }

    /// The pin state that DAP_SWJ_Pins reports.
    pub fn parse_pins_response(data: &[u8]) -> (r: Result<u8, Error>)
        ensures
            data@.len() < 2 ==> r is Err && is_too_short_error(r->Err_0, "DAP_SWJ_PINS"@),
            data@.len() >= 2 ==> r == Ok::<u8, Error>(data@[1]),
    {
        if data.len() < 2 {
            return Err(too_short_error("DAP_SWJ_PINS"));
        }
        Ok(data[1])
    }

    // --------------------------------------------------------
    // DAP_SWJ_Sequence
    // --------------------------------------------------------
    /// DAP_SWJ_Sequence carrying all bytes of `data`; the count is in bits.
    pub fn build_swj_sequence_request(&self, data: &[u8]) -> (cmd: Vec<u8>)
        ensures
            cmd@ == seq![DAP_SWJ_SEQUENCE, sequence_bit_count(data@.len())] + data@,
    {
        let bit_count: u8 = if data.len() >= 32 {
            0
        } else {
            (data.len() * 8) as u8
        };
        let mut cmd = vec![DAP_SWJ_SEQUENCE, bit_count];
        let ghost head = cmd@;
        assert(head =~= seq![DAP_SWJ_SEQUENCE, sequence_bit_count(data@.len())]);
        cmd.extend_from_slice(data);
        assert forall|k: int| 0 <= k < data@.len() implies cmd@[k + 2] == data@[k] by {
            assert(cloned::<u8>(data@[k], cmd@[k + 2]));
        }
        assert(cmd@ =~= head + data@);
        cmd
    }

    pub fn parse_swj_sequence_response(data: &[u8]) -> (r: Result<u8, Error>)
        ensures
            data@.len() < 2 ==> r is Err && is_too_short_error(r->Err_0, "DAP_SWJ_Sequence"@),
            data@.len() >= 2 ==> r == Ok::<u8, Error>(data@[1]),
    {
        if data.len() < 2 {
            return Err(too_short_error("DAP_SWJ_Sequence"));
        }
        Ok(data[1])
    }

    // --------------------------------------------------------
    // DAP_Transfer
    // --------------------------------------------------------
    /// The DAP_Transfer command for `requests`.
    pub fn build_transfer_request(&self, requests: &[TransferRequest]) -> (cmd: Vec<u8>)
        ensures
            cmd@ == transfer_command(self.dap_index, requests@),
    {
        let count: u8 = (requests.len() % 256) as u8;
        let mut cmd = vec![DAP_TRANSFER, self.dap_index, count];
        let ghost head = seq![DAP_TRANSFER, self.dap_index, (requests@.len() % 256) as u8];
        assert(cmd@ =~= head);
        let mut i: usize = 0;
        while i < requests.len()
            invariant
                i <= requests@.len(),
                cmd@ == head + encode_requests(requests@.subrange(0, i as int)),
            decreases requests@.len() - i,
        {
            let req = requests[i];
            let ghost before = cmd@;
            cmd.push(req.request_byte());
            if !req.rnw {
                let data = match req.write_data {
                    Some(d) => d,
                    None => 0,
                };
                push_le_u32(&mut cmd, data);
            }
            proof {
                let s = requests@.subrange(0, i + 1);
                assert(s.drop_last() =~= requests@.subrange(0, i as int));
                assert(s.last() == req);
                assert(cmd@ =~= before + encode_request(req));
            }
            i = i + 1;
        }
        assert(requests@.subrange(0, requests@.len() as int) =~= requests@);
        cmd
    }

    /// Parses a DAP_Transfer response `[echo, count, status, data...]`.
    pub fn parse_transfer_response(data: &[u8]) -> (r: Result<TransferResponse, Error>)
        ensures
            data@.len() < 3 ==> r is Err && (r->Err_0 matches Error::InvalidResponse(m) && m@
                == transfer_too_short(data@.len())),
            data@.len() >= 3 ==> r is Ok && r->Ok_0.count == data@[1] && r->Ok_0.status
                == data@[2] && r->Ok_0.data@ == response_words(data@),
    {
        if data.len() < 3 {
            let mut m = String::from_str("DAP_Transfer 响应过短: ");
            push_decimal(&mut m, data.len() as u64);
            m.append(" 字节");
            return Err(Error::InvalidResponse(m));
        }
        let count = data[1];
        let status = data[2];
        let num_values = (data.len() - 3) / 4;
        let mut values: Vec<u32> = Vec::with_capacity(num_values);
        let mut i: usize = 0;
        while i < num_values
            invariant
                num_values == (data@.len() - 3) / 4,
                data.len() >= 3,
                i <= num_values,
                values@.len() == i,
                forall|k: int| 0 <= k < i ==> values@[k] == word_at(data@, 3 + 4 * k),
            decreases num_values - i,
        {
            assert(3 + i * 4 + 4 <= data@.len()) by (nonlinear_arith)
                requires
                    i < num_values,
                    num_values == (data@.len() - 3) / 4,
                    data@.len() >= 3,
            ;
            let offset = 3 + i * 4;
            values.push(read_le_u32(data, offset));
            i = i + 1;
        }
        assert(values@ =~= response_words(data@));
        Ok(TransferResponse { status, count, data: values })
    }
}

} // verus!
