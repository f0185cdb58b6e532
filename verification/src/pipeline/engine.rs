//! The decisions of the acquisition pipeline: which DAP_Transfer command is
//! submitted each period, how many commands may be in flight, and how the
//! byte stream of responses is cut into samples. The threads, the USB
//! transfers and the clock stay with the application.
use vstd::prelude::*;
use crate::dap::commands::{
    TransferRequest, AP_REG_DRW, AP_REG_TAR, DAP_TRANSFER, TRANSFER_OK,
};
use crate::dap::protocol::{
    encode_request, encode_requests, push_le_u32, response_words, transfer_command, word_at,
    read_le_u32,
};
use crate::pipeline::sample::{Sample, SampleData};

verus! {

/// Most requests in one DAP_Transfer command: each takes at most five
/// bytes, which keeps a command well inside a USB packet and its count
/// inside one byte.
pub const MAX_TRANSFER_REQUESTS: usize = 64;

/// Most commands submitted and not yet answered. Keeping the probe's queue
/// short makes each read happen close to its intended time.
pub const MAX_INFLIGHT: u64 = 2;

/// Sampling period in microseconds for a rate in Hz: the whole part of
/// 1 000 000 / rate, and the largest `u64` for a rate of zero.
pub open spec fn spec_interval_us(rate_hz: u32) -> u64 {
    if rate_hz == 0 {
        u64::MAX
    } else {
        (1_000_000u32 / rate_hz) as u64
    }
}

/// Sampling period in microseconds for a rate in Hz.
pub fn interval_us_for_rate(rate_hz: u32) -> (us: u64)
    ensures
        us == spec_interval_us(rate_hz),
{
    if rate_hz == 0 {
        u64::MAX
    } else {
        (1_000_000u32 / rate_hz) as u64
    }
}

/// The requests that read the variables at `addrs`: for each, a write of
/// the AP TAR register with the address, then a read of the AP DRW register.
pub open spec fn read_requests(addrs: Seq<u32>) -> Seq<TransferRequest>
    decreases addrs.len(),
{
    if addrs.len() == 0 {
        Seq::empty()
    } else {
        read_requests(addrs.drop_last()) + seq![
            TransferRequest { rnw: false, apndp: true, reg_addr: AP_REG_TAR, write_data: Some(addrs.last()) },
            TransferRequest { rnw: true, apndp: true, reg_addr: AP_REG_DRW, write_data: None },
        ]
    }
}

/// The requests that write `(address, value)` pairs to target memory: for
/// each, a write of TAR with the address, then a write of DRW with the value.
pub open spec fn write_requests(writes: Seq<(u32, u32)>) -> Seq<TransferRequest>
    decreases writes.len(),
{
    if writes.len() == 0 {
        Seq::empty()
    } else {
        write_requests(writes.drop_last()) + seq![
            TransferRequest { rnw: false, apndp: true, reg_addr: AP_REG_TAR, write_data: Some(writes.last().0) },
            TransferRequest { rnw: false, apndp: true, reg_addr: AP_REG_DRW, write_data: Some(writes.last().1) },
        ]
    }
}

proof fn lemma_read_requests_len(addrs: Seq<u32>)
    ensures
        read_requests(addrs).len() == 2 * addrs.len(),
    decreases addrs.len(),
{
    if addrs.len() > 0 {
        lemma_read_requests_len(addrs.drop_last());
    }
}

proof fn lemma_write_requests_len(writes: Seq<(u32, u32)>)
    ensures
        write_requests(writes).len() == 2 * writes.len(),
    decreases writes.len(),
{
    if writes.len() > 0 {
        lemma_write_requests_len(writes.drop_last());
    }
}

proof fn lemma_encode_requests_append(a: Seq<TransferRequest>, b: Seq<TransferRequest>)
    ensures
        encode_requests(a + b) == encode_requests(a) + encode_requests(b),
    decreases b.len(),
{
    if b.len() == 0 {
        assert(a + b =~= a);
        assert(encode_requests(a) + encode_requests(b) =~= encode_requests(a));
    } else {
        lemma_encode_requests_append(a, b.drop_last());
        assert((a + b).drop_last() =~= a + b.drop_last());
        assert((a + b).last() == b.last());
        assert(encode_requests(a) + encode_requests(b) =~= encode_requests(a) + encode_requests(
            b.drop_last(),
        ) + encode_request(b.last()));
    }
}

/// The requests that sample the variables at `addresses` once.
pub fn sampling_requests(addresses: &[u32]) -> (reqs: Vec<TransferRequest>)
    requires
        addresses@.len() * 2 <= usize::MAX,
    ensures
        reqs@ == read_requests(addresses@),
{
    let mut reqs: Vec<TransferRequest> = Vec::new();
    let mut i: usize = 0;
    while i < addresses.len()
        invariant
            i <= addresses@.len(),
            reqs@ == read_requests(addresses@.subrange(0, i as int)),
        decreases addresses@.len() - i,
    {
        reqs.push(TransferRequest::write_ap(AP_REG_TAR, addresses[i]));
        reqs.push(TransferRequest::read_ap(AP_REG_DRW));
        proof {
            let s = addresses@.subrange(0, i + 1);
            assert(s.drop_last() =~= addresses@.subrange(0, i as int));
        }
        i = i + 1;
        assert(reqs@ =~= read_requests(addresses@.subrange(0, i as int)));
    }
    assert(addresses@.subrange(0, addresses@.len() as int) =~= addresses@);
    reqs
}

/// How many queued memory writes fit beside `n_requests` read requests in
/// one command (each write takes two requests).
pub open spec fn spec_max_pending_writes(n_requests: nat) -> nat {
    if n_requests >= MAX_TRANSFER_REQUESTS {
        0
    } else {
        ((MAX_TRANSFER_REQUESTS - n_requests) / 2) as nat
    }
}

/// How many queued memory writes may join one sampling command.
pub fn max_pending_writes(n_requests: usize) -> (n: usize)
    ensures
        n == spec_max_pending_writes(n_requests as nat),
        n_requests + 2 * n <= MAX_TRANSFER_REQUESTS || n == 0,
{
    if n_requests >= MAX_TRANSFER_REQUESTS {
        0
    } else {
        (MAX_TRANSFER_REQUESTS - n_requests) / 2
    }
}

/// Whether one more command may be submitted when `submitted` commands
/// were sent and `collected` responses were handled.
pub fn may_submit(submitted: u64, collected: u64) -> (b: bool)
    ensures
        b == (if submitted > collected {
            submitted - collected
        } else {
            0
        } < MAX_INFLIGHT),
{
    let in_flight = if submitted > collected {
        submitted - collected
    } else {
        0
    };
    in_flight < MAX_INFLIGHT
}

/// With no queued writes, the sampling command is the plain DAP_Transfer
/// command of the read requests.
pub proof fn lemma_sampling_without_writes(dap_index: u8, requests: Seq<TransferRequest>)
    ensures
        transfer_command(dap_index, write_requests(Seq::empty()) + requests) == transfer_command(
            dap_index,
            requests,
        ),
{
    assert(write_requests(Seq::<(u32, u32)>::empty()) + requests =~= requests);
}

/// The DAP_Transfer command of one sampling period: the queued memory
/// writes first, then the read requests. It is exactly the DAP_Transfer
/// command of the write requests followed by the read requests.
pub fn build_sampling_command(
    dap_index: u8,
    pending_writes: &[(u32, u32)],
    requests: &[TransferRequest],
) -> (cmd: Vec<u8>)
    requires
        requests@.len() + 2 * pending_writes@.len() <= usize::MAX,
    ensures
        cmd@ == transfer_command(dap_index, write_requests(pending_writes@) + requests@),
{
    let total = requests.len() + pending_writes.len() * 2;
    let mut cmd = vec![DAP_TRANSFER, dap_index, (total % 256) as u8];
    let ghost head = seq![DAP_TRANSFER, dap_index, (total % 256) as u8];
    assert(cmd@ =~= head);
    let mut i: usize = 0;
    while i < pending_writes.len()
        invariant
            i <= pending_writes@.len(),
            cmd@ == head + encode_requests(write_requests(pending_writes@.subrange(0, i as int))),
        decreases pending_writes@.len() - i,
    {
        let (addr, data) = pending_writes[i];
        let w_tar = TransferRequest::write_ap(AP_REG_TAR, addr);
        let w_drw = TransferRequest::write_ap(AP_REG_DRW, data);
        let ghost before = cmd@;
        cmd.push(w_tar.request_byte());
        push_le_u32(&mut cmd, addr);
        cmd.push(w_drw.request_byte());
        push_le_u32(&mut cmd, data);
        proof {
            let pre = pending_writes@.subrange(0, i as int);
            let s = pending_writes@.subrange(0, i + 1);
            assert(s.drop_last() =~= pre);
            assert(s.last() == (addr, data));
            let two = seq![w_tar, w_drw];
            lemma_encode_requests_append(write_requests(pre), two);
            assert(two.drop_last() =~= seq![w_tar]);
            assert(seq![w_tar].drop_last() =~= Seq::<TransferRequest>::empty());
            assert(encode_requests(Seq::<TransferRequest>::empty()) =~= Seq::<u8>::empty());
            assert(encode_requests(seq![w_tar]) =~= encode_request(w_tar));
            assert(encode_requests(two) =~= encode_request(w_tar) + encode_request(w_drw));
            assert(cmd@ =~= before + encode_request(w_tar) + encode_request(w_drw));
        }
        i = i + 1;
    }
    assert(pending_writes@.subrange(0, pending_writes@.len() as int) =~= pending_writes@);
    let mut j: usize = 0;
    let ghost wr = write_requests(pending_writes@);
    while j < requests.len()
        invariant
            j <= requests@.len(),
            cmd@ == head + encode_requests(wr) + encode_requests(requests@.subrange(0, j as int)),
        decreases requests@.len() - j,
    {
        let req = requests[j];
        let ghost before = cmd@;
        cmd.push(req.request_byte());
        if !req.rnw {
            let data = match req.write_data {
                Some(d) => d,
                None => 0,
            };
            push_le_u32(&mut cmd, data);
        }
        proof {
            let s = requests@.subrange(0, j + 1);
            assert(s.drop_last() =~= requests@.subrange(0, j as int));
            assert(s.last() == req);
            assert(cmd@ =~= before + encode_request(req));
        }
        j = j + 1;
    }
    assert(requests@.subrange(0, requests@.len() as int) =~= requests@);
    proof {
        lemma_write_requests_len(pending_writes@);
        lemma_encode_requests_append(wr, requests@);
        assert((wr + requests@).len() == total);
        assert(cmd@ =~= transfer_command(dap_index, wr + requests@));
    }
    cmd
}

/// Length in bytes of the response to one sampling command for
/// `num_vars` variables: three header bytes and four per value.
pub open spec fn response_len(num_vars: nat) -> nat {
    3 + 4 * num_vars
}

/// The samples made from the first `k` complete responses of `data`, each
/// `resp_len` bytes long, numbered from `seq0`. A response whose status is
/// not OK is skipped but still uses up its number.
pub open spec fn samples_from(data: Seq<u8>, resp_len: nat, seq0: int, timestamp_ns: u64, k: nat) -> Seq<
    SampleData,
>
    decreases k,
{
    if k == 0 {
        Seq::empty()
    } else {
        let prev = samples_from(data, resp_len, seq0, timestamp_ns, (k - 1) as nat);
        let chunk = data.subrange((k - 1) * resp_len, (k * resp_len) as int);
        if chunk[2] == TRANSFER_OK {
            prev.push(
                SampleData {
                    seq: (seq0 + k - 1) as u64,
                    timestamp_ns,
                    values: response_words(chunk),
                },
            )
        } else {
            prev
        }
    }
}

/// The sampling points cut from a stream are numbered in increasing order,
/// each below the number of responses used up.
pub proof fn lemma_samples_numbered_in_order(data: Seq<u8>, len: nat, seq0: int, t: u64, k: nat)
    requires
        0 <= seq0,
        seq0 + k <= u64::MAX,
    ensures
        forall|i: int, j: int|
            0 <= i < j < samples_from(data, len, seq0, t, k).len() ==> (#[trigger] samples_from(
                data,
                len,
                seq0,
                t,
                k,
            )[i]).seq < (#[trigger] samples_from(data, len, seq0, t, k)[j]).seq,
        forall|i: int|
            0 <= i < samples_from(data, len, seq0, t, k).len() ==> seq0 <= (#[trigger] samples_from(
                data,
                len,
                seq0,
                t,
                k,
            )[i]).seq < seq0 + k,
    decreases k,
{
    if k > 0 {
        lemma_samples_numbered_in_order(data, len, seq0, t, (k - 1) as nat);
        let prev = samples_from(data, len, seq0, t, (k - 1) as nat);
        let cur = samples_from(data, len, seq0, t, k);
        let chunk = data.subrange((k - 1) * len, (k * len) as int);
        if chunk[2] == TRANSFER_OK {
            let sd = SampleData {
                seq: (seq0 + k - 1) as u64,
                timestamp_ns: t,
                values: response_words(chunk),
            };
            assert(cur == prev.push(sd));
            assert(sd.seq == seq0 + k - 1);
            assert forall|i: int, j: int| 0 <= i < j < cur.len() implies (#[trigger] cur[i]).seq
                < (#[trigger] cur[j]).seq by {
                if j == cur.len() - 1 {
                    assert(cur[i] == prev[i]);
                } else {
                    assert(cur[i] == prev[i] && cur[j] == prev[j]);
                }
            }
            assert forall|i: int| 0 <= i < cur.len() implies seq0 <= (#[trigger] cur[i]).seq < seq0
                + k by {
                if i < prev.len() {
                    assert(cur[i] == prev[i]);
                }
            }
        } else {
            assert(cur == prev);
        }
    } else {
        assert(samples_from(data, len, seq0, t, 0).len() == 0);
    }
}

/// Sampling points without their arrival times: number and values.
pub open spec fn untimed(s: Seq<SampleData>) -> Seq<(u64, Seq<u32>)> {
    s.map_values(|d: SampleData| (d.seq, d.values))
}

proof fn lemma_samples_prefix(d: Seq<u8>, e: Seq<u8>, len: nat, seq0: int, t: u64, k: nat)
    requires
        len >= 3,
        k * len <= d.len(),
    ensures
        samples_from(d + e, len, seq0, t, k) == samples_from(d, len, seq0, t, k),
    decreases k,
{
    if k > 0 {
        assert((k - 1) * len <= d.len()) by (nonlinear_arith)
            requires
                k * len <= d.len(),
                k > 0,
        ;
        assert(k * len == (k - 1) * len + len) by (nonlinear_arith);
        lemma_samples_prefix(d, e, len, seq0, t, (k - 1) as nat);
        assert((d + e).subrange((k - 1) * len, (k * len) as int) =~= d.subrange(
            (k - 1) * len,
            (k * len) as int,
        ));
    }
}

proof fn lemma_samples_shift(
    data: Seq<u8>,
    len: nat,
    seq0: int,
    t: u64,
    t2: u64,
    k1: nat,
    j: nat,
)
    requires
        len >= 3,
        (k1 + j) * len <= data.len(),
    ensures
        untimed(samples_from(data, len, seq0, t, k1 + j)) == untimed(
            samples_from(data, len, seq0, t, k1),
        ) + untimed(samples_from(data.skip((k1 * len) as int), len, seq0 + k1, t2, j)),
    decreases j,
{
    let rest = data.skip((k1 * len) as int);
    if j == 0 {
        assert(untimed(samples_from(rest, len, seq0 + k1, t2, 0)) =~= Seq::empty());
        assert(untimed(samples_from(data, len, seq0, t, k1)) + Seq::<(u64, Seq<u32>)>::empty()
            =~= untimed(samples_from(data, len, seq0, t, k1)));
    } else {
        assert((k1 + j - 1) * len <= data.len()) by (nonlinear_arith)
            requires
                (k1 + j) * len <= data.len(),
                j > 0,
        ;
        assert((k1 + j) * len == k1 * len + j * len) by (nonlinear_arith);
        assert((k1 + j - 1) * len == k1 * len + (j - 1) * len) by (nonlinear_arith);
        assert(0 <= (j - 1) * len) by (nonlinear_arith)
            requires
                j >= 1,
        ;
        lemma_samples_shift(data, len, seq0, t, t2, k1, (j - 1) as nat);
        let c1 = data.subrange((k1 + j - 1) * len, ((k1 + j) * len) as int);
        let c2 = rest.subrange((j - 1) * len, (j * len) as int);
        assert(j * len == (j - 1) * len + len) by (nonlinear_arith);
        assert(j * len <= rest.len());
        assert(c1.len() == len && c2.len() == len);
        assert forall|i: int| 0 <= i < len implies c1[i] == c2[i] by {
            assert(c1[i] == data[(k1 + j - 1) * len + i]);
            assert(c2[i] == rest[(j - 1) * len + i]);
            assert(rest[(j - 1) * len + i] == data[k1 * len + (j - 1) * len + i]);
        }
        assert(c1 =~= c2);
        let a = samples_from(data, len, seq0, t, (k1 + j - 1) as nat);
        let b = samples_from(rest, len, seq0 + k1, t2, (j - 1) as nat);
        if c1[2] == TRANSFER_OK {
            let sa = SampleData { seq: (seq0 + (k1 + j) - 1) as u64, timestamp_ns: t, values: response_words(c1) };
            let sb = SampleData { seq: (seq0 + k1 + j - 1) as u64, timestamp_ns: t2, values: response_words(c2) };
            assert(untimed(a.push(sa)) =~= untimed(a).push((sa.seq, sa.values)));
            assert(untimed(b.push(sb)) =~= untimed(b).push((sb.seq, sb.values)));
            assert(untimed(samples_from(data, len, seq0, t, k1)) + untimed(b).push((sb.seq, sb.values))
                =~= (untimed(samples_from(data, len, seq0, t, k1)) + untimed(b)).push((sb.seq, sb.values)));
        }
    }
}

/// Reading the response stream in two pieces cuts it as reading it at once:
/// the same number of responses is used up, the same bytes are left over,
/// and the same sampling points come out (up to their arrival times).
/// `pending` is what a collector holds (shorter than one response).
pub proof fn lemma_chunking_invariant(
    pending: Seq<u8>,
    x: Seq<u8>,
    y: Seq<u8>,
    len: nat,
    seq0: int,
    t1: u64,
    t2: u64,
    t: u64,
)
    requires
        len >= 3,
        pending.len() < len,
    ensures
        ({
            let d1 = pending + x;
            let k1 = d1.len() / len;
            let p1 = d1.skip((k1 * len) as int);
            let d2 = p1 + y;
            let k2 = d2.len() / len;
            let all = pending + x + y;
            let k = all.len() / len;
            &&& k1 + k2 == k
            &&& d2.skip((k2 * len) as int) == all.skip((k * len) as int)
            &&& untimed(samples_from(d1, len, seq0, t1, k1)) + untimed(
                samples_from(d2, len, seq0 + k1, t2, k2),
            ) == untimed(samples_from(all, len, seq0, t, k))
        }),
{
    let d1 = pending + x;
    let k1 = d1.len() / len;
    let p1 = d1.skip((k1 * len) as int);
    let d2 = p1 + y;
    let k2 = d2.len() / len;
    let all = pending + x + y;
    let k = all.len() / len;
    assert(k1 * len <= d1.len()) by (nonlinear_arith)
        requires
            k1 == d1.len() / len,
            len > 0,
    ;
    assert(all =~= d1 + y);
    assert(all.skip((k1 * len) as int) =~= d2);
    assert(d2.len() == all.len() - k1 * len);
    assert(k1 + k2 == k) by (nonlinear_arith)
        requires
            k1 == d1.len() / len,
            k2 == d2.len() / len,
            k == all.len() / len,
            d2.len() == all.len() - k1 * len,
            k1 * len <= d1.len(),
            d1.len() <= all.len(),
            len > 0,
    ;
    assert((k1 + k2) * len == k1 * len + k2 * len) by (nonlinear_arith);
    assert(k2 * len <= d2.len()) by (nonlinear_arith)
        requires
            k2 == d2.len() / len,
            len > 0,
    ;
    assert(d2.skip((k2 * len) as int) =~= all.skip((k * len) as int));
    lemma_samples_prefix(d1, y, len, seq0, t, k1);
    lemma_samples_shift(all, len, seq0, t, t2, k1, k2);
    assert(untimed(samples_from(d1, len, seq0, t1, k1)) == untimed(samples_from(d1, len, seq0, t, k1))) by {
        lemma_untimed_ignores_time(d1, len, seq0, t1, t, k1);
    }
}

/// The stamp given to a read changes only the arrival times of the
/// sampling points cut from it.
pub proof fn lemma_untimed_ignores_time(d: Seq<u8>, len: nat, seq0: int, t1: u64, t2: u64, k: nat)
    ensures
        untimed(samples_from(d, len, seq0, t1, k)) == untimed(samples_from(d, len, seq0, t2, k)),
    decreases k,
{
    if k > 0 {
        lemma_untimed_ignores_time(d, len, seq0, t1, t2, (k - 1) as nat);
        let a = samples_from(d, len, seq0, t1, (k - 1) as nat);
        let b = samples_from(d, len, seq0, t2, (k - 1) as nat);
        let chunk = d.subrange((k - 1) * len, (k * len) as int);
        if chunk[2] == TRANSFER_OK {
            let v = response_words(chunk);
            let sq = (seq0 + k - 1) as u64;
            assert(untimed(a.push(SampleData { seq: sq, timestamp_ns: t1, values: v })) =~= untimed(a).push((sq, v)));
            assert(untimed(b.push(SampleData { seq: sq, timestamp_ns: t2, values: v })) =~= untimed(b).push((sq, v)));
        }
    } else {
        assert(untimed(samples_from(d, len, seq0, t1, 0)) =~= untimed(samples_from(d, len, seq0, t2, 0)));
    }
}

/// The bytes of the reads `reads`, one after another.
pub open spec fn concat_reads(reads: Seq<Seq<u8>>) -> Seq<u8>
    decreases reads.len(),
{
    if reads.len() == 0 {
        Seq::empty()
    } else {
        concat_reads(reads.drop_last()) + reads.last()
    }
}

/// What a collector that holds `pending` and numbers its next response
/// `seq0` hands out over the reads `reads`, one `ingest` per read, the
/// `i`-th stamped `times[i]` (as `ingest` states it): the sampling points
/// of all calls in order (up to their arrival times), the number of the
/// next response, and the bytes it holds at the end.
pub open spec fn collect_reads(
    pending: Seq<u8>,
    reads: Seq<Seq<u8>>,
    times: Seq<u64>,
    len: nat,
    seq0: int,
) -> (Seq<(u64, Seq<u32>)>, int, Seq<u8>)
    decreases reads.len(),
{
    if reads.len() == 0 {
        (Seq::empty(), seq0, pending)
    } else {
        let before = collect_reads(pending, reads.drop_last(), times.drop_last(), len, seq0);
        let d = before.2 + reads.last();
        let k = d.len() / len;
        (
            before.0 + untimed(samples_from(d, len, before.1, times.last(), k)),
            before.1 + k,
            d.skip((k * len) as int),
        )
    }
}

/// However the response stream is split into reads, the collector cuts it
/// as if it had come in one piece: over the reads `reads`, a collector
/// holding `pending` hands out the sampling points of the whole stream
/// `pending` followed by every read, in order (up to their arrival times),
/// uses up each complete response of it once, numbered from `seq0`, and
/// keeps the bytes after the last complete response.
pub proof fn lemma_framing_any_split(
    pending: Seq<u8>,
    reads: Seq<Seq<u8>>,
    times: Seq<u64>,
    len: nat,
    seq0: int,
)
    requires
        len >= 3,
        pending.len() < len,
        times.len() == reads.len(),
    ensures
        ({
            let all = pending + concat_reads(reads);
            let k = all.len() / len;
            collect_reads(pending, reads, times, len, seq0) == (
                untimed(samples_from(all, len, seq0, 0, k)),
                seq0 + k,
                all.skip((k * len) as int),
            )
        }),
    decreases reads.len(),
{
    let all = pending + concat_reads(reads);
    let k = all.len() / len;
    if reads.len() == 0 {
        assert(all =~= pending);
        assert(k == 0) by (nonlinear_arith)
            requires
                k == all.len() / len,
                all.len() < len,
        ;
        assert(untimed(samples_from(all, len, seq0, 0, 0)) =~= Seq::<(u64, Seq<u32>)>::empty());
        assert(all.skip(0) =~= pending);
    } else {
        let x = concat_reads(reads.drop_last());
        let y = reads.last();
        lemma_framing_any_split(pending, reads.drop_last(), times.drop_last(), len, seq0);
        lemma_chunking_invariant(pending, x, y, len, seq0, 0, times.last(), 0);
        assert(all =~= pending + x + y);
    }
}

/// Cuts the byte stream of sampling responses into samples. Bytes of an
/// incomplete response are kept until the rest arrives.
pub struct ResponseCollector {
    carry: Vec<u8>,
    seq: u64,
    resp_len: usize,
}

impl ResponseCollector {
    /// Bytes received and not yet used: the start of an incomplete response.
    pub closed spec fn pending(&self) -> Seq<u8> {
        self.carry@
    }

    /// Number of the next response.
    pub closed spec fn next_seq(&self) -> u64 {
        self.seq
    }

    /// Length of one response.
    pub closed spec fn frame_len(&self) -> nat {
        self.resp_len as nat
    }

    pub closed spec fn wf(&self) -> bool {
        &&& self.resp_len >= 3
        &&& self.carry@.len() < self.resp_len
    }

    /// A collector for responses that carry `num_vars` values each.
    pub fn new(num_vars: usize) -> (c: Self)
        requires
            response_len(num_vars as nat) <= usize::MAX,
        ensures
            c.wf(),
            c.pending() == Seq::<u8>::empty(),
            c.next_seq() == 0,
            c.frame_len() == response_len(num_vars as nat),
    {
        Self { carry: Vec::new(), seq: 0, resp_len: 3 + 4 * num_vars }
    }

    /// Number of the next response, which is also the number of responses
    /// handled so far.
    pub fn collected(&self) -> (n: u64)
        ensures
            n == self.next_seq(),
    {
        self.seq
    }

    /// Takes the bytes of one read and returns the samples of the complete
    /// OK responses, in order, stamped with `timestamp_ns`. Every complete
    /// response is handled once; the bytes after the last one are kept.
    pub fn ingest(&mut self, bytes: &[u8], timestamp_ns: u64) -> (samples: Vec<Sample>)
        requires
            old(self).wf(),
            old(self).pending().len() + bytes@.len() <= usize::MAX,
            old(self).next_seq() + (old(self).pending().len() + bytes@.len()) / old(
                self,
            ).frame_len() <= u64::MAX,
        ensures
            final(self).wf(),
            final(self).frame_len() == old(self).frame_len(),
            ({
                let data = old(self).pending() + bytes@;
                let k = data.len() / old(self).frame_len();
                &&& final(self).next_seq() == old(self).next_seq() + k
                &&& final(self).pending() == data.skip((k * old(self).frame_len()) as int)
                &&& samples@.map_values(|s: Sample| s@) == samples_from(
                    data,
                    old(self).frame_len(),
                    old(self).next_seq() as int,
                    timestamp_ns,
                    k,
                )
            }),
    {
        let ghost data = self.carry@ + bytes@;
        let mut buf: Vec<u8> = Vec::with_capacity(self.carry.len() + bytes.len());
        buf.extend_from_slice(self.carry.as_slice());
        buf.extend_from_slice(bytes);
        assert forall|i: int| 0 <= i < data.len() implies buf@[i] == data[i] by {
            if i < self.carry@.len() {
                assert(cloned::<u8>(self.carry@[i], buf@[i]));
            } else {
                assert(cloned::<u8>(bytes@[i - self.carry@.len()], buf@[i]));
            }
        }
        assert(buf@ =~= data);
        let resp_len = self.resp_len;
        let seq0 = self.seq;
        let mut samples: Vec<Sample> = Vec::new();
        let mut offset: usize = 0;
        let mut k: usize = 0;
        while resp_len <= buf.len() - offset
            invariant
                buf@ == data,
                self.resp_len == resp_len,
                resp_len >= 3,
                offset == k * resp_len,
                offset <= buf@.len(),
                self.seq == seq0 + k,
                seq0 + data.len() / (resp_len as nat) <= u64::MAX,
                k <= data.len() / (resp_len as nat),
                samples@.map_values(|s: Sample| s@) == samples_from(
                    data,
                    resp_len as nat,
                    seq0 as int,
                    timestamp_ns,
                    k as nat,
                ),
            decreases buf@.len() - offset,
        {
            proof {
                assert((k + 1) * resp_len <= data.len()) by (nonlinear_arith)
                    requires
                        offset == k * resp_len,
                        offset + resp_len <= data.len(),
                ;
                assert(k + 1 <= data.len() / (resp_len as nat)) by (nonlinear_arith)
                    requires
                        (k + 1) * resp_len <= data.len(),
                        resp_len > 0,
                ;
            }
            let status = buf[offset + 2];
            let ghost chunk = data.subrange(offset as int, offset + resp_len);
            if status == TRANSFER_OK {
                let n_words = (resp_len - 3) / 4;
                let mut values: Vec<u32> = Vec::with_capacity(n_words);
                let mut w: usize = 0;
                while w < n_words
                    invariant
                        buf@ == data,
                        chunk == data.subrange(offset as int, offset + resp_len),
                        offset + resp_len <= buf.len(),
                        n_words == (resp_len - 3) / 4,
                        resp_len >= 3,
                        w <= n_words,
                        values@.len() == w,
                        forall|q: int| 0 <= q < w ==> values@[q] == word_at(chunk, 3 + 4 * q),
                    decreases n_words - w,
                {
                    assert(3 + 4 * w + 4 <= resp_len) by (nonlinear_arith)
                        requires
                            w < n_words,
                            n_words == (resp_len - 3) / 4,
                            resp_len >= 3,
                    ;
                    let at = offset + 3 + 4 * w;
                    let v = read_le_u32(buf.as_slice(), at);
                    assert(v == word_at(chunk, 3 + 4 * w));
                    values.push(v);
                    w = w + 1;
                }
                assert(values@ =~= response_words(chunk));
                let ghost before = samples@;
                samples.push(Sample { seq: self.seq, timestamp_ns, values });
                assert(samples@.map_values(|s: Sample| s@) =~= before.map_values(|s: Sample| s@).push(
                    SampleData { seq: (seq0 + k) as u64, timestamp_ns, values: response_words(chunk) },
                ));
            }
            proof {
                assert(chunk[2] == status);
                assert((k + 1) * resp_len == offset + resp_len) by (nonlinear_arith)
                    requires
                        offset == k * resp_len,
                ;
            }
            self.seq = self.seq + 1;
            offset = offset + resp_len;
            k = k + 1;
        }
        proof {
            assert(k == data.len() / (resp_len as nat)) by (nonlinear_arith)
                requires
                    offset == k * resp_len,
                    offset + resp_len > data.len(),
                    offset <= data.len(),
                    resp_len > 0,
            ;
        }
        let rest = vstd::slice::slice_to_vec(vstd::slice::slice_subrange(buf.as_slice(), offset, buf.len()));
        assert(rest@ =~= data.skip(offset as int));
        self.carry = rest;
        samples
    }
}

} // verus!
