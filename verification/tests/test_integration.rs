//! Integration tests: request building, response parsing and the sample
//! buffers, without USB hardware.
use dap_sampler::dap::commands::{
    req_read_ap, req_read_dp, req_write_ap, req_write_dp, TransferRequest, AP_REG_DRW,
    AP_REG_TAR, CDBGPWRUPACK, CDBGPWRUPREQ, CSYSPWRUPACK, CSYSPWRUPREQ, DAP_TRANSFER,
    DP_REG_CTRL_STAT, DP_REG_DPIDR, DP_REG_SELECT, TRANSFER_FAULT, TRANSFER_OK,
};
use dap_sampler::dap::protocol::DapProtocol;
use dap_sampler::pipeline::ring_buffer::RingBuffer;
use dap_sampler::pipeline::sample::Sample;

fn seconds(ns: u64) -> f64 {
    ns as f64 / 1e9
}

#[test]
fn e2e_single_variable_read_flow() {
    let requests = vec![
        TransferRequest::write_ap(AP_REG_TAR, 0x20000100),
        TransferRequest::read_ap(AP_REG_DRW),
    ];

    let dap = DapProtocol { dap_index: 0 };
    let cmd = dap.build_transfer_request(&requests);

    assert_eq!(cmd[0], DAP_TRANSFER);
    assert_eq!(cmd[2], 2);

    let fake_response: [u8; 7] = [0x05, 0x02, 0x01, 0xDB, 0x0F, 0x49, 0x40];

    let resp = DapProtocol::parse_transfer_response(&fake_response).unwrap();
    assert_eq!(resp.status, TRANSFER_OK);
    assert_eq!(resp.data.len(), 1);
    assert_eq!(resp.data[0], 0x40490FDB);

    let sample = Sample { seq: 0, timestamp_ns: 0, values: resp.data };
    assert_eq!(sample.values[0], 0x40490FDB);
    let floats: Vec<f32> = sample.values.iter().map(|&v| f32::from_bits(v)).collect();
    assert!((floats[0] - 3.1415927).abs() < 1e-6);

    assert!((seconds(sample.timestamp_ns) - 0.0).abs() < 1e-9);
}

#[test]
fn e2e_multi_variable_read_flow() {
    let addrs = [0x20000100u32, 0x20000104, 0x20000108, 0x2000010c];
    let requests: Vec<TransferRequest> = addrs
        .iter()
        .flat_map(|&a| vec![TransferRequest::write_ap(AP_REG_TAR, a), TransferRequest::read_ap(AP_REG_DRW)])
        .collect();

    let dap = DapProtocol { dap_index: 0 };
    let cmd = dap.build_transfer_request(&requests);
    assert_eq!(cmd[2], 8);

    let mut fake_resp = vec![0x05u8, 0x08, 0x01];
    let values: [u32; 4] = [0x11111111, 0x22222222, 0x33333333, 0x44444444];
    for v in &values {
        fake_resp.extend_from_slice(&v.to_le_bytes());
    }

    let resp = DapProtocol::parse_transfer_response(&fake_resp).unwrap();
    assert_eq!(resp.data.len(), 4);
    assert_eq!(resp.data, values.to_vec());

    let sample = Sample { seq: 5, timestamp_ns: 250_000, values: resp.data };
    assert!((seconds(sample.timestamp_ns) - 0.00025).abs() < 1e-9);
}

#[test]
fn e2e_ring_buffer_pipeline_simulation() {
    let mut rb = RingBuffer::new(1024);

    for seq in 0..100u64 {
        let sample = Sample {
            seq,
            timestamp_ns: seq * 50_000,
            values: vec![seq as u32 * 10, seq as u32 * 20, seq as u32 * 30, seq as u32 * 40],
        };
        rb.push(sample);
    }

    let mut buf = vec![Sample { seq: 0, timestamp_ns: 0, values: vec![] }; 50];
    let n = rb.pop_batch(&mut buf);
    assert_eq!(n, 50);
    assert_eq!(buf[0].seq, 0);
    assert_eq!(buf[49].seq, 49);

    let n2 = rb.pop_batch(&mut buf);
    assert_eq!(n2, 50);
    assert_eq!(buf[0].seq, 50);
    assert_eq!(buf[49].seq, 99);

    assert_eq!(rb.available(), 0);
}

#[test]
fn e2e_handles_transfer_fault() {
    let fault_resp = [0x05, 0x02, TRANSFER_FAULT, 0x00, 0x00, 0x00, 0x00];
    let resp = DapProtocol::parse_transfer_response(&fault_resp).unwrap();
    assert_eq!(resp.status, TRANSFER_FAULT);
}

#[test]
fn e2e_data_length_mismatch() {
    let short_resp = [0x05, 0x04, 0x01, 0xAA, 0xAA, 0xAA, 0xAA];
    let resp = DapProtocol::parse_transfer_response(&short_resp).unwrap();
    assert_eq!(resp.data.len(), 1);
}

#[test]
fn timestamp_monotonic() {
    let mut prev = -1.0;
    for seq in 0..10000u64 {
        let sample = Sample { seq, timestamp_ns: seq * 50_000, values: vec![] };
        let ts = seconds(sample.timestamp_ns);
        assert!(ts > prev, "Timestamp not monotonic at seq={}", seq);
        prev = ts;
    }
}

#[test]
fn regression_keil_verified_encoding() {
    assert_eq!(req_read_dp(DP_REG_DPIDR), 0x02);
    assert_eq!(req_write_dp(DP_REG_CTRL_STAT), 0x04);
    assert_eq!(req_write_dp(DP_REG_SELECT), 0x08);
    assert_eq!(req_write_ap(AP_REG_TAR), 0x05);
    assert_eq!(req_read_ap(AP_REG_DRW), 0x0F);
}

#[test]
fn regression_transfer_ok_is_0x01() {
    assert_eq!(TRANSFER_OK, 0x01);
}

#[test]
fn regression_ctrl_stat_powerup_bits() {
    assert_eq!(CSYSPWRUPREQ, 1 << 30);
    assert_eq!(CDBGPWRUPREQ, 1 << 28);
    assert_eq!(CSYSPWRUPACK, 1 << 31);
    assert_eq!(CDBGPWRUPACK, 1 << 29);
}

#[test]
fn stress_ring_buffer_200k() {
    let mut rb = RingBuffer::new(200_000);

    for i in 0..300_000u64 {
        rb.push(Sample { seq: i, timestamp_ns: i * 50_000, values: vec![i as u32] });
    }

    assert_eq!(rb.available(), 200_000);
    assert_eq!(rb.total_written(), 200_000);

    let mut buf = vec![Sample { seq: 0, timestamp_ns: 0, values: vec![] }; 200_000];
    let n = rb.pop_batch(&mut buf);
    assert_eq!(n, 200_000);

    for sample in &buf[..n] {
        assert!(sample.values[0] < 200_000, "value {} too new (should have been discarded)", sample.values[0]);
    }

    let mut found: Vec<u32> = buf[..n].iter().map(|s| s.values[0]).collect();
    found.sort();
    let expected: Vec<u32> = (0u32..200_000).collect();
    assert_eq!(found, expected);
}
