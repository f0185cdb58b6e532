//! Tests of the SWD bring-up decisions and of memory reads.
use dap_sampler::dap::commands::{TransferResponse, DAP_DISCONNECT, DAP_INFO, DAP_TRANSFER};
use dap_sampler::dap::protocol::DapProtocol;
use dap_sampler::dap::swd::{
    memory_value, memory_values, read_memory_batch_requests, read_memory_requests, InitPhase,
    SwdAction, SwdInit,
};
use dap_sampler::error::Error;

fn transfer_reply(count: u8, status: u8, words: &[u32]) -> Vec<u8> {
    let mut r = vec![DAP_TRANSFER, count, status];
    for w in words {
        r.extend_from_slice(&w.to_le_bytes());
    }
    r
}

fn command_of(a: &SwdAction) -> Vec<u8> {
    match a {
        SwdAction::Exchange { command, .. } => command.clone(),
        _ => panic!("expected an exchange"),
    }
}

/// Runs the bring-up up to the phase after the host status, with good replies.
fn up_to_dpidr() -> SwdInit {
    let (mut m, a) = SwdInit::start(DapProtocol::new());
    assert_eq!(command_of(&a), vec![DAP_DISCONNECT]);
    match &a {
        SwdAction::Exchange { tolerant, pause_ms, .. } => {
            assert!(*tolerant);
            assert_eq!(*pause_ms, 100);
        }
        _ => panic!(),
    }
    let a = m.step(&[]);
    assert_eq!(command_of(&a), vec![DAP_INFO, 0x01]);
    let ids = [0x02u8, 0x03, 0x04, 0xFF, 0xFE];
    for id in ids {
        let a = m.step(&[DAP_INFO, 4, b'a', b'b', 0, 0]);
        assert_eq!(command_of(&a), vec![DAP_INFO, id]);
    }
    let a = m.step(&[DAP_INFO, 1, 64]);
    assert_eq!(command_of(&a), vec![0x02, 0x00]);
    assert_eq!(m.info.vendor, "ab");
    assert_eq!(m.info.fw_version, "ab");
    assert_eq!(m.info.packet_size, 0x6261);
    assert_eq!(m.info.packet_count, 64);
    let a = m.step(&[0x02, 0x01]);
    assert_eq!(command_of(&a), vec![0x11, 0x80, 0x96, 0x98, 0x00]);
    let a = m.step(&[0x11, 0x00]);
    assert_eq!(command_of(&a), vec![0x04, 0x00, 100, 0, 0, 0]);
    let a = m.step(&[0x04, 0x00]);
    assert_eq!(command_of(&a), vec![0x13, 0x00]);
    let a = m.step(&[0x13, 0x00]);
    assert_eq!(command_of(&a), vec![0x01, 0x00, 0x01]);
    let a = m.step(&[0x01, 0x00]);
    assert_eq!(command_of(&a), vec![DAP_TRANSFER, 0, 1, 0x02]);
    assert_eq!(m.phase, InitPhase::ReadDpidr);
    m
}

#[test]
fn bring_up_succeeds_with_good_replies() {
    let mut m = up_to_dpidr();
    let a = m.step(&transfer_reply(1, 1, &[0x2BA0_1477]));
    assert_eq!(command_of(&a), vec![DAP_TRANSFER, 0, 1, 0x02]);
    assert_eq!(m.dpidr, 0x2BA0_1477);
    let a = m.step(&transfer_reply(1, 1, &[0x2BA0_1477]));
    assert_eq!(command_of(&a), vec![DAP_TRANSFER, 0, 1, 0x0E]);
    let a = m.step(&transfer_reply(1, 1, &[0]));
    assert_eq!(command_of(&a), vec![DAP_TRANSFER, 0, 1, 0x04, 0x00, 0x00, 0x00, 0x50]);
    let a = m.step(&transfer_reply(1, 1, &[]));
    assert_eq!(command_of(&a), vec![DAP_TRANSFER, 0, 1, 0x06]);
    let a = m.step(&transfer_reply(1, 1, &[0xF000_0040]));
    assert_eq!(m.ctrl_stat, 0xF000_0040);
    assert_eq!(command_of(&a), vec![DAP_TRANSFER, 0, 1, 0x0E]);
    let a = m.step(&transfer_reply(1, 1, &[0]));
    assert_eq!(command_of(&a), vec![DAP_TRANSFER, 0, 1, 0x08, 0, 0, 0, 0]);
    let a = m.step(&transfer_reply(1, 1, &[]));
    assert_eq!(command_of(&a), vec![DAP_TRANSFER, 0, 1, 0x08, 0, 0, 0, 0]);
    let a = m.step(&transfer_reply(1, 1, &[]));
    assert_eq!(command_of(&a), vec![DAP_TRANSFER, 0, 1, 0x0F]);
    let a = m.step(&transfer_reply(1, 1, &[0x2477_0011]));
    assert_eq!(m.ap_idr, 0x2477_0011);
    assert_eq!(
        command_of(&a),
        vec![DAP_TRANSFER, 0, 2, 0x05, 0, 0, 0, 0, 0x0F]
    );
    match &a {
        SwdAction::Exchange { tolerant, pause_ms, .. } => {
            assert!(*tolerant);
            assert_eq!(*pause_ms, 0);
        }
        _ => panic!(),
    }
    match m.step(&[]) {
        SwdAction::Done(info) => {
            assert_eq!(info.dpidr, 0x2BA0_1477);
            assert_eq!(info.ap_idr, 0x2477_0011);
            assert_eq!(info.target_info, "Cortex-M DPIDR=0x2BA01477");
        }
        _ => panic!("expected the end of the bring-up"),
    }
    assert_eq!(m.phase, InitPhase::Finished);
}

#[test]
fn bring_up_stops_on_short_info_reply() {
    let (mut m, _) = SwdInit::start(DapProtocol::new());
    m.step(&[]);
    match m.step(&[DAP_INFO]) {
        SwdAction::Fail(Error::InvalidResponse(msg)) => assert_eq!(msg, "DAP_Info 响应过短"),
        _ => panic!(),
    }
    assert_eq!(m.phase, InitPhase::Finished);
}

#[test]
fn bring_up_stops_on_refused_transfer_configure() {
    let (mut m, _) = SwdInit::start(DapProtocol::new());
    m.step(&[]);
    for _ in 0..6 {
        m.step(&[DAP_INFO, 0]);
    }
    m.step(&[0x02, 0x01]);
    m.step(&[0x11, 0x00]);
    match m.step(&[0x04, 0xFF]) {
        SwdAction::Fail(Error::InvalidResponse(msg)) => {
            assert_eq!(msg, "DAP_TransferConfigure 失败: 状态=255")
        }
        _ => panic!(),
    }
}

#[test]
fn bring_up_stops_on_dpidr_fault() {
    let mut m = up_to_dpidr();
    match m.step(&transfer_reply(0, 4, &[])) {
        SwdAction::Fail(Error::TransferFailed(status, count)) => {
            assert_eq!(status, 4);
            assert_eq!(count, 0);
        }
        _ => panic!(),
    }
}

#[test]
fn bring_up_stops_on_short_transfer_reply() {
    let mut m = up_to_dpidr();
    match m.step(&[DAP_TRANSFER, 1]) {
        SwdAction::Fail(Error::InvalidResponse(msg)) => {
            assert_eq!(msg, "DAP_Transfer 响应过短: 2 字节")
        }
        _ => panic!(),
    }
}

fn up_to_power(mut m: SwdInit) -> SwdInit {
    m.step(&transfer_reply(1, 1, &[0x0BC1_1477]));
    m.step(&transfer_reply(1, 1, &[0x0BC1_1477]));
    m.step(&transfer_reply(1, 1, &[0]));
    assert_eq!(m.phase, InitPhase::PowerRequest);
    m
}

#[test]
fn bring_up_stops_on_refused_power_request() {
    let mut m = up_to_power(up_to_dpidr());
    match m.step(&transfer_reply(0, 2, &[])) {
        SwdAction::Fail(Error::Swd(msg)) => assert_eq!(msg, "电源上电请求失败: status=2, count=0"),
        _ => panic!(),
    }
}

#[test]
fn bring_up_stops_when_power_does_not_come_up() {
    let mut m = up_to_power(up_to_dpidr());
    m.step(&transfer_reply(1, 1, &[]));
    m.step(&transfer_reply(1, 1, &[0x5000_0000]));
    match m.step(&transfer_reply(1, 1, &[0])) {
        SwdAction::Fail(Error::Swd(msg)) => assert_eq!(msg, "调试电源未就绪: CTRL/STAT=0x50000000"),
        _ => panic!(),
    }
}

#[test]
fn bring_up_stops_when_no_ap_answers() {
    let mut m = up_to_power(up_to_dpidr());
    m.step(&transfer_reply(1, 1, &[]));
    m.step(&transfer_reply(1, 1, &[0xA000_0000]));
    m.step(&transfer_reply(1, 1, &[0]));
    m.step(&transfer_reply(1, 1, &[]));
    m.step(&transfer_reply(1, 1, &[]));
    match m.step(&transfer_reply(1, 1, &[])) {
        SwdAction::Fail(Error::Swd(msg)) => assert_eq!(msg, "AP 扫描失败"),
        _ => panic!(),
    }
}

#[test]
fn bring_up_stops_on_refused_select() {
    let mut m = up_to_power(up_to_dpidr());
    m.step(&transfer_reply(1, 1, &[]));
    m.step(&transfer_reply(1, 1, &[0xA000_0000]));
    m.step(&transfer_reply(1, 1, &[0]));
    match m.step(&transfer_reply(0, 4, &[])) {
        SwdAction::Fail(Error::Swd(msg)) => assert_eq!(msg, "写 SELECT 失败"),
        _ => panic!(),
    }
}

#[test]
fn memory_read_requests_write_tar_then_read_drw() {
    let r = read_memory_requests(0x2000_0100);
    assert_eq!(r.len(), 2);
    assert!(!r[0].rnw && r[0].apndp && r[0].reg_addr == 0x04);
    assert_eq!(r[0].write_data, Some(0x2000_0100));
    assert!(r[1].rnw && r[1].apndp && r[1].reg_addr == 0x0C);
}

#[test]
fn memory_batch_reads_at_most_eight_addresses() {
    let addrs: Vec<u32> = (0..10).map(|i| 0x2000_0000 + 4 * i).collect();
    let r = read_memory_batch_requests(&addrs);
    assert_eq!(r.len(), 16);
    assert_eq!(r[14].write_data, Some(0x2000_001C));
    let r = read_memory_batch_requests(&addrs[..3]);
    assert_eq!(r.len(), 6);
}

#[test]
fn memory_value_checks_the_status() {
    let ok = TransferResponse { status: 1, count: 2, data: vec![0xDEAD_BEEF] };
    assert_eq!(memory_value(&ok).unwrap(), 0xDEAD_BEEF);
    let empty = TransferResponse { status: 1, count: 2, data: vec![] };
    assert_eq!(memory_value(&empty).unwrap(), 0);
    let fault = TransferResponse { status: 4, count: 1, data: vec![] };
    assert!(matches!(memory_value(&fault), Err(Error::TransferFailed(4, 1))));
    let ok = TransferResponse { status: 1, count: 4, data: vec![1, 2] };
    assert_eq!(memory_values(ok).unwrap(), vec![1, 2]);
    let wait = TransferResponse { status: 2, count: 0, data: vec![] };
    assert!(matches!(memory_values(wait), Err(Error::TransferFailed(2, 0))));
}
