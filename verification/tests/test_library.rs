//! Tests of the command-line arguments, the variable browser, the watch
//! values, the acquisition helpers, the probe selection and DAP_Info values.
use dap_sampler::cli::{manual_value_types, parse_address, parse_address_list};
use dap_sampler::dap::commands::{TransferRequest, DAP_TRANSFER};
use dap_sampler::dap::protocol::DapProtocol;
use dap_sampler::elf::{ElfContext, ElfVariable};
use dap_sampler::error::Error;
use dap_sampler::pipeline::engine::{
    build_sampling_command, interval_us_for_rate, max_pending_writes, may_submit,
    sampling_requests, ResponseCollector,
};
use dap_sampler::pipeline::sample::ValueType;
use dap_sampler::ui::controls::{offered_commands, AcquisitionState, ControlPanel};
use dap_sampler::ui::variable_browser::VariableBrowser;
use dap_sampler::ui::watch_panel::{find_by_name, format_integer_value, parse_integer_value};
use dap_sampler::usb::device::{
    find_bulk_endpoints, find_cmsis_dap_interface_number, has_cmsis_dap_interface,
    is_cmsis_dap_candidate, is_cmsis_dap_product, is_known_device, EndpointDesc, InterfaceAlt,
};

// ---------------- command line ----------------

#[test]
fn parse_address_hex_decimal_and_fallback() {
    assert_eq!(parse_address("0x20000100").unwrap(), 0x2000_0100);
    assert_eq!(parse_address("  0X1f ").unwrap(), 0x1f);
    assert_eq!(parse_address("12").unwrap(), 12);
    assert_eq!(parse_address("ff").unwrap(), 0xff);
}

#[test]
fn parse_address_errors() {
    assert_eq!(
        parse_address("0xZZ").err().unwrap(),
        "无效的地址格式 '0xZZ': invalid digit found in string"
    );
    assert_eq!(
        parse_address("").err().unwrap(),
        "无效的地址格式 '': cannot parse integer from empty string"
    );
    assert_eq!(
        parse_address("0x100000000").err().unwrap(),
        "无效的地址格式 '0x100000000': number too large to fit in target type"
    );
}

fn strings(v: &[&str]) -> Vec<String> {
    v.iter().map(|s| s.to_string()).collect()
}

#[test]
fn address_list_rules() {
    assert_eq!(parse_address_list(&strings(&["0x10", "0x20"]), true).unwrap(), vec![0x10, 0x20]);
    assert_eq!(parse_address_list(&[], true).err().unwrap(), "至少需要指定一个内存地址");
    assert_eq!(parse_address_list(&[], false).unwrap(), Vec::<u32>::new());
    let nine = strings(&["1", "2", "3", "4", "5", "6", "7", "8", "9"]);
    assert_eq!(parse_address_list(&nine, false).err().unwrap(), "最多支持 8 个变量，当前: 9");
    assert_eq!(
        parse_address_list(&strings(&["0x10", "zz", "0xq"]), true).err().unwrap(),
        "无效的地址格式 'zz': invalid digit found in string"
    );
}

#[test]
fn manual_types_default_to_uint32() {
    let names = strings(&["float", "I16", "bogus"]);
    let t = manual_value_types(Some(&names[..]), 2);
    assert_eq!(t, vec![ValueType::Float, ValueType::Int16, ValueType::Uint32]);
    assert_eq!(manual_value_types(None, 3), vec![ValueType::Uint32; 3]);
}

// ---------------- variable browser ----------------

fn elf_var(name: &str, path: &str) -> ElfVariable {
    ElfVariable {
        name: name.to_string(),
        path: path.to_string(),
        address: 0x2000_0000,
        byte_size: 4,
        value_type: ValueType::Float,
        parent_path: None,
        source_file: None,
    }
}

fn context() -> ElfContext {
    ElfContext {
        file_path: "fw.elf".to_string(),
        variables: vec![
            elf_var("Motor", "Motor"),
            elf_var("speed", "Motor.speed"),
            elf_var("Ä_Temp", "Ä_Temp"),
            elf_var("count", "count"),
        ],
    }
}

#[test]
fn browser_filters_case_insensitively() {
    let ctx = context();
    let mut b = VariableBrowser::new();
    b.refresh(&ctx);
    assert_eq!(b.filtered(), &vec![0, 1, 2, 3]);
    b.search_text = "MOTOR".to_string();
    b.refresh(&ctx);
    assert_eq!(b.filtered(), &vec![0, 1]);
    b.search_text = "ä_t".to_string();
    b.refresh(&ctx);
    assert_eq!(b.filtered(), &vec![2]);
    b.search_text = "zzz".to_string();
    b.refresh(&ctx);
    assert!(b.filtered().is_empty());
}

#[test]
fn browser_keeps_its_cache_while_nothing_changes() {
    let ctx = context();
    let mut b = VariableBrowser::new();
    b.search_text = "count".to_string();
    b.refresh(&ctx);
    assert_eq!(b.filtered(), &vec![3]);
    let other = ElfContext { file_path: "fw.elf".to_string(), variables: vec![] };
    b.refresh(&other);
    assert_eq!(b.filtered(), &vec![3]);
    let reloaded = ElfContext { file_path: "other.elf".to_string(), variables: vec![] };
    b.refresh(&reloaded);
    assert!(b.filtered().is_empty());
}

#[test]
fn browser_checks_and_clears() {
    let mut b = VariableBrowser::new();
    let p = "Motor.speed".to_string();
    assert_eq!(b.set_checked(&p, true), (p.clone(), true));
    b.set_checked(&p, true);
    b.set_checked(&"count".to_string(), true);
    assert_eq!(b.checked().len(), 2);
    assert!(b.is_checked("Motor.speed"));
    assert_eq!(b.set_checked(&p, false), (p.clone(), false));
    assert!(!b.is_checked("Motor.speed"));
    assert!(b.is_checked("count"));
    b.clear();
    assert!(b.checked().is_empty());
}

// ---------------- watch values ----------------

#[test]
fn integer_values_parse_by_type() {
    assert_eq!(parse_integer_value("1000", ValueType::Uint32), Some(1000));
    assert_eq!(parse_integer_value(" -100 ", ValueType::Int32), Some((-100i32) as u32));
    assert_eq!(parse_integer_value("-1", ValueType::Int8), Some(0xFFFF_FFFF));
    assert_eq!(parse_integer_value("200", ValueType::Uint8), Some(200));
    assert_eq!(parse_integer_value("256", ValueType::Uint8), None);
    assert_eq!(parse_integer_value("-129", ValueType::Int8), None);
    assert_eq!(parse_integer_value("+7", ValueType::Int16), Some(7));
    assert_eq!(parse_integer_value("-1", ValueType::Uint16), None);
    assert_eq!(parse_integer_value("", ValueType::Uint32), None);
    assert_eq!(parse_integer_value("1.5", ValueType::Int32), None);
    assert_eq!(parse_integer_value("4294967296", ValueType::Uint32), None);
}

#[test]
fn integer_values_format_by_type() {
    assert_eq!(format_integer_value(0xFFFF_FFFF, ValueType::Uint32), "4294967295");
    assert_eq!(format_integer_value(0xFFFF_FFFF, ValueType::Int32), "-1");
    assert_eq!(format_integer_value(0x1_8000, ValueType::Int16), "-32768");
    assert_eq!(format_integer_value(0x1_2345, ValueType::Uint16), "9029");
    assert_eq!(format_integer_value(0x1FF, ValueType::Uint8), "255");
    assert_eq!(format_integer_value(0x80, ValueType::Int8), "-128");
}

#[test]
fn watch_entry_found_by_first_name() {
    let names = strings(&["CH1", "CH2", "CH1"]);
    assert_eq!(find_by_name(&names, "CH1"), Some(0));
    assert_eq!(find_by_name(&names, "CH2"), Some(1));
    assert_eq!(find_by_name(&names, "CH3"), None);
}

// ---------------- acquisition ----------------

#[test]
fn interval_for_rate() {
    assert_eq!(interval_us_for_rate(10_000), 100);
    assert_eq!(interval_us_for_rate(3), 333_333);
    assert_eq!(interval_us_for_rate(0), u64::MAX);
}

#[test]
fn in_flight_limit() {
    assert!(may_submit(0, 0));
    assert!(may_submit(1, 0));
    assert!(!may_submit(2, 0));
    assert!(may_submit(5, 4));
    assert!(may_submit(3, 9));
}

#[test]
fn pending_write_budget() {
    assert_eq!(max_pending_writes(16), 24);
    assert_eq!(max_pending_writes(63), 0);
    assert_eq!(max_pending_writes(64), 0);
    assert_eq!(max_pending_writes(100), 0);
}

#[test]
fn sampling_command_puts_writes_first() {
    let reqs = sampling_requests(&[0x2000_0000]);
    let cmd = build_sampling_command(0, &[(0x2000_0010, 0x1234_5678)], &reqs);
    assert_eq!(
        cmd,
        vec![
            DAP_TRANSFER, 0, 4, 0x05, 0x10, 0x00, 0x00, 0x20, 0x0D, 0x78, 0x56, 0x34, 0x12, 0x05,
            0x00, 0x00, 0x00, 0x20, 0x0F
        ]
    );
    let plain = DapProtocol::new().build_transfer_request(&reqs);
    assert_eq!(build_sampling_command(0, &[], &reqs), plain);
    let _ = TransferRequest::read_ap(0x0C);
}

#[test]
fn collector_frames_split_responses() {
    let mut c = ResponseCollector::new(1);
    let mut stream = Vec::new();
    for v in [10u32, 20, 30] {
        stream.extend_from_slice(&[DAP_TRANSFER, 2, 1]);
        stream.extend_from_slice(&v.to_le_bytes());
    }
    stream.extend_from_slice(&[DAP_TRANSFER, 2, 4]);
    stream.extend_from_slice(&0u32.to_le_bytes());
    let first = c.ingest(&stream[..10], 5);
    assert_eq!(first.len(), 1);
    assert_eq!(first[0].values, vec![10]);
    assert_eq!(first[0].timestamp_ns, 5);
    let rest = c.ingest(&stream[10..], 9);
    assert_eq!(rest.len(), 2);
    assert_eq!(rest[0].seq, 1);
    assert_eq!(rest[1].values, vec![30]);
    assert_eq!(c.collected(), 4);
}

#[test]
fn control_panel_clamps_and_tracks_target() {
    let mut p = ControlPanel::new(5, Some(100));
    assert_eq!(p.sample_rate, 5);
    assert_eq!(p.state, AcquisitionState::Idle);
    p.set_running();
    assert_eq!(p.state, AcquisitionState::Running);
    p.update_count(99);
    assert!(!p.target_reached());
    p.update_count(100);
    assert!(p.target_reached());
    p.set_paused();
    assert_eq!(p.state, AcquisitionState::Paused);
    p.set_stopped();
    assert_eq!(p.state, AcquisitionState::Idle);
    let q = ControlPanel::new(1_000_000_000, None);
    assert_eq!(q.sample_rate, 15_000);
    assert_eq!(ControlPanel::new(0, None).sample_rate, 1);
    assert!(!q.target_reached());
}

// ---------------- probes ----------------

fn ep(address: u8, bulk: bool, dir_in: bool) -> EndpointDesc {
    EndpointDesc { address, bulk, dir_in }
}

#[test]
fn probe_selection() {
    assert!(is_known_device(0x0d28, 0x0204));
    assert!(is_known_device(0x0483, 0x374e));
    assert!(!is_known_device(0x1234, 0x5678));
    assert!(is_cmsis_dap_product("MyProbe cmsis-dap v2"));
    assert!(is_cmsis_dap_product("ﬁ cmsis-dap"));
    assert!(!is_cmsis_dap_product("USB Serial"));
    let hid = InterfaceAlt { number: 0, class_code: 0x03, endpoints: vec![ep(0x81, true, true), ep(0x01, true, false)] };
    let vendor = InterfaceAlt {
        number: 2,
        class_code: 0xFF,
        endpoints: vec![ep(0x02, true, false), ep(0x83, false, true), ep(0x82, true, true), ep(0x04, true, false)],
    };
    let half = InterfaceAlt { number: 1, class_code: 0xFF, endpoints: vec![ep(0x85, true, true)] };
    assert!(!is_cmsis_dap_candidate(&hid));
    assert!(!is_cmsis_dap_candidate(&half));
    assert!(is_cmsis_dap_candidate(&vendor));
    let alts = vec![hid, half, vendor];
    assert!(has_cmsis_dap_interface(&alts));
    assert_eq!(find_cmsis_dap_interface_number(&alts).unwrap(), 2);
    assert_eq!(find_bulk_endpoints(&alts).unwrap(), (0x04, 0x82));
    assert!(matches!(find_cmsis_dap_interface_number(&alts[..2]), Err(Error::DeviceNotFound)));
    assert!(matches!(find_bulk_endpoints(&alts[..2]), Err(Error::DeviceNotFound)));
}

#[test]
fn dap_info_values() {
    assert_eq!(DapProtocol::info_string(b"ARM\0\0"), "ARM");
    assert_eq!(DapProtocol::info_string(&[0x41, 0xFF, 0x42]), "A\u{FFFD}B");
    assert_eq!(DapProtocol::info_u16(&[0x00, 0x02]), 512);
    assert_eq!(DapProtocol::info_u16(&[0x40]), 0);
    assert_eq!(DapProtocol::info_u8(&[7, 9]), 7);
    assert_eq!(DapProtocol::info_u8(&[]), 0);
}

// ---------------- laws on concrete values ----------------

#[test]
fn labels_name_their_types() {
    for t in [
        ValueType::Float,
        ValueType::Int32,
        ValueType::Uint32,
        ValueType::Int16,
        ValueType::Uint16,
        ValueType::Int8,
        ValueType::Uint8,
    ] {
        assert_eq!(ValueType::parse(t.label()).unwrap(), t);
    }
}

#[test]
fn shown_integers_parse_back() {
    let cases = [
        (0xFFFF_FFFFu32, ValueType::Int32, 0xFFFF_FFFFu32),
        (0x8000_0000, ValueType::Uint32, 0x8000_0000),
        (0x1_8000, ValueType::Int16, 0xFFFF_8000),
        (0x1_2345, ValueType::Uint16, 0x2345),
        (0x1FF, ValueType::Uint8, 0xFF),
        (0x80, ValueType::Int8, 0xFFFF_FF80),
        (0, ValueType::Int8, 0),
    ];
    for (raw, vt, back) in cases {
        let shown = format_integer_value(raw, vt);
        assert_eq!(parse_integer_value(&shown, vt), Some(back));
    }
}

#[test]
fn little_endian_words_read_back() {
    let mut cmd = vec![0xAAu8];
    dap_sampler::dap::protocol::push_le_u32(&mut cmd, 0x1234_5678);
    assert_eq!(cmd, vec![0xAA, 0x78, 0x56, 0x34, 0x12]);
    assert_eq!(dap_sampler::dap::protocol::read_le_u32(&cmd, 1), 0x1234_5678);
    let mut half = Vec::new();
    dap_sampler::dap::protocol::push_le_u16(&mut half, 0xBEEF);
    assert_eq!(half, vec![0xEF, 0xBE]);
}

#[test]
fn collector_cuts_a_stream_the_same_in_any_pieces() {
    let mut stream = Vec::new();
    for (i, status) in [1u8, 1, 4, 1, 1].iter().enumerate() {
        stream.extend_from_slice(&[DAP_TRANSFER, 4, *status]);
        stream.extend_from_slice(&(100 + i as u32).to_le_bytes());
        stream.extend_from_slice(&(200 + i as u32).to_le_bytes());
    }
    stream.extend_from_slice(&[DAP_TRANSFER, 4]);
    let whole: Vec<(u64, Vec<u32>)> = ResponseCollector::new(2)
        .ingest(&stream, 0)
        .into_iter()
        .map(|s| (s.seq, s.values))
        .collect();
    for cut in [0usize, 1, 5, 11, 12, 30, stream.len()] {
        let mut c = ResponseCollector::new(2);
        let mut parts: Vec<(u64, Vec<u32>)> = c.ingest(&stream[..cut], 1).into_iter().map(|s| (s.seq, s.values)).collect();
        parts.extend(c.ingest(&stream[cut..], 2).into_iter().map(|s| (s.seq, s.values)));
        assert_eq!(parts, whole);
        assert_eq!(c.collected(), 5);
    }
    assert_eq!(whole.len(), 4);
    assert_eq!(whole[2], (3, vec![103, 203]));
}

#[test]
fn collector_cuts_a_stream_the_same_in_three_pieces() {
    let mut stream = Vec::new();
    for (i, status) in [1u8, 2, 1].iter().enumerate() {
        stream.extend_from_slice(&[DAP_TRANSFER, 1, *status]);
        stream.extend_from_slice(&(7 + i as u32).to_le_bytes());
    }
    for (a, b) in [(0usize, 0usize), (2, 9), (6, 8), (7, 14), (1, 20), (21, 21)] {
        let mut c = ResponseCollector::new(1);
        let mut got: Vec<(u64, Vec<u32>)> = Vec::new();
        for (piece, t) in [(&stream[..a], 5u64), (&stream[a..b], 6), (&stream[b..], 7)] {
            got.extend(c.ingest(piece, t).into_iter().map(|s| (s.seq, s.values)));
        }
        assert_eq!(got, vec![(0, vec![7]), (2, vec![9])]);
        assert_eq!(c.collected(), 3);
    }
}

#[test]
fn control_bar_offers_commands_by_state() {
    assert_eq!(offered_commands(AcquisitionState::Idle), (true, false, false));
    assert_eq!(offered_commands(AcquisitionState::Running), (false, true, true));
    assert_eq!(offered_commands(AcquisitionState::Paused), (true, false, true));
}
