use iec104sim_core::data_point::{DataPoint, DataPointMap, DataPointValue};
use iec104sim_core::master::{build_clock_sync_command, MasterError, SboAction, SboEvent, SboPhase, sbo_step, ControlResponse, TlsVersionPolicy, TlsProtocolVersion};
use iec104sim_core::master_app::{
    build_control_frames_double, build_control_frames_setpoint_scaled, build_control_frames_single,
    build_control_frames_step, control_frame, default_qualifier, parse_control_command, point_to_info,
    prepare_raw_apdu, raw_send_result, time_text, ControlCommand, CreateConnectionRequest,
};
use iec104sim_core::parse::{parse_bool, parse_hex_payload, parse_int, parse_u32_value, IntErrorKind};
use iec104sim_core::slave_app::{
    check_state_version, mutate_points, mutated_value, mutation_count, parse_asdu_type, parse_point_value, persist_station,
    build_station, restore_station, server_points_init, station_points_init, MutationDraw, PointsInit,
};
use iec104sim_core::slave::{RandomDraw, Station};
use iec104sim_core::text::hex_of;
use iec104sim_core::types::AsduTypeId;
use iec104sim_core::update::{is_snoozed, should_check, throttle_nanos};

fn request() -> CreateConnectionRequest {
    CreateConnectionRequest {
        target_address: "10.0.0.2".to_string(),
        port: 2405,
        common_addresses: None,
        common_address: None,
        timeout_ms: None,
        use_tls: None,
        ca_file: None,
        cert_file: None,
        key_file: None,
        accept_invalid_certs: None,
        tls_version: None,
        t0: None,
        t1: None,
        t2: None,
        t3: None,
        k: None,
        w: None,
        default_qoi: None,
        default_qcc: None,
        interrogate_period_s: None,
        counter_interrogate_period_s: None,
    }
}

#[test]
fn resolve_cas_fallbacks() {
    let mut r = request();
    assert_eq!(r.resolve_cas(), vec![1]);
    r.common_address = Some(7);
    assert_eq!(r.resolve_cas(), vec![7]);
    r.common_addresses = Some(vec![]);
    assert_eq!(r.resolve_cas(), vec![7]);
    r.common_addresses = Some(vec![3, 4]);
    assert_eq!(r.resolve_cas(), vec![3, 4]);
}

#[test]
fn master_config_from_request() {
    let mut r = request();
    r.common_addresses = Some(vec![9, 2]);
    r.t1 = Some(5);
    r.k = Some(3);
    r.tls_version = Some("tls13_only".to_string());
    r.ca_file = Some("ca.pem".to_string());
    let c = r.master_config();
    assert_eq!(c.target_address, "10.0.0.2");
    assert_eq!(c.port, 2405);
    assert_eq!(c.common_address, 9);
    assert_eq!(c.timeout_ms, 3000);
    assert_eq!(c.t0, 30);
    assert_eq!(c.t1, 5);
    assert_eq!(c.k, 3);
    assert_eq!(c.w, 8);
    assert_eq!(c.tls.version, TlsVersionPolicy::Tls13Only);
    assert_eq!(c.tls.ca_file, "ca.pem");
    assert_eq!(c.tls.version.bounds(), (TlsProtocolVersion::Tls13, Some(TlsProtocolVersion::Tls13)));
    r.tls_version = Some("whatever".to_string());
    assert_eq!(r.master_config().tls.version, TlsVersionPolicy::Auto);
    assert_eq!(TlsVersionPolicy::Auto.bounds(), (TlsProtocolVersion::Tls12, None));
}

#[test]
fn connect_timeout_prefers_t0() {
    let mut c = iec104sim_core::master::MasterConfig::default();
    // t0 (30 s) supersedes the legacy timeout_ms (3000 ms)
    assert_eq!(c.connect_timeout_ms(), 30000);
    c.t0 = 5;
    assert_eq!(c.connect_timeout_ms(), 5000);
    // an unset t0 falls back to timeout_ms
    c.t0 = 0;
    assert_eq!(c.connect_timeout_ms(), 3000);
}

#[test]
fn qualifier_and_control_frames() {
    assert_eq!(default_qualifier("single"), 0);
    assert_eq!(build_control_frames_single(1, 100, true, true, 1, 6)[15], 0x85);
    assert_eq!(build_control_frames_double(1, 100, 2, true, 0, 6)[15], 0x82);
    assert_eq!(build_control_frames_step(1, 100, 1, false, 3, 6)[15], 0x0D);
    let f = build_control_frames_setpoint_scaled(1, 500, -2, true, 3, 6);
    assert_eq!((f[15], f[16], f[17]), (0xFE, 0xFF, 0x83));
}

#[test]
fn control_command_parsing() {
    assert_eq!(parse_control_command("single", "ON", None, false).unwrap(), ControlCommand::Single(true));
    assert_eq!(parse_control_command("double", "2", None, true).unwrap(), ControlCommand::Double(2));
    assert_eq!(parse_control_command("double", "300", None, false).unwrap_err(), "number too large to fit in target type");
    assert_eq!(parse_control_command("setpoint_scaled", "-40", None, false).unwrap(), ControlCommand::SetpointScaled(-40));
    assert_eq!(parse_control_command("setpoint_float", "x", None, false).unwrap(), ControlCommand::SetpointFloat);
    assert_eq!(parse_control_command("bitstring", "0xFF", None, false).unwrap(), ControlCommand::Bitstring(255));
    assert_eq!(parse_control_command("bitstring", "", Some(9), false).unwrap(), ControlCommand::Bitstring(9));
    assert!(parse_control_command("bitstring", "1", None, true).unwrap_err().contains("C_BO_NA_1"));
    assert_eq!(parse_control_command("nope", "1", None, false).unwrap_err(), "unknown command type: nope");
    assert_eq!(parse_control_command("single", "maybe", None, false).unwrap_err(), "invalid bool: maybe");
    let f = control_frame(ControlCommand::Bitstring(0xDEADBEEF), 1, 700, false, 0, 6);
    assert_eq!(f[6], 51);
}

#[test]
fn value_text_parsing() {
    assert_eq!(parse_u32_value("  0x1F "), Some(31));
    assert_eq!(parse_u32_value("0X+10"), Some(16));
    assert_eq!(parse_u32_value("4294967295"), Some(u32::MAX));
    assert_eq!(parse_u32_value("4294967296"), None);
    assert_eq!(parse_u32_value("12a"), None);
    assert_eq!(parse_u32_value(""), None);
    assert_eq!(parse_bool("1"), Ok(true));
    assert_eq!(parse_bool("OFF"), Ok(false));
    assert_eq!(parse_bool("on"), Err("invalid bool: on".to_string()));
    assert_eq!(parse_int("", true, -128, 127), Err(IntErrorKind::Empty));
    assert_eq!(parse_int("-", true, -128, 127), Err(IntErrorKind::InvalidDigit));
    assert_eq!(parse_int("-129", true, -128, 127), Err(IntErrorKind::NegOverflow));
    assert_eq!(parse_int("+127", true, -128, 127), Ok(127));
    assert_eq!(parse_int("-1", false, 0, 255), Err(IntErrorKind::InvalidDigit));
}

#[test]
fn hex_payload_parsing() {
    assert_eq!(parse_hex_payload("68 04-07:00,00 00").unwrap(), vec![0x68, 4, 7, 0, 0, 0]);
    assert_eq!(parse_hex_payload("").unwrap_err(), "十六进制串为空");
    assert_eq!(parse_hex_payload("abc").unwrap_err(), "十六进制位数为奇数 (3 位),需为偶数");
    assert_eq!(parse_hex_payload("6g").unwrap_err(), "十六进制串包含非法字符 'g'");
    let bytes = vec![0x68, 0x04, 0x43, 0x00, 0x00, 0x00];
    assert_eq!(parse_hex_payload(&hex_of(&bytes)).unwrap(), bytes);
}

#[test]
fn raw_apdu_checks() {
    assert_eq!(prepare_raw_apdu("68 04 07 00 00 00").unwrap(), vec![0x68, 4, 7, 0, 0, 0]);
    assert_eq!(
        prepare_raw_apdu("68 04 07").unwrap_err(),
        "APDU 长度过短 (3 字节),至少需要 6 字节(STARTBYTE+LEN+4 字节控制域)"
    );
    assert_eq!(prepare_raw_apdu("69 04 07 00 00 00").unwrap_err(), "APDU 起始字节应为 0x68,实际为 0x69");
    assert_eq!(
        prepare_raw_apdu("68 05 07 00 00 00").unwrap_err(),
        "APDU 长度字段不匹配: LEN=5 (期望总长 7),实际总长 6"
    );
    let r = raw_send_result(&vec![0x68, 0x04, 0x07, 0x00, 0x00, 0x00], 3_723_004);
    assert_eq!(r.sent_hex, "68 04 07 00 00 00");
    assert_eq!(r.byte_len, 6);
    assert_eq!(r.timestamp, "01:02:03.004");
}

#[test]
fn time_of_day_text() {
    assert_eq!(time_text(0), "00:00:00.000");
    assert_eq!(time_text(86_399_999), "23:59:59.999");
    assert_eq!(time_text(-1), "23:59:59.999");
    assert_eq!(time_text(1_700_000_000_123), "22:13:20.123");
}

#[test]
fn received_point_row() {
    let mut p = DataPoint::with_value(5, AsduTypeId::MMeNb1, DataPointValue::Scaled { value: 3 });
    p.timestamp = Some(61_000);
    p.update_seq = 9;
    let row = point_to_info(2, &p, "3".to_string());
    assert_eq!(row.ioa, 5);
    assert_eq!(row.common_address, 2);
    assert_eq!(row.asdu_type, "M_ME_NB_1");
    assert_eq!(row.value, "3");
    assert_eq!(row.timestamp.as_deref(), Some("00:01:01.000"));
    assert_eq!(row.update_seq, 9);
}

#[test]
fn sbo_exchange_decisions() {
    let ok = ControlResponse { ioa: 1, asdu_type: 45, cot: 7, positive: true };
    let other = ControlResponse { ioa: 2, asdu_type: 45, cot: 7, positive: true };
    let neg = ControlResponse { ioa: 1, asdu_type: 45, cot: 7, positive: false };
    let (p, a) = sbo_step(SboPhase::AwaitSelect, 1, &SboEvent::Response(other));
    assert_eq!(p, SboPhase::AwaitSelect);
    assert!(matches!(a, SboAction::Wait));
    let (p, a) = sbo_step(SboPhase::AwaitSelect, 1, &SboEvent::Response(ok));
    assert_eq!(p, SboPhase::AwaitExecute);
    assert!(matches!(a, SboAction::SendExecute));
    let (p, a) = sbo_step(SboPhase::AwaitExecute, 1, &SboEvent::Response(ok));
    assert_eq!(p, SboPhase::Done);
    assert!(matches!(a, SboAction::Finish));
    let (_, a) = sbo_step(SboPhase::AwaitSelect, 1, &SboEvent::Response(neg));
    match a {
        SboAction::Fail(MasterError::SendError(m)) => assert_eq!(m, "选择被拒绝 (否定确认)"),
        _ => panic!("expected a failure"),
    }
    let (_, a) = sbo_step(SboPhase::AwaitExecute, 1, &SboEvent::Timeout);
    match a {
        SboAction::Fail(e) => assert_eq!(e.message(), "send error: 执行确认超时 (5s)"),
        _ => panic!("expected a failure"),
    }
    // once over, nothing changes any more
    let (p, a) = sbo_step(SboPhase::Done, 1, &SboEvent::Response(ok));
    assert_eq!(p, SboPhase::Done);
    assert!(matches!(a, SboAction::Wait));
}

#[test]
fn asdu_type_names_and_modes() {
    assert_eq!(parse_asdu_type("m_me_nc_1"), Ok(AsduTypeId::MMeNc1));
    assert_eq!(parse_asdu_type("MItNa1"), Ok(AsduTypeId::MItNa1));
    assert_eq!(parse_asdu_type("x"), Err("unknown ASDU type: x".to_string()));
    assert_eq!(server_points_init(&None), PointsInit::Default);
    assert_eq!(server_points_init(&Some("random".to_string())), PointsInit::Random);
    assert_eq!(station_points_init(&Some("zero".to_string())), PointsInit::Default);
    assert_eq!(station_points_init(&Some("other".to_string())), PointsInit::Empty);
    assert!(check_state_version(1).is_ok());
    assert_eq!(check_state_version(2).unwrap_err(), "unsupported state version: 2");
}

#[test]
fn typed_values_and_mutation() {
    let sp = DataPointValue::SinglePoint { value: false };
    assert_eq!(parse_point_value(&sp, "on").unwrap(), DataPointValue::SinglePoint { value: true });
    assert_eq!(parse_point_value(&sp, "x").unwrap_err(), "invalid bool: x");
    let it = DataPointValue::IntegratedTotal { value: 0, carry: true, sequence: 2 };
    assert_eq!(
        parse_point_value(&it, "-5").unwrap(),
        DataPointValue::IntegratedTotal { value: -5, carry: true, sequence: 2 }
    );
    let bs = DataPointValue::Bitstring { value: 0 };
    assert_eq!(parse_point_value(&bs, "1").unwrap_err(), "unsupported value type");
    assert_eq!(mutation_count(2), 2);
    assert_eq!(mutation_count(5), 3);
    assert_eq!(mutation_count(80), 24);
    let d = MutationDraw { scaled_delta: 50, total_delta: 7, normalized_raw: 1, float_bits: 2 };
    assert_eq!(mutated_value(&DataPointValue::DoublePoint { value: 1 }, &d), DataPointValue::DoublePoint { value: 2 });
    assert_eq!(mutated_value(&DataPointValue::Scaled { value: 32760 }, &d), DataPointValue::Scaled { value: 32767 });
    assert_eq!(
        mutated_value(&DataPointValue::IntegratedTotal { value: 1, carry: false, sequence: 0 }, &d),
        DataPointValue::IntegratedTotal { value: 8, carry: false, sequence: 0 }
    );
}

#[test]
fn stations_save_and_restore() {
    let mut st = Station::new(4, "four");
    st.batch_add_points(1, 3, AsduTypeId::MSpNa1, "P").unwrap();
    let saved = persist_station(&st);
    assert_eq!(saved.object_defs.len(), 3);
    let back = restore_station(&saved);
    assert_eq!(back.common_address, 4);
    assert_eq!(back.name, "four");
    assert_eq!(back.data_points.len(), 3);
    assert_eq!(back.object_defs[1].name, "P2");
}

#[test]
fn update_throttle_and_snooze() {
    let h = throttle_nanos();
    assert!(should_check(None, 0, h));
    assert!(!should_check(Some(10), 10 + h - 1, h));
    assert!(should_check(Some(10), 10 + h, h));
    assert!(is_snoozed(Some("1.2.0"), Some(100), "1.2.0", 99));
    assert!(!is_snoozed(Some("1.2.0"), Some(100), "1.2.0", 100));
    assert!(!is_snoozed(Some("1.1.0"), Some(100), "1.2.0", 0));
    assert!(!is_snoozed(None, Some(100), "1.2.0", 0));
}

#[test]
fn station_rows_carry_definitions() {
    let mut st = Station::new(4, "four");
    st.batch_add_points(1, 2, AsduTypeId::MSpNa1, "P").unwrap();
    st.batch_add_points(1, 1, AsduTypeId::MMeNb1, "").unwrap();
    let texts: Vec<String> = vec!["OFF".to_string(), "0".to_string(), "OFF".to_string()];
    let rows = iec104sim_core::slave_app::point_rows(&st, &texts);
    assert_eq!(rows.len(), 3);
    // key order: (1, M_SP_NA_1), (1, M_ME_NB_1), (2, M_SP_NA_1)
    assert_eq!((rows[0].ioa, rows[0].asdu_type.as_str(), rows[0].name.as_str()), (1, "M_SP_NA_1", "P1"));
    assert_eq!((rows[1].ioa, rows[1].asdu_type.as_str(), rows[1].name.as_str()), (1, "M_ME_NB_1", ""));
    assert_eq!(rows[1].value, "0");
    assert_eq!((rows[2].ioa, rows[2].name.as_str()), (2, "P2"));
    assert!(rows.iter().all(|r| r.timestamp.is_some() && !r.quality_iv));
}

#[test]
fn connection_listing_echoes_configuration() {
    let cfg = request().master_config();
    let info = iec104sim_core::master_app::connection_info("conn_7", &cfg, vec![1, 2], "Connected");
    assert_eq!(info.id, "conn_7");
    assert_eq!(info.target_address, "10.0.0.2");
    assert_eq!(info.port, 2405);
    assert_eq!(info.common_addresses, vec![1, 2]);
    assert_eq!(info.state, "Connected");
    assert_eq!((info.t0, info.t1, info.t2, info.t3, info.k, info.w), (30, 15, 10, 20, 12, 8));
    assert!(!info.use_tls);
}

#[test]
fn mutation_changes_the_picked_points() {
    let mut m = DataPointMap::new();
    let mut p = DataPoint::new(1, AsduTypeId::MSpNa1);
    p.value = DataPointValue::SinglePoint { value: false };
    m.insert(p);
    let mut p = DataPoint::new(2, AsduTypeId::MMeNb1);
    p.value = DataPointValue::Scaled { value: 100 };
    m.insert(p);
    let mut p = DataPoint::new(3, AsduTypeId::MItNa1);
    p.value = DataPointValue::IntegratedTotal { value: 10, carry: false, sequence: 2 };
    m.insert(p);
    let mut p = DataPoint::new(4, AsduTypeId::MDpNa1);
    p.value = DataPointValue::DoublePoint { value: 1 };
    m.insert(p);
    let draw = |total_delta: i32| MutationDraw { scaled_delta: -7, total_delta, normalized_raw: 0, float_bits: 0 };
    let order: Vec<usize> = vec![3, 0, 2, 1];
    let draws = vec![draw(0), draw(0), draw(42)];
    let changed = mutate_points(&mut m, &order, &draws, 1_234);
    assert_eq!(changed, vec![(4, AsduTypeId::MDpNa1), (1, AsduTypeId::MSpNa1), (3, AsduTypeId::MItNa1)]);
    assert_eq!(m.get(4, AsduTypeId::MDpNa1).unwrap().value, DataPointValue::DoublePoint { value: 2 });
    assert_eq!(m.get(1, AsduTypeId::MSpNa1).unwrap().value, DataPointValue::SinglePoint { value: true });
    let counter = m.get(3, AsduTypeId::MItNa1).unwrap();
    assert_eq!(counter.value, DataPointValue::IntegratedTotal { value: 52, carry: false, sequence: 2 });
    assert_eq!(counter.timestamp, Some(1_234));
    let untouched = m.get(2, AsduTypeId::MMeNb1).unwrap();
    assert_eq!(untouched.value, DataPointValue::Scaled { value: 100 });
    assert_ne!(untouched.timestamp, Some(1_234));
    assert_eq!(m.len(), 4);
}

#[test]
fn new_server_station_layouts() {
    let s = build_station(1, "", PointsInit::Default, &Vec::new());
    assert_eq!(s.common_address, 1);
    assert_eq!(s.name, "");
    assert_eq!(s.data_points.len(), 80);
    assert_eq!(s.object_defs.len(), 80);
    assert_eq!(s.data_points.get(1, AsduTypeId::MSpNa1).unwrap().value, DataPointValue::SinglePoint { value: false });
    assert!(s.data_points.get(11, AsduTypeId::MDpNa1).is_some());
    assert!(s.data_points.get(80, AsduTypeId::MItNa1).is_some());
    assert!(s.data_points.get(81, AsduTypeId::MItNa1).is_none());
    let draws: Vec<RandomDraw> = (0..80)
        .map(|i| RandomDraw { single: true, double: 2, normalized: 0, scaled: i as i16, float_bits: 0, total: 7 })
        .collect();
    let r = build_station(2, "x", PointsInit::Random, &draws);
    assert_eq!(r.data_points.len(), 80);
    assert_eq!(r.data_points.get(1, AsduTypeId::MSpNa1).unwrap().value, DataPointValue::SinglePoint { value: true });
    assert_eq!(r.data_points.get(11, AsduTypeId::MDpNa1).unwrap().value, DataPointValue::DoublePoint { value: 2 });
    assert_eq!(r.data_points.get(80, AsduTypeId::MItNa1).unwrap().value,
        DataPointValue::IntegratedTotal { value: 7, carry: false, sequence: 0 });
    let e = build_station(3, "y", PointsInit::Empty, &Vec::new());
    assert_eq!(e.data_points.len(), 0);
    assert!(e.object_defs.is_empty());
}

#[test]
fn clock_sync_command_carries_the_time() {
    let f = build_clock_sync_command(7).expect("the clock reads after 1970");
    assert_eq!(f.len(), 22);
    assert_eq!(&f[..12], &[0x68, 0x14, 0, 0, 0, 0, 103, 1, 6, 0, 7, 0]);
    assert!(f[20] >= 1 && f[20] <= 12);
    assert!(f[19] >= 1 && f[19] <= 31);
    assert!(f[18] <= 23 && f[17] <= 59);
}
