use iec104sim_core::data_point::DataPointValue;
use iec104sim_core::decode::{decode_cp56time2a, parse_frame_full, ParsedApci};
use iec104sim_core::frame::UFrameKind;

#[test]
fn test_u_frame_startdt_act() {
    let bytes = [0x68, 0x04, 0x07, 0x00, 0x00, 0x00];
    let p = parse_frame_full(&bytes).unwrap();
    assert!(p.asdu.is_none());
    match p.apci {
        ParsedApci::U { kind, .. } => assert_eq!(kind, UFrameKind::StartDtAct),
        _ => panic!("expected U-frame"),
    }
}

#[test]
fn test_s_frame() {
    // recv_seq = 5
    let bytes = [0x68, 0x04, 0x01, 0x00, 0x0A, 0x00];
    let p = parse_frame_full(&bytes).unwrap();
    match p.apci {
        ParsedApci::S { recv_seq } => assert_eq!(recv_seq, 5),
        _ => panic!("expected S-frame"),
    }
}

#[test]
fn test_i_frame_m_me_nc_1() {
    // I-frame: send=0 recv=0; ASDU: type=13(M_ME_NC_1) VSQ=1 COT=3 OA=0 CA=1
    // IOA=1 (3 bytes LE) + float 1.5 (4 bytes LE) + QDS=0
    let mut bytes = vec![0x68, 0x10, 0x00, 0x00, 0x00, 0x00];
    bytes.extend_from_slice(&[0x0D, 0x01, 0x03, 0x00, 0x01, 0x00]);
    bytes.extend_from_slice(&[0x01, 0x00, 0x00]);
    bytes.extend_from_slice(&1.5f32.to_le_bytes());
    bytes.push(0x00);
    let p = parse_frame_full(&bytes).unwrap();
    let asdu = p.asdu.expect("I-frame must have ASDU");
    assert_eq!(asdu.type_id, 13);
    assert_eq!(asdu.type_label, "M_ME_NC_1");
    assert_eq!(asdu.cot, 3);
    assert_eq!(asdu.common_address, 1);
    assert_eq!(asdu.objects.len(), 1);
    let obj = &asdu.objects[0];
    assert_eq!(obj.ioa, 1);
    match obj.value.as_ref().unwrap() {
        DataPointValue::ShortFloat { bits } => assert!((f32::from_bits(*bits) - 1.5).abs() < 1e-6),
        _ => panic!("expected ShortFloat"),
    }
    assert!(obj.quality.is_some());
    assert!(obj.timestamp.is_none());
}

#[test]
fn test_i_frame_sq_multiple_points() {
    // M_SP_NA_1 (type=1) SQ=1 with 3 single-points, base IOA=10
    // SIQ bytes: 0x01, 0x00, 0x01
    let mut bytes = vec![0x68, 0x0E, 0x00, 0x00, 0x00, 0x00];
    bytes.extend_from_slice(&[0x01, 0x83, 0x14, 0x00, 0x01, 0x00]); // VSQ = 0x80|3
    bytes.extend_from_slice(&[0x0A, 0x00, 0x00]); // IOA=10
    bytes.extend_from_slice(&[0x01, 0x00, 0x01]); // 3 SIQ values
    let p = parse_frame_full(&bytes).unwrap();
    let asdu = p.asdu.unwrap();
    assert!(asdu.sq);
    assert_eq!(asdu.cot, 0x14);
    assert_eq!(asdu.objects.len(), 3);
    assert_eq!(asdu.objects[0].ioa, 10);
    assert_eq!(asdu.objects[1].ioa, 11);
    assert_eq!(asdu.objects[2].ioa, 12);
    assert!(matches!(asdu.objects[0].value, Some(DataPointValue::SinglePoint { value: true })));
    assert!(matches!(asdu.objects[1].value, Some(DataPointValue::SinglePoint { value: false })));
}

#[test]
fn test_i_frame_with_cp56time2a() {
    // M_ME_TF_1 (type=36): float + QDS + CP56Time2a
    // year 2026 → raw 26 (0x1A), month 4, day 29, hour 12, min 30, ms 1000
    let mut bytes = vec![0x68, 0x17, 0x00, 0x00, 0x00, 0x00];
    bytes.extend_from_slice(&[0x24, 0x01, 0x03, 0x00, 0x01, 0x00]); // type 36, VSQ=1, COT=3, CA=1
    bytes.extend_from_slice(&[0x05, 0x00, 0x00]); // IOA=5
    bytes.extend_from_slice(&3.14f32.to_le_bytes());
    bytes.push(0x00); // QDS
    // CP56Time2a: ms=1000(0x03 0xE8), min=30, hour=12, day=29, month=4, year=26
    bytes.extend_from_slice(&[0xE8, 0x03, 30, 12, 29, 4, 26]);
    let p = parse_frame_full(&bytes).unwrap();
    let asdu = p.asdu.unwrap();
    assert_eq!(asdu.objects.len(), 1);
    let ts = asdu.objects[0].timestamp.unwrap();
    assert_eq!(ts.year, 2026);
    assert_eq!(ts.month, 4);
    assert_eq!(ts.day, 29);
    assert_eq!(ts.hour, 12);
    assert_eq!(ts.minute, 30);
    assert_eq!(ts.millisecond, 1000);
}

#[test]
fn test_i_frame_c_sc_na_1_control() {
    // C_SC_NA_1 type 45, COT=7 (act-con) negative=0
    let mut bytes = vec![0x68, 0x0E, 0x00, 0x00, 0x00, 0x00];
    bytes.extend_from_slice(&[0x2D, 0x01, 0x07, 0x00, 0x01, 0x00]);
    bytes.extend_from_slice(&[0x64, 0x00, 0x00]); // IOA=100
    bytes.push(0x01); // SCO: ON
    let p = parse_frame_full(&bytes).unwrap();
    let asdu = p.asdu.unwrap();
    assert_eq!(asdu.type_id, 45);
    assert_eq!(asdu.cot, 7);
    assert_eq!(asdu.cot_name, "激活确认");
    assert!(!asdu.negative);
    assert_eq!(asdu.objects.len(), 1);
    assert_eq!(asdu.objects[0].ioa, 100);
    assert!(matches!(asdu.objects[0].value, Some(DataPointValue::SinglePoint { value: true })));
}

#[test]
fn test_invalid_start_byte() {
    let bytes = [0x69, 0x04, 0x07, 0x00, 0x00, 0x00];
    let err = parse_frame_full(&bytes).unwrap_err();
    assert!(err.contains("start byte"));
}

#[test]
fn test_too_short() {
    let bytes = [0x68, 0x04, 0x07];
    assert!(parse_frame_full(&bytes).is_err());
}

#[test]
fn test_unknown_asdu_type_warns() {
    // I-frame with type 99 (unknown), VSQ=1
    let bytes = vec![
        0x68, 0x0E, 0x00, 0x00, 0x00, 0x00,
        0x63, 0x01, 0x03, 0x00, 0x01, 0x00,
        0x01, 0x00, 0x00, 0xFF,
    ];
    let p = parse_frame_full(&bytes).unwrap();
    let asdu = p.asdu.unwrap();
    assert_eq!(asdu.type_id, 99);
    assert!(asdu.type_label.starts_with("Type"));
    assert!(asdu.objects.is_empty());
    assert!(p.warnings.iter().any(|w| w.contains("unsupported ASDU type 99")));
}

#[test]
fn test_apdu_length_mismatch_warns() {
    // length field says 0x10 but we only give 8 bytes
    let bytes = [0x68, 0x10, 0x07, 0x00, 0x00, 0x00];
    let p = parse_frame_full(&bytes).unwrap();
    assert!(p.warnings.iter().any(|w| w.contains("APDU length")));
}

#[test]
fn cp56time2a_fields_and_short_buffer() {
    let t = decode_cp56time2a(&[0xE8, 0x03, 0x9E, 0x8C, 0x5D, 0x04, 0x1A]).unwrap();
    assert_eq!(t.millisecond, 1000);
    assert_eq!(t.minute, 30);
    assert!(t.invalid);
    assert_eq!(t.hour, 12);
    assert!(t.summer_time);
    assert_eq!(t.day, 29);
    assert_eq!(t.day_of_week, 2);
    assert_eq!(t.month, 4);
    assert_eq!(t.year, 2026);
    assert!(decode_cp56time2a(&[0, 1, 2]).is_none());
}

#[test]
fn step_position_is_sign_extended_by_the_analyser() {
    // M_ST_NA_1 with VTI 0x7F (-1) and QDS 0
    let bytes = vec![
        0x68, 0x0F, 0x00, 0x00, 0x00, 0x00,
        0x05, 0x01, 0x03, 0x00, 0x01, 0x00,
        0x02, 0x00, 0x00, 0x7F, 0x00,
    ];
    let p = parse_frame_full(&bytes).unwrap();
    let asdu = p.asdu.unwrap();
    assert_eq!(asdu.objects[0].value, Some(DataPointValue::StepPosition { value: -1, transient: false }));
}
