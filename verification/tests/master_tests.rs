use iec104sim_core::log_entry::FrameLabel;
use iec104sim_core::master::{
    build_bitstring_command, build_counter_read_command, build_gi_command, build_setpoint_float_command,
    build_setpoint_normalized, build_setpoint_scaled, build_single_command, build_step_command, seq_inc, seq_lt,
    MasterConfig, TlsConfig, TlsVersionPolicy,
};
use iec104sim_core::types::{AsduTypeId, DataCategory};

#[test]
fn test_master_config_default() {
    let config = MasterConfig::default();
    assert_eq!(config.port, 2404);
    assert_eq!(config.common_address, 1);
    assert!(!config.tls.enabled);
}

#[test]
fn test_tls_config_default() {
    let tls = TlsConfig::default();
    assert!(!tls.enabled);
    assert!(tls.ca_file.is_empty());
    assert!(tls.cert_file.is_empty());
    assert!(tls.key_file.is_empty());
    assert!(!tls.accept_invalid_certs);
}

#[test]
fn test_tls_version_policy_default_is_auto() {
    let v = TlsVersionPolicy::default();
    assert_eq!(v, TlsVersionPolicy::Auto);
}

#[test]
fn test_tls_config_default_version_is_auto() {
    let cfg = TlsConfig::default();
    assert_eq!(cfg.version, TlsVersionPolicy::Auto);
}

#[test]
fn test_build_gi_command() {
    let frame = build_gi_command(1, 0x14);
    assert_eq!(frame[0], 0x68);
    assert_eq!(frame[6], 100);
    assert_eq!(frame[8], 6);
    assert_eq!(frame[15], 0x14);
}

#[test]
fn test_build_gi_command_custom_qoi() {
    // QOI=21 (group 1 interrogation)
    let frame = build_gi_command(2, 21);
    assert_eq!(frame[15], 21);
    assert_eq!(frame[10], 2u16.to_le_bytes()[0]);
}

#[test]
fn test_build_counter_read_command_custom_qcc() {
    // QCC=0x45 = total + freeze (group 1)
    let frame = build_counter_read_command(1, 0x45);
    assert_eq!(frame[6], 101);
    assert_eq!(frame[15], 0x45);
}

#[test]
fn test_seq_lt_wraparound() {
    // Within window
    assert!(seq_lt(0, 1));
    assert!(seq_lt(100, 200));
    assert!(!seq_lt(1, 0));
    // Equal is not strictly less than
    assert!(!seq_lt(5, 5));
    // Wrap: 32767 -> 0 should be "less than" because diff=1
    assert!(seq_lt(32767, 0));
    assert!(seq_lt(32766, 1));
}

#[test]
fn test_seq_inc_wraparound() {
    assert_eq!(seq_inc(0), 1);
    assert_eq!(seq_inc(32767), 0);
}

#[test]
fn test_master_config_protocol_defaults() {
    let cfg = MasterConfig::default();
    assert_eq!(cfg.t0, 30);
    assert_eq!(cfg.t1, 15);
    assert_eq!(cfg.t2, 10);
    assert_eq!(cfg.t3, 20);
    assert_eq!(cfg.k, 12);
    assert_eq!(cfg.w, 8);
    assert_eq!(cfg.default_qoi, 20);
    assert_eq!(cfg.default_qcc, 5);
    assert_eq!(cfg.interrogate_period_s, 0);
    assert_eq!(cfg.counter_interrogate_period_s, 0);
}

#[test]
fn test_build_single_command() {
    let frame = build_single_command(1, 100, true, false, 0, 6);
    assert_eq!(frame[6], 45);
    assert_eq!(frame[12], 100);
    assert_eq!(frame[15], 0x01);
    assert_eq!(frame[8], 6); // COT
}

#[test]
fn test_build_single_command_with_qu_short_pulse() {
    // QU=1 (short pulse), value=ON, SbO select bit on
    let frame = build_single_command(1, 100, true, true, 1, 6);
    // SCO = SE(0x80) | (QU=1 << 2) | SCS(1) = 0x85
    assert_eq!(frame[15], 0x85);
}

#[test]
fn test_build_step_command() {
    // Lower, Execute, QU=0
    let frame = build_step_command(1, 600, 1, false, 0, 6);
    assert_eq!(frame[0], 0x68);
    assert_eq!(frame[6], 47);
    assert_eq!(frame[12], 600u32.to_le_bytes()[0]);
    assert_eq!(frame[15], 0x01); // RCO = lower

    // Higher, Select, QU=0
    let frame = build_step_command(1, 600, 2, true, 0, 6);
    assert_eq!(frame[15], 0x82); // RCO = higher + select bit
}

#[test]
fn test_build_setpoint_normalized() {
    // The NVA word of 0.5 is what the frame carries.
    let frame = build_setpoint_normalized(1, 400, (0.5_f32 * 32767.0) as i16, false, 0, 6);
    assert_eq!(frame[0], 0x68);
    assert_eq!(frame[6], 48);
    let nva = i16::from_le_bytes([frame[15], frame[16]]);
    assert_eq!(nva, (0.5_f32 * 32767.0) as i16);
    assert_eq!(frame[17], 0x00); // QOS = no select, QL=0

    // With select
    let frame = build_setpoint_normalized(1, 400, (-0.5_f32 * 32767.0) as i16, true, 0, 6);
    assert_eq!(frame[17], 0x80); // QOS = select bit
}

#[test]
fn test_build_setpoint_normalized_with_ql() {
    // QL=2, no SbO
    let frame = build_setpoint_normalized(1, 400, (0.0_f32 * 32767.0) as i16, false, 2, 6);
    assert_eq!(frame[17], 0x02);
}

#[test]
fn test_build_setpoint_scaled() {
    let frame = build_setpoint_scaled(1, 500, 1024, false, 0, 6);
    assert_eq!(frame[0], 0x68);
    assert_eq!(frame[6], 49);
    let sva = i16::from_le_bytes([frame[15], frame[16]]);
    assert_eq!(sva, 1024);
    assert_eq!(frame[17], 0x00);
}

#[test]
fn test_build_setpoint_float_with_select() {
    let frame = build_setpoint_float_command(1, 300, 25.5f32.to_bits(), true, 0, 6);
    assert_eq!(frame[6], 50);
    let val = f32::from_le_bytes([frame[15], frame[16], frame[17], frame[18]]);
    assert!((val - 25.5).abs() < 0.001);
    assert_eq!(frame[19], 0x80);

    let frame = build_setpoint_float_command(1, 300, 25.5f32.to_bits(), false, 0, 6);
    assert_eq!(frame[19], 0x00);
}

#[test]
fn test_build_bitstring_command() {
    let frame = build_bitstring_command(1, 700, 0xDEADBEEF, 6);
    assert_eq!(frame[0], 0x68);
    assert_eq!(frame[1], 0x11);
    assert_eq!(frame[6], 51);
    assert_eq!(frame[8], 6); // COT
    // BSI 4 bytes LE at frame[15..19]
    assert_eq!(frame[15], 0xEF);
    assert_eq!(frame[16], 0xBE);
    assert_eq!(frame[17], 0xAD);
    assert_eq!(frame[18], 0xDE);
}

#[test]
fn test_build_command_cot_override() {
    // COT=8 (deactivation)
    let frame = build_single_command(1, 100, true, false, 0, 8);
    assert_eq!(frame[8], 8);
}

#[test]
fn test_asdu_type_step_command() {
    assert_eq!(AsduTypeId::from_u8(47), Some(AsduTypeId::CRcNa1));
    assert_eq!(AsduTypeId::CRcNa1.name(), "C_RC_NA_1");
    assert_eq!(AsduTypeId::CRcNa1.description(), "步调节命令");
    assert_eq!(AsduTypeId::CRcNa1.category(), DataCategory::StepPosition);
}

#[test]
fn test_frame_label_step_command() {
    assert_eq!(FrameLabel::StepCommand.name(), "C_RC");
}
