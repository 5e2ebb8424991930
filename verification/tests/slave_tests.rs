use iec104sim_core::data_point::{DataPoint, DataPointValue, InformationObjectDef};
use iec104sim_core::frame::next_frame;
use iec104sim_core::master::{
    build_counter_read_command, build_double_command, build_gi_command, build_setpoint_float_command,
    build_single_command, MasterReceivedData, parse_and_store_asdu,
};
use iec104sim_core::slave::{CyclicConfig, SlaveError, SlaveTransportConfig, Station, StationTable};
use iec104sim_core::slave_link::{handle_client_frame, ConnState, LinkCounters};
use iec104sim_core::types::{AsduTypeId, DataCategory};

fn split_frames(bytes: &[u8]) -> Vec<Vec<u8>> {
    let mut buf = bytes.to_vec();
    let mut out = Vec::new();
    while let Some(f) = next_frame(&mut buf) {
        out.push(f);
    }
    assert!(buf.is_empty());
    out
}

fn master_receive(store: &mut MasterReceivedData, reply: &[u8]) {
    for f in split_frames(reply) {
        let _ = parse_and_store_asdu(&f, store);
    }
}

fn exchange(table: &mut StationTable, store: &mut MasterReceivedData, frame: &[u8]) {
    let mut counters = LinkCounters { ssn: 0, rsn: 0 };
    let reply = handle_client_frame(table, frame, &mut counters, 1_700_000_000_000);
    master_receive(store, &reply);
}

#[test]
fn test_station_creation() {
    let s = Station::new(1, "测试站");
    assert_eq!(s.common_address, 1);
}

#[test]
fn test_station_with_default_points() {
    let s = Station::with_default_points(1, "站1", 10);
    assert_eq!(s.data_points.len(), 80); // 8 categories * 10 points each
}

#[test]
fn test_slave_server_station_management() {
    let mut table = StationTable::new();
    let station = Station::new(1, "站1");
    table.add_station(station).unwrap();
    assert!(table.add_station(Station::new(1, "重复")).is_err());
}

#[test]
fn test_single_command_writeback() {
    let mut table = StationTable::new();
    table.add_station(Station::with_default_points(1, "Test", 2)).unwrap();
    let mut store = MasterReceivedData::new();

    exchange(&mut table, &mut store, &build_gi_command(1, 20));
    {
        let map = store.ca_map(1).expect("CA=1 map should exist after GI");
        assert!(map.get(1, AsduTypeId::MSpNa1).is_some(), "IOA=1 should exist after GI");
    }

    exchange(&mut table, &mut store, &build_single_command(1, 1, true, false, 0, 6));
    let point = table.get(1).unwrap().data_points.get(1, AsduTypeId::MSpNa1).unwrap();
    assert_eq!(point.value, DataPointValue::SinglePoint { value: true });
    let point = store.ca_map(1).unwrap().get(1, AsduTypeId::MSpNa1).unwrap();
    assert_eq!(point.value, DataPointValue::SinglePoint { value: true });
}

#[test]
fn test_double_command_writeback() {
    let mut table = StationTable::new();
    table.add_station(Station::with_default_points(1, "Test", 2)).unwrap();
    let mut store = MasterReceivedData::new();
    exchange(&mut table, &mut store, &build_gi_command(1, 20));

    // IOA=3 is the first DoublePoint (2 SP + first DP), QU=0, COT=6
    exchange(&mut table, &mut store, &build_double_command(1, 3, 2, false, 0, 6));
    let point = table.get(1).unwrap().data_points.get(3, AsduTypeId::MDpNa1).unwrap();
    assert_eq!(point.value, DataPointValue::DoublePoint { value: 2 });
    let point = store.ca_map(1).unwrap().get(3, AsduTypeId::MDpNa1).unwrap();
    assert_eq!(point.value, DataPointValue::DoublePoint { value: 2 });
}

#[test]
fn test_setpoint_float_writeback() {
    let mut table = StationTable::new();
    table.add_station(Station::with_default_points(1, "Test", 2)).unwrap();
    let mut store = MasterReceivedData::new();
    exchange(&mut table, &mut store, &build_gi_command(1, 20));

    // IOA=13 is the first ShortFloat, QL=0, COT=6
    exchange(&mut table, &mut store, &build_setpoint_float_command(1, 13, 42.5f32.to_bits(), false, 0, 6));
    let point = table.get(1).unwrap().data_points.get(13, AsduTypeId::MMeNc1).unwrap();
    assert_eq!(point.value, DataPointValue::ShortFloat { bits: 42.5f32.to_bits() });
    let point = store.ca_map(1).unwrap().get(13, AsduTypeId::MMeNc1).unwrap();
    assert_eq!(point.value, DataPointValue::ShortFloat { bits: 42.5f32.to_bits() });
}

#[test]
fn test_sbo_single_command() {
    let mut table = StationTable::new();
    table.add_station(Station::with_default_points(1, "Test", 2)).unwrap();
    let mut store = MasterReceivedData::new();
    let mut counters = LinkCounters { ssn: 0, rsn: 0 };

    // Select: confirmed, nothing written.
    let reply = handle_client_frame(&mut table, &build_single_command(1, 1, true, true, 0, 6), &mut counters, 5);
    let frames = split_frames(&reply);
    assert_eq!(frames.len(), 1);
    let resp = parse_and_store_asdu(&frames[0], &mut store).unwrap();
    assert_eq!((resp.ioa, resp.cot, resp.positive), (1, 7, true));
    assert_eq!(
        table.get(1).unwrap().data_points.get(1, AsduTypeId::MSpNa1).unwrap().value,
        DataPointValue::SinglePoint { value: false }
    );

    // Execute: confirmation, termination, spontaneous value.
    let reply = handle_client_frame(&mut table, &build_single_command(1, 1, true, false, 0, 6), &mut counters, 6);
    let frames = split_frames(&reply);
    assert_eq!(frames.len(), 3);
    assert_eq!(frames[0][8], 7);
    assert_eq!(frames[1][8], 10);
    assert_eq!(frames[2][8], 3);
    let p = table.get(1).unwrap().data_points.get(1, AsduTypeId::MSpNa1).unwrap();
    assert_eq!(p.value, DataPointValue::SinglePoint { value: true });
    assert_eq!(p.timestamp, Some(6));
}

#[test]
fn test_batch_add_then_gi() {
    let mut station = Station::new(1, "Test");
    assert_eq!(station.batch_add_points(1, 10, AsduTypeId::MMeNc1, "FL").unwrap(), 10);
    let mut table = StationTable::new();
    table.add_station(station).unwrap();
    let mut store = MasterReceivedData::new();
    exchange(&mut table, &mut store, &build_gi_command(1, 20));
    let map = store.ca_map(1).expect("CA=1 map should exist after GI");
    for ioa in 1u32..=10 {
        let point = map.get(ioa, AsduTypeId::MMeNc1).unwrap_or_else(|| panic!("IOA={} should exist after GI", ioa));
        assert!(matches!(point.value, DataPointValue::ShortFloat { .. }));
    }
}

#[test]
fn test_batch_add_coexist_then_gi() {
    let mut station = Station::new(1, "Test");
    station.batch_add_points(1, 5, AsduTypeId::MSpNa1, "SP").unwrap();
    station.batch_add_points(1, 5, AsduTypeId::MMeNc1, "FL").unwrap();
    assert_eq!(station.data_points.len(), 10); // 5 SP + 5 FL coexist
    let mut table = StationTable::new();
    table.add_station(station).unwrap();
    let mut store = MasterReceivedData::new();
    exchange(&mut table, &mut store, &build_gi_command(1, 20));
    let map = store.ca_map(1).expect("CA=1 map should exist after GI");
    for ioa in 1u32..=5 {
        assert!(map.get(ioa, AsduTypeId::MSpNa1).is_some(), "IOA={} SP should exist after GI", ioa);
        assert!(map.get(ioa, AsduTypeId::MMeNc1).is_some(), "IOA={} FL should exist after GI", ioa);
    }
}

fn build_station_with_overlap() -> Station {
    let mut st = Station::new(1, "overlap");
    for ioa in [100u32, 101] {
        st.object_defs.push(InformationObjectDef {
            ioa,
            asdu_type: AsduTypeId::MMeNc1,
            category: DataCategory::FloatMeasured,
            name: String::new(),
            comment: String::new(),
        });
        st.data_points.insert(DataPoint::with_value(
            ioa,
            AsduTypeId::MMeNc1,
            DataPointValue::ShortFloat { bits: (12.5 + ioa as f32).to_bits() },
        ));
        st.object_defs.push(InformationObjectDef {
            ioa,
            asdu_type: AsduTypeId::MItNa1,
            category: DataCategory::IntegratedTotals,
            name: String::new(),
            comment: String::new(),
        });
        st.data_points.insert(DataPoint::with_value(
            ioa,
            AsduTypeId::MItNa1,
            DataPointValue::IntegratedTotal { value: 1000 + ioa as i32, carry: false, sequence: 0 },
        ));
    }
    st
}

#[test]
fn gi_then_ci_keeps_float_and_counter_at_same_ioa() {
    let mut table = StationTable::new();
    table.add_station(build_station_with_overlap()).unwrap();
    let mut store = MasterReceivedData::new();

    exchange(&mut table, &mut store, &build_gi_command(1, 20));
    {
        let map = store.ca_map(1).expect("CA=1 map missing after GI");
        assert!(map.get(100, AsduTypeId::MMeNc1).is_some());
        assert!(map.get(100, AsduTypeId::MItNa1).is_some());
        assert!(map.get(101, AsduTypeId::MMeNc1).is_some());
        assert!(map.get(101, AsduTypeId::MItNa1).is_some());
    }
    exchange(&mut table, &mut store, &build_counter_read_command(1, 5));
    {
        let map = store.ca_map(1).expect("CA=1 map missing after CI");
        assert!(map.get(100, AsduTypeId::MItNa1).is_some());
        assert!(map.get(100, AsduTypeId::MMeNc1).is_some());
        assert!(map.get(101, AsduTypeId::MItNa1).is_some());
        assert!(map.get(101, AsduTypeId::MMeNc1).is_some());
    }
    exchange(&mut table, &mut store, &build_gi_command(1, 20));
    let map = store.ca_map(1).expect("CA=1 map missing after GI#2");
    assert!(map.get(100, AsduTypeId::MMeNc1).is_some());
    assert!(map.get(100, AsduTypeId::MItNa1).is_some());
}

#[test]
fn u_frames_are_confirmed() {
    let mut table = StationTable::new();
    let mut c = LinkCounters { ssn: 0, rsn: 0 };
    assert_eq!(handle_client_frame(&mut table, &[0x68, 4, 0x07, 0, 0, 0], &mut c, 0), vec![0x68, 4, 0x0B, 0, 0, 0]);
    assert_eq!(handle_client_frame(&mut table, &[0x68, 4, 0x13, 0, 0, 0], &mut c, 0), vec![0x68, 4, 0x23, 0, 0, 0]);
    assert_eq!(handle_client_frame(&mut table, &[0x68, 4, 0x43, 0, 0, 0], &mut c, 0), vec![0x68, 4, 0x83, 0, 0, 0]);
    assert!(handle_client_frame(&mut table, &[0x68, 4, 0x01, 0, 2, 0], &mut c, 0).is_empty());
}

#[test]
fn gi_reply_counts_control_octets() {
    let mut table = StationTable::new();
    table.add_station(Station::with_default_points(3, "S", 1)).unwrap();
    let mut c = LinkCounters { ssn: 0, rsn: 0 };
    let reply = handle_client_frame(&mut table, &build_gi_command(3, 20), &mut c, 0);
    let frames = split_frames(&reply);
    assert_eq!(frames.len(), 10); // confirmation + 8 points + termination
    assert_eq!(frames[0][8], 7);
    assert_eq!(frames[9][8], 10);
    assert_eq!(frames[1][2], 0);
    assert_eq!(frames[2][2], 2);
    assert_eq!(c, LinkCounters { ssn: 16, rsn: 16 });
    // A GI for a CA the server does not hold: confirmation and termination only.
    let reply = handle_client_frame(&mut table, &build_gi_command(9, 20), &mut c, 0);
    assert_eq!(split_frames(&reply).len(), 2);
}

#[test]
fn station_table_errors_and_cyclic_config() {
    let mut table = StationTable::new();
    assert_eq!(table.remove_station(4).unwrap_err(), SlaveError::StationNotFound(4));
    assert_eq!(
        table.set_cyclic_config(4, CyclicConfig { enabled: true, interval_ms: 500 }).unwrap_err(),
        SlaveError::StationNotFound(4)
    );
    table.add_station(Station::new(4, "a")).unwrap();
    table.add_station(Station::new(2, "b")).unwrap();
    assert_eq!(table.cyclic_interval_ms(), 2000);
    table.set_cyclic_config(4, CyclicConfig { enabled: true, interval_ms: 500 }).unwrap();
    assert_eq!(table.cyclic_interval_ms(), 500);
    assert_eq!(table.add_station(Station::new(2, "c")).unwrap_err(), SlaveError::DuplicateStation(2));
    assert_eq!(SlaveError::DuplicateStation(2).message(), "station CA=2 already exists");
    let removed = table.remove_station(2).unwrap();
    assert_eq!(removed.name, "b");
    assert_eq!(table.len(), 1);
}

#[test]
fn station_point_editing() {
    let mut st = Station::new(1, "s");
    let def = InformationObjectDef {
        ioa: 7,
        asdu_type: AsduTypeId::MSpNa1,
        category: DataCategory::SinglePoint,
        name: "a".to_string(),
        comment: String::new(),
    };
    st.add_point(def).unwrap();
    st.data_points.update_value(7, AsduTypeId::MSpNa1, DataPointValue::SinglePoint { value: true }, None);
    let def2 = InformationObjectDef {
        ioa: 7,
        asdu_type: AsduTypeId::MSpNa1,
        category: DataCategory::SinglePoint,
        name: "renamed".to_string(),
        comment: String::new(),
    };
    st.add_point(def2).unwrap();
    assert_eq!(st.object_defs.len(), 1);
    assert_eq!(st.object_defs[0].name, "renamed");
    // The runtime value is kept.
    assert_eq!(st.data_points.get(7, AsduTypeId::MSpNa1).unwrap().value, DataPointValue::SinglePoint { value: true });
    assert_eq!(st.remove_point(8, AsduTypeId::MSpNa1).unwrap_err(), SlaveError::IoaNotFound(8));
    st.remove_point(7, AsduTypeId::MSpNa1).unwrap();
    assert!(st.object_defs.is_empty());
    assert!(st.data_points.is_empty());
}

#[test]
fn batch_names_and_existing_points() {
    let mut st = Station::new(1, "s");
    assert_eq!(st.batch_add_points(10, 3, AsduTypeId::MMeNb1, "SC").unwrap(), 3);
    assert_eq!(st.object_defs[2].name, "SC12");
    assert_eq!(st.batch_add_points(11, 3, AsduTypeId::MMeNb1, "").unwrap(), 1);
    assert_eq!(st.object_defs[1].name, "");
    assert_eq!(st.object_defs.len(), 4);
    assert_eq!(st.data_points.len(), 4);
}

#[test]
fn cyclic_round_sends_only_changes() {
    let mut table = StationTable::new();
    table.add_station(Station::with_default_points(1, "s", 1)).unwrap();
    table.set_cyclic_config(1, CyclicConfig { enabled: true, interval_ms: 100 }).unwrap();
    let texts: Vec<Vec<String>> = vec![(0..8).map(|i| format!("v{}", i)).collect()];
    let mut conn = ConnState::new();
    let first = conn.cyclic_frames(&table, &texts);
    assert_eq!(split_frames(&first).len(), 8);
    let second = conn.cyclic_frames(&table, &texts);
    assert!(second.is_empty());
    let mut changed = texts.clone();
    changed[0][3] = "other".to_string();
    let third = conn.cyclic_frames(&table, &changed);
    let frames = split_frames(&third);
    assert_eq!(frames.len(), 1);
    assert_eq!(frames[0][12], 4); // IOA 4
    assert_eq!(frames[0][8], 3); // spontaneous
}

#[test]
fn transport_default() {
    let t = SlaveTransportConfig::default();
    assert_eq!(t.bind_address, "0.0.0.0");
    assert_eq!(t.port, 2404);
    assert!(!t.tls.enabled);
}

#[test]
fn master_stores_step_position_signed() {
    let mut store = MasterReceivedData::new();
    let frame = [0x68, 0x0F, 0, 0, 0, 0, 0x05, 0x01, 0x03, 0x00, 0x01, 0x00, 0x07, 0x00, 0x00, 0x7F, 0x00];
    assert!(parse_and_store_asdu(&frame, &mut store).is_none());
    let p = store.ca_map(1).unwrap().get(7, AsduTypeId::MStNa1).unwrap();
    assert_eq!(p.value, DataPointValue::StepPosition { value: -1, transient: false });
    let frame = [0x68, 0x0F, 0, 0, 0, 0, 0x05, 0x01, 0x03, 0x00, 0x01, 0x00, 0x08, 0x00, 0x00, 0xC0, 0x00];
    parse_and_store_asdu(&frame, &mut store);
    let p = store.ca_map(1).unwrap().get(8, AsduTypeId::MStNa1).unwrap();
    assert_eq!(p.value, DataPointValue::StepPosition { value: -64, transient: true });
}

#[test]
fn master_listing_is_sorted_and_counted() {
    let mut store = MasterReceivedData::new();
    store.insert(2, DataPoint::new(5, AsduTypeId::MSpNa1));
    store.insert(1, DataPoint::new(9, AsduTypeId::MSpNa1));
    store.insert(1, DataPoint::new(3, AsduTypeId::MMeNb1));
    assert_eq!(store.total_len(), 3);
    store.insert(1, DataPoint::new(9, AsduTypeId::MSpNa1));
    assert_eq!(store.total_len(), 3);
    store.insert(2, DataPoint::new(5, AsduTypeId::MDpNa1));
    assert_eq!(store.total_len(), 4);
    let all = store.all_sorted();
    let keys: Vec<(u16, u32)> = all.iter().map(|(ca, p)| (*ca, p.ioa)).collect();
    assert_eq!(keys, vec![(1, 3), (1, 9), (2, 5), (2, 5)]);
    assert_eq!(store.changed_since(0).len(), store.total_len());
    assert!(store.changed_since(store.current_seq()).is_empty());
    let recent = store.changed_since(3);
    let recent_keys: Vec<(u16, u32, u64)> = recent.iter().map(|(ca, p)| (*ca, p.ioa, p.update_seq)).collect();
    assert_eq!(recent_keys, vec![(1, 9, 4), (2, 5, 5)]);
}
