use iec104sim_core::data_point::{DataPoint, DataPointMap, DataPointValue};
use iec104sim_core::types::{AsduTypeId, DataCategory};

#[test]
fn test_data_point_creation() {
    let dp = DataPoint::new(100, AsduTypeId::MSpNa1);
    assert_eq!(dp.ioa, 100);
    assert!(matches!(dp.value, DataPointValue::SinglePoint { value: false }));
    assert!(!dp.quality.iv);
}

#[test]
fn test_data_point_value_display() {
    assert_eq!(DataPointValue::SinglePoint { value: true }.display().unwrap(), "ON");
    assert_eq!(DataPointValue::SinglePoint { value: false }.display().unwrap(), "OFF");
    assert_eq!(DataPointValue::DoublePoint { value: 2 }.display().unwrap(), "ON");
    // Short floats are rendered (three decimals) by the caller.
    assert_eq!(DataPointValue::ShortFloat { bits: 25.123f32.to_bits() }.display(), None);
    assert_eq!(DataPointValue::Bitstring { value: 0xFF00 }.display().unwrap(), "0x0000FF00");
}

#[test]
fn test_data_point_map() {
    let mut map = DataPointMap::new();
    assert!(map.is_empty());

    map.insert(DataPoint::new(100, AsduTypeId::MSpNa1));
    map.insert(DataPoint::new(200, AsduTypeId::MMeNc1));
    map.insert(DataPoint::new(300, AsduTypeId::MSpNa1));

    assert_eq!(map.len(), 3);
    assert!(map.contains(100, AsduTypeId::MSpNa1));
    assert!(!map.contains(999, AsduTypeId::MSpNa1));

    let sp = map.by_category(DataCategory::SinglePoint);
    assert_eq!(sp.len(), 2);
    assert_eq!(sp[0].ioa, 100);
    assert_eq!(sp[1].ioa, 300);

    // Same IOA, different type — should coexist
    map.insert(DataPoint::new(100, AsduTypeId::MMeNc1));
    assert_eq!(map.len(), 4);
    assert!(map.contains(100, AsduTypeId::MSpNa1));
    assert!(map.contains(100, AsduTypeId::MMeNc1));
}

#[test]
fn point_map_stamps_and_changed_since() {
    let mut map = DataPointMap::new();
    map.insert(DataPoint::new(1, AsduTypeId::MSpNa1));
    map.insert(DataPoint::new(2, AsduTypeId::MSpNa1));
    assert_eq!(map.current_seq(), 2);
    let since = map.current_seq();
    map.insert(DataPoint::with_value(1, AsduTypeId::MSpNa1, DataPointValue::SinglePoint { value: true }));
    let changed = map.changed_since(since);
    assert_eq!(changed.len(), 1);
    assert_eq!(changed[0].ioa, 1);
    assert_eq!(changed[0].update_seq, 3);
    assert_eq!(map.get(1, AsduTypeId::MSpNa1).unwrap().value, DataPointValue::SinglePoint { value: true });
    assert_eq!(map.len(), 2);
}

#[test]
fn point_map_get_by_category_prefers_untimestamped() {
    let mut map = DataPointMap::new();
    map.insert(DataPoint::new(7, AsduTypeId::MSpTb1));
    assert_eq!(map.get_by_category(7, DataCategory::SinglePoint).unwrap().asdu_type, AsduTypeId::MSpTb1);
    map.insert(DataPoint::new(7, AsduTypeId::MSpNa1));
    assert_eq!(map.get_by_category(7, DataCategory::SinglePoint).unwrap().asdu_type, AsduTypeId::MSpNa1);
    assert!(map.get_by_category(8, DataCategory::SinglePoint).is_none());
}

#[test]
fn point_map_remove_and_update() {
    let mut map = DataPointMap::new();
    map.insert(DataPoint::new(5, AsduTypeId::MMeNb1));
    assert!(map.update_value(5, AsduTypeId::MMeNb1, DataPointValue::Scaled { value: -12 }, Some(42)));
    let p = map.get(5, AsduTypeId::MMeNb1).unwrap();
    assert_eq!(p.value, DataPointValue::Scaled { value: -12 });
    assert_eq!(p.timestamp, Some(42));
    assert!(!map.update_value(6, AsduTypeId::MMeNb1, DataPointValue::Scaled { value: 1 }, None));
    let removed = map.remove(5, AsduTypeId::MMeNb1).unwrap();
    assert_eq!(removed.ioa, 5);
    assert!(map.is_empty());
    assert!(map.remove(5, AsduTypeId::MMeNb1).is_none());
}

#[test]
fn value_display_of_every_integer_kind() {
    assert_eq!(DataPointValue::DoublePoint { value: 0 }.display().unwrap(), "中间");
    assert_eq!(DataPointValue::DoublePoint { value: 3 }.display().unwrap(), "不确定");
    assert_eq!(DataPointValue::DoublePoint { value: 7 }.display().unwrap(), "7");
    assert_eq!(DataPointValue::StepPosition { value: -5, transient: true }.display().unwrap(), "-5 (T)");
    assert_eq!(DataPointValue::Scaled { value: -32768 }.display().unwrap(), "-32768");
    assert_eq!(
        DataPointValue::IntegratedTotal { value: 12, carry: true, sequence: 3 }.display().unwrap(),
        "12 [C] S3"
    );
    assert_eq!(DataPointValue::Normalized { raw: 100 }.display(), None);
}

#[test]
fn default_values_per_type() {
    assert_eq!(DataPointValue::default_for(AsduTypeId::MDpNa1), DataPointValue::DoublePoint { value: 1 });
    assert_eq!(DataPointValue::default_for(AsduTypeId::MMeNc1), DataPointValue::ShortFloat { bits: 0 });
    assert_eq!(
        DataPointValue::default_for(AsduTypeId::MItTb1),
        DataPointValue::IntegratedTotal { value: 0, carry: false, sequence: 0 }
    );
}
