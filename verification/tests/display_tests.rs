use absh::display::{bytes_to_mib, format_seconds, pad3, u64_dec};
use absh::measure::{display_value, measure_id, measure_name, MaxRss, MeasureDyn, UserDefinedMetric,
    WallTime};
use absh::measure_key::MeasureKey;

#[test]
fn decimal_rendering() {
    assert_eq!(u64_dec(0).as_str(), "0");
    assert_eq!(u64_dec(7).as_str(), "7");
    assert_eq!(u64_dec(10).as_str(), "10");
    assert_eq!(u64_dec(1048576).as_str(), "1048576");
    assert_eq!(u64_dec(u64::MAX).as_str(), "18446744073709551615");
}

#[test]
fn padded_three_digits() {
    assert_eq!(pad3(0).as_str(), "000");
    assert_eq!(pad3(5).as_str(), "005");
    assert_eq!(pad3(50).as_str(), "050");
    assert_eq!(pad3(500).as_str(), "500");
    assert_eq!(pad3(999).as_str(), "999");
}

#[test]
fn nanoseconds_display_as_seconds() {
    assert_eq!(format_seconds(1_500_000_000).as_str(), "1.500");
    assert_eq!(format_seconds(0).as_str(), "0.000");
    assert_eq!(format_seconds(999_999_999).as_str(), "0.999");
    assert_eq!(format_seconds(1_000_000_000).as_str(), "1.000");
    assert_eq!(format_seconds(12_345_678_901).as_str(), "12.345");
}

#[test]
fn bytes_display_as_mebibytes() {
    assert_eq!(bytes_to_mib(2_097_152), 2);
    assert_eq!(bytes_to_mib(0), 0);
    assert_eq!(bytes_to_mib(1_048_575), 0);
    assert_eq!(bytes_to_mib(1_048_576), 1);
}

#[test]
fn descriptor_names_and_ids() {
    assert_eq!(measure_name(MeasureKey::WallTime), "Time (in seconds)");
    assert_eq!(measure_name(MeasureKey::MaxRss), "Max RSS (in megabytes)");
    assert_eq!(measure_name(MeasureKey::UserDefinedMetric), "User defined metric");
    assert_eq!(measure_id(MeasureKey::WallTime), "wall-time");
    assert_eq!(measure_id(MeasureKey::MaxRss), "max-rss");
    assert_eq!(measure_id(MeasureKey::UserDefinedMetric), "user-defined-metric");
}

#[test]
fn descriptor_display_transforms() {
    assert_eq!(display_value(MeasureKey::WallTime, 1_500_000_000).as_str(), "1.500");
    assert_eq!(display_value(MeasureKey::MaxRss, 2_097_152).as_str(), "2");
    assert_eq!(display_value(MeasureKey::UserDefinedMetric, 42).as_str(), "42");
}

#[test]
fn measure_trait_dispatch() {
    let w = WallTime;
    assert_eq!(w.key(), MeasureKey::WallTime);
    assert_eq!(w.name(), "Time (in seconds)");
    assert_eq!(w.id(), "wall-time");
    assert_eq!(w.number_to_display(1_500_000_000).as_str(), "1.500");
    let m = MaxRss;
    assert_eq!(m.key(), MeasureKey::MaxRss);
    assert_eq!(m.number_to_display(2_097_152).as_str(), "2");
    let u = UserDefinedMetric;
    assert_eq!(u.key(), MeasureKey::UserDefinedMetric);
    assert_eq!(u.number_to_display(7).as_str(), "7");
}

#[test]
fn measure_key_indices() {
    assert_eq!(MeasureKey::WallTime.index(), 0);
    assert_eq!(MeasureKey::MaxRss.index(), 1);
    assert_eq!(MeasureKey::UserDefinedMetric.index(), 2);
    assert_eq!(MeasureKey::from_index(0), MeasureKey::WallTime);
    assert_eq!(MeasureKey::from_index(1), MeasureKey::MaxRss);
    assert_eq!(MeasureKey::from_index(2), MeasureKey::UserDefinedMetric);
}
