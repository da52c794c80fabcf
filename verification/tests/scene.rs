use rrt::scene::{record_kind, RecordKind};

#[test]
fn known_kinds_classify() {
    assert_eq!(record_kind("sphere"), RecordKind::Sphere);
    assert_eq!(record_kind("point_light"), RecordKind::PointLight);
}

#[test]
fn unknown_kinds_are_skipped() {
    assert_eq!(record_kind("triangle_fan"), RecordKind::Unknown);
    assert_eq!(record_kind(""), RecordKind::Unknown);
    assert_eq!(record_kind("Sphere"), RecordKind::Unknown);
    assert_eq!(record_kind("point light"), RecordKind::Unknown);
}
