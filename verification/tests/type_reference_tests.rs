use apollo_kit::merge::{EnumPosition, EnumUsageInfo};

#[test]
fn test_enum_position_tracking() {
    // Test TypeScript-compatible enum position logic
    let mut enum_info = EnumUsageInfo::new(EnumPosition::Input);

    // Input + Output = Both
    enum_info.update_position(EnumPosition::Output);
    assert_eq!(enum_info.position, EnumPosition::Both);

    // Both + anything = Both
    enum_info.update_position(EnumPosition::Input);
    assert_eq!(enum_info.position, EnumPosition::Both);

    // Test starting with Output
    let mut enum_info2 = EnumUsageInfo::new(EnumPosition::Output);
    enum_info2.update_position(EnumPosition::Input);
    assert_eq!(enum_info2.position, EnumPosition::Both);

    // Test same position doesn't change
    let mut enum_info3 = EnumUsageInfo::new(EnumPosition::Input);
    enum_info3.update_position(EnumPosition::Input);
    assert_eq!(enum_info3.position, EnumPosition::Input);
}

#[test]
fn enum_position_updates_commute() {
    let all = [EnumPosition::Input, EnumPosition::Output, EnumPosition::Both];
    for start in all {
        for a in all {
            for b in all {
                let mut first = EnumUsageInfo::new(start);
                first.update_position(a);
                first.update_position(b);
                let mut second = EnumUsageInfo::new(start);
                second.update_position(b);
                second.update_position(a);
                assert_eq!(first.position, second.position);
            }
        }
    }
}

#[test]
fn enum_position_both_absorbs() {
    let mut info = EnumUsageInfo::new(EnumPosition::Both);
    info.update_position(EnumPosition::Output);
    info.update_position(EnumPosition::Input);
    assert_eq!(info.position, EnumPosition::Both);
}

#[test]
fn enum_position_output_stays_output() {
    let mut info = EnumUsageInfo::new(EnumPosition::Output);
    info.update_position(EnumPosition::Output);
    info.update_position(EnumPosition::Output);
    assert_eq!(info.position, EnumPosition::Output);
}
