use hwctl::sysfs::{
    Backlight, Block, Sysfs, SysfsClass, SysfsDevice, SysfsError, SysfsInnerDevice,
};
use hwctl::Brightness;

fn backlight(path: &str) -> Backlight {
    match SysfsDevice::from_path(path).unwrap().into_inner() {
        SysfsInnerDevice::Backlight(b) => b,
        _ => panic!("not a backlight"),
    }
}

fn block(path: &str) -> Block {
    match SysfsDevice::from_path(path).unwrap().into_inner() {
        SysfsInnerDevice::Block(b) => b,
        _ => panic!("not a block device"),
    }
}

#[test]
fn device_path_parses_to_class_and_identifier() {
    let d = SysfsDevice::from_path("/sys/class/backlight/intel_backlight").unwrap();
    assert_eq!(d.class, "backlight");
    assert_eq!(d.device, "intel_backlight");
    assert_eq!(d.path, "/sys/class/backlight/intel_backlight");
}

#[test]
fn class_only_path_is_no_device_handle() {
    let c = SysfsClass::from_path("/sys/class/backlight").unwrap();
    assert_eq!(c.class, "backlight");
    assert!(SysfsDevice::from_path("/sys/class/backlight").is_none());
}

#[test]
fn foreign_path_does_not_parse() {
    assert!(SysfsClass::from_path("/etc/foo/bar").is_none());
    assert!(SysfsDevice::from_path("/etc/foo/bar").is_none());
    assert!(SysfsDevice::from_path("/sys/class/block/sda/size").is_none());
    assert!(SysfsClass::from_path("/sys/devices/foo").is_none());
}

#[test]
fn boundary_shapes_parse_by_segment_count_alone() {
    // the registry root with a trailing separator is an empty-named class
    let c = SysfsClass::from_path("/sys/class/").unwrap();
    assert_eq!(c.class, "");
    assert!(SysfsClass::from_path("/sys/class").is_none());
    // a trailing separator after a class is an empty-named device
    let d = SysfsDevice::from_path("/sys/class/block/").unwrap();
    assert_eq!(d.class, "block");
    assert_eq!(d.device, "");
}

#[test]
fn enumeration_skips_entries_of_other_shapes() {
    let entries = vec![
        String::from("/sys/class/backlight"),
        String::from("/etc/foo"),
        String::from("/sys/class/block"),
    ];
    let classes = Sysfs::enum_classes(&entries);
    assert_eq!(classes.len(), 2);
    assert_eq!(classes[0].class, "backlight");
    assert_eq!(classes[1].class, "block");

    let cls = SysfsClass::new("block", true).unwrap();
    let dev_entries = vec![
        String::from("/sys/class/block/sda"),
        String::from("/sys/class/block"),
        String::from("/sys/class/block/sda/size"),
        String::from("/sys/class/block/sdb"),
    ];
    let devices = cls.enum_devices(&dev_entries);
    assert_eq!(devices.len(), 2);
    assert_eq!(devices[0].device, "sda");
    assert_eq!(devices[1].device, "sdb");
}

#[test]
fn class_handles_carry_their_directory() {
    let c = SysfsClass::new("backlight", true).unwrap();
    assert_eq!(c.class, "backlight");
    assert_eq!(c.path, "/sys/class/backlight/");
    match SysfsClass::new("nothing_here", false) {
        Err(e) => assert_eq!(e, SysfsError::NotFound),
        Ok(_) => panic!("an absent class must be the not-found error"),
    }
}

#[test]
fn into_inner_tags_by_class() {
    assert!(matches!(
        SysfsDevice::from_path("/sys/class/backlight/amdgpu_bl0")
            .unwrap()
            .into_inner(),
        SysfsInnerDevice::Backlight(_)
    ));
    assert!(matches!(
        SysfsDevice::from_path("/sys/class/block/sda").unwrap().into_inner(),
        SysfsInnerDevice::Block(_)
    ));
    match SysfsDevice::from_path("/sys/class/net/eth0").unwrap().into_inner() {
        SysfsInnerDevice::Other(class, d) => {
            assert_eq!(class, "net");
            assert_eq!(d.device, "eth0");
        },
        _ => panic!("expected the untagged variant"),
    }
}

#[test]
fn attribute_paths_follow_the_layout() {
    let d = SysfsDevice::from_path("/sys/class/backlight/intel_backlight").unwrap();
    assert_eq!(
        d.attr_path("brightness"),
        "/sys/class/backlight/intel_backlight/brightness"
    );
    assert_eq!(
        d.device_attr_path("model"),
        "/sys/class/backlight/intel_backlight/device/model"
    );
    assert_eq!(SysfsClass::dir_path("block"), "/sys/class/block/");
}

#[test]
fn get_value_trims_and_passes_errors_through() {
    let d = SysfsDevice::from_path("/sys/class/block/sda").unwrap();
    assert_eq!(d.get_value(&Ok(String::from(" 1048576\n"))), Ok(String::from("1048576")));
    assert_eq!(
        d.get_value(&Err(SysfsError::PermissionDenied)),
        Err(SysfsError::PermissionDenied)
    );
}

#[test]
fn range_mapper_truncates_toward_zero() {
    assert_eq!(hwctl::sysfs::map(0, 0, 100, 0, 255), 0);
    assert_eq!(hwctl::sysfs::map(100, 0, 100, 0, 255), 255);
    assert_eq!(hwctl::sysfs::map(50, 0, 100, 0, 255), 127);
    assert_eq!(hwctl::sysfs::map(1, 0, 3, 0, -10), -3);
    assert_eq!(hwctl::sysfs::map(7, 0, 10, -5, 5), 2);
}

#[test]
fn range_mapper_is_monotonic_over_adjacent_inputs() {
    let mut last = hwctl::sysfs::map(0, 0, 97, 0, 255);
    for x in 1..=97 {
        let cur = hwctl::sysfs::map(x, 0, 97, 0, 255);
        assert!(cur >= last, "map went down at {}", x);
        last = cur;
    }
}

#[test]
fn round_trip_stays_within_input_granularity() {
    // a native 0..=255 value sent through a 0..=100 scale and back may
    // fall short, but never overshoots nor strays past one input granule
    for x in 0..=255 {
        let y = hwctl::sysfs::map(x, 0, 255, 0, 100);
        let z = hwctl::sysfs::map(y, 0, 100, 0, 255);
        assert!(z <= x && x - z <= 255 / 100 + 1, "round trip strayed at {}", x);
    }
    // the loss is real: truncation, not rounding
    assert_eq!(
        hwctl::sysfs::map(hwctl::sysfs::map(80, 0, 255, 0, 100), 0, 100, 0, 255),
        79
    );
}

#[test]
fn brightness_increment_saturates() {
    let b = backlight("/sys/class/backlight/intel_backlight");
    assert_eq!(b.inc(100, 50), 150);
    assert_eq!(b.inc(200, 100), 255);
    assert_eq!(b.inc(10, -20), 0);
    assert_eq!(b.inc(100, 0), 100);
    assert_eq!(b.inc(0, -255), 0);
    assert_eq!(b.inc(255, 255), 255);
    assert_eq!(b.inc(100, 1000), 255);
    assert_eq!(b.inc(200, -1000), 0);
    assert_eq!(b.inc(7, i16::MIN), 0);
    assert_eq!(b.inc(250, i16::MAX), 255);
}

#[test]
fn brightness_reads_degrade_to_zero() {
    let b = backlight("/sys/class/backlight/intel_backlight");
    assert_eq!(b.max_brightness(&Ok(String::from("4437"))), Ok(4437));
    assert_eq!(b.max_brightness(&Ok(String::from("derp"))), Ok(0));
    assert_eq!(b.max_brightness(&Ok(String::from("-5"))), Ok(-5));
    assert_eq!(b.max_brightness(&Err(SysfsError::Other)), Ok(0));
    assert_eq!(b.max_brightness(&Err(SysfsError::NotFound)), Ok(0));
}

#[test]
fn current_brightness_maps_to_external_scale() {
    let b = backlight("/sys/class/backlight/intel_backlight");
    assert_eq!(b.cur_val(255, &Ok(String::from("128"))), Ok(128));
    assert_eq!(b.cur_val(4437, &Ok(String::from("3000"))), Ok(172));
    assert_eq!(b.cur_val(100, &Ok(String::from("100"))), Ok(255));
    assert_eq!(b.cur_val(100, &Ok(String::from("50"))), Ok(127));
    assert_eq!(b.cur_val(1, &Ok(String::from("nope"))), Ok(0));
    assert_eq!(
        b.cur_val(255, &Err(SysfsError::NotFound)),
        Err(SysfsError::NotFound)
    );
}

#[test]
fn set_renders_the_native_value() {
    let b = backlight("/sys/class/backlight/intel_backlight");
    assert_eq!(b.set(255, 255), "255");
    assert_eq!(b.set(100, 255), "100");
    assert_eq!(b.set(100, 128), "50");
    assert_eq!(b.set(0, 10), "0");
    assert_eq!(b.set(255, 0), "0");
}

#[test]
fn partition_probe_goes_by_either_attribute() {
    let b = block("/sys/class/block/sda1");
    assert!(b.is_partition(true, false));
    assert!(b.is_partition(false, true));
    assert!(!b.is_partition(false, false));
}

#[test]
fn partitions_filter_siblings_by_name_prefix() {
    let b = block("/sys/class/block/sda");
    let entries = vec![
        String::from("sda1"),
        String::from("sda2"),
        String::from("sdb1"),
    ];
    let parts = b.partitions(&entries);
    assert_eq!(parts.len(), 2);
    assert_eq!(parts[0].inner.device, "sda1");
    assert_eq!(parts[0].inner.class, "block");
    assert_eq!(parts[0].inner.path, "/sys/class/block/sda1");
    assert_eq!(parts[1].inner.device, "sda2");
}

#[test]
fn partitions_of_a_leaf_are_empty() {
    let b = block("/sys/class/block/sda");
    let entries = vec![String::from("sdb1"), String::from("size")];
    assert!(b.partitions(&entries).is_empty());
}

#[test]
fn device_node_path_reflects_presence() {
    let b = block("/sys/class/block/sda");
    assert_eq!(b.name(), "sda");
    assert_eq!(b.dev_node_path(), "/dev/sda");
    assert_eq!(b.dev_path(true), Some(String::from("/dev/sda")));
    assert_eq!(b.dev_path(false), None);
}

#[test]
fn fancy_name_joins_vendor_and_model() {
    let b = block("/sys/class/block/sda");
    let ok = |s: &str| Ok(String::from(s));
    assert_eq!(b.fancy_name(&ok(""), &ok("")), None);
    assert_eq!(b.fancy_name(&ok("Acme"), &ok("")), Some(String::from("Acme")));
    assert_eq!(b.fancy_name(&ok(""), &ok("X200")), Some(String::from("X200")));
    assert_eq!(
        b.fancy_name(&ok("Acme"), &ok("X200")),
        Some(String::from("Acme X200"))
    );
    assert_eq!(
        b.fancy_name(&Err(SysfsError::NotFound), &ok("X200")),
        Some(String::from("X200"))
    );
    assert_eq!(b.fancy_name(&Err(SysfsError::NotFound), &Err(SysfsError::Other)), None);
}

#[test]
fn size_chain_divides_by_decimal_thousands() {
    let b = block("/sys/class/block/sda");
    let raw = Ok(String::from("2000000"));
    assert_eq!(b.size_bytes(&raw), Some(1_024_000_000));
    assert_eq!(b.size_kilobytes(&raw), Some(1_024_000));
    assert_eq!(b.size_megabytes(&raw), Some(1_024));
    assert_eq!(b.size_gigabytes(&raw), Some(1));
}

#[test]
fn unreadable_or_unparsable_size_is_none() {
    let b = block("/sys/class/block/sda");
    assert_eq!(b.size_bytes(&Ok(String::from("lots"))), None);
    assert_eq!(b.size_bytes(&Err(SysfsError::NotFound)), None);
    assert_eq!(b.size_gigabytes(&Err(SysfsError::NotFound)), None);
}

#[test]
fn brightness_front_end_stubs_answer_fixed_values() {
    assert_eq!(Brightness::delta(3), Ok(9));
    assert_eq!(Brightness::set(70), Ok(0));
}
