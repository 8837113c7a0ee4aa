use indexmap::IndexMap;
use iot2db::config::{Aggregate, Mapping, Value, ValueKind};
use iot2db::frontend::homematic_ccu3::{
    check_response, parametersets_to_load, read_channel_access, ChannelAccess, ParametersetToLoad,
    RpcFailure,
};
use iot2db::frontend::journald::{target_unit, unit_matches, JournalMatch};
use iot2db::text::{parse_usize, split_at};

fn load(load_values: bool, load_master: bool) -> ParametersetToLoad {
    ParametersetToLoad { load_values, load_master }
}

fn access(device: &str, channel: usize, load_values: bool, load_master: bool) -> ChannelAccess {
    ChannelAccess { device: device.to_string(), channel, load: load(load_values, load_master) }
}

#[test]
fn channel_access_reads_device_channel_and_set() {
    assert_eq!(
        read_channel_access("/Livingroom/channels/1/values/ACTUAL_TEMPERATURE"),
        Some(access("Livingroom", 1, true, false))
    );
    assert_eq!(
        read_channel_access("/Livingroom/channels/0/master/CYCLIC_INFO_MSG"),
        Some(access("Livingroom", 0, false, true))
    );
    assert_eq!(read_channel_access("/dev/channels/12/address"), Some(access("dev", 12, false, false)));
    assert_eq!(read_channel_access("/dev/channels/12"), Some(access("dev", 12, false, false)));
    assert_eq!(read_channel_access("/dev/channels/+7/values"), Some(access("dev", 7, true, false)));
    assert_eq!(read_channel_access("/a~1b~0c/channels/3/values"), Some(access("a/b~c", 3, true, false)));
    // what stands in front of the first separator does not count
    assert_eq!(read_channel_access("x/dev/channels/3/master"), Some(access("dev", 3, false, true)));
}

#[test]
fn channel_access_needs_a_channel() {
    assert_eq!(read_channel_access(""), None);
    assert_eq!(read_channel_access("/dev"), None);
    assert_eq!(read_channel_access("/dev/channels"), None);
    assert_eq!(read_channel_access("/dev/name/1/values"), None);
    assert_eq!(read_channel_access("/dev/channels/one/values"), None);
    assert_eq!(read_channel_access("/dev/channels//values"), None);
    assert_eq!(read_channel_access("/dev/channels/-1/values"), None);
    assert_eq!(read_channel_access("/dev/channels/99999999999999999999999/values"), None);
    assert_eq!(read_channel_access("dev/channels/1/values"), None);
}

fn mapping(pointers: Vec<&str>) -> Mapping {
    let mut values = IndexMap::new();
    for (i, pointer) in pointers.into_iter().enumerate() {
        values.insert(format!("c{i}"), Value::from_pointer(pointer));
    }
    values.insert(
        "site".to_string(),
        Value {
            kind: ValueKind::Constant { constant_value: "/dev/channels/9/values".to_string() },
            preprocess: None,
            postprocess: None,
            aggregate: Aggregate::Off,
        },
    );
    Mapping { direct_values: None, values }
}

#[test]
fn parametersets_to_load_collects_per_channel() {
    let m = mapping(vec![
        "/Kitchen/channels/1/values/TEMP",
        "/Attic/channels/1/master/X",
        "/Kitchen/interface",
        "/Kitchen/channels/1/master/Y",
        "/Kitchen/channels/2/address",
        "/Attic/channels/1/master/Z",
        "/Kitchen/channels/2/values/HUMIDITY",
    ]);
    assert_eq!(
        parametersets_to_load(&m),
        vec![
            access("Kitchen", 1, true, true),
            access("Attic", 1, false, true),
            access("Kitchen", 2, true, false),
        ]
    );
    assert_eq!(parametersets_to_load(&mapping(vec![])), vec![]);
}

#[test]
fn check_response_judges_answers() {
    assert_eq!(check_response("1.1", false, true), Ok(()));
    assert_eq!(check_response("1.1", true, true), Err(RpcFailure::Error));
    assert_eq!(check_response("1.1", true, false), Err(RpcFailure::Error));
    assert_eq!(check_response("1.1", false, false), Err(RpcFailure::Empty));
    assert_eq!(check_response("2.0", false, true), Err(RpcFailure::Version));
    assert_eq!(check_response("", true, false), Err(RpcFailure::Version));
    assert_eq!(check_response("1.10", false, true), Err(RpcFailure::Version));
}

fn field(field: &str, value: &str) -> JournalMatch {
    JournalMatch::Field { field: field.to_string(), value: value.to_string() }
}

#[test]
fn unit_matches_select_what_is_about_the_unit() {
    assert_eq!(
        unit_matches("sshd.service"),
        vec![
            field("_SYSTEMD_UNIT", "sshd.service"),
            JournalMatch::Or,
            field("_PID", "1"),
            field("UNIT", "sshd.service"),
            JournalMatch::Or,
            field("_UID", "0"),
            field("OBJECT_SYSTEMD_UNIT", "sshd.service"),
            JournalMatch::Or,
        ]
    );
}

#[test]
fn target_unit_prefers_what_is_said_about_a_unit() {
    let zero = "0".to_string();
    let one = "1".to_string();
    let other = "1000".to_string();
    let object = "object.service".to_string();
    let unit = "unit.service".to_string();
    let own = "own.service".to_string();
    let all = |uid, pid| target_unit(uid, Some(&object), pid, Some(&unit), Some(&own));
    assert_eq!(all(Some(&zero), Some(&one)), Some(&object));
    assert_eq!(all(Some(&zero), None), Some(&object));
    assert_eq!(all(Some(&other), Some(&one)), Some(&unit));
    assert_eq!(all(None, Some(&one)), Some(&unit));
    assert_eq!(all(Some(&other), Some(&other)), Some(&own));
    assert_eq!(all(None, None), Some(&own));
    // a field that is not there gives way to the next
    assert_eq!(target_unit(Some(&zero), None, Some(&one), Some(&unit), Some(&own)), Some(&unit));
    assert_eq!(target_unit(Some(&zero), None, Some(&one), None, Some(&own)), Some(&own));
    assert_eq!(target_unit(Some(&zero), None, Some(&one), None, None), None);
    assert_eq!(target_unit(None, Some(&object), None, Some(&unit), None), None);
}

#[test]
fn parse_usize_reads_like_the_standard_library() {
    for text in [
        "0", "7", "42", "007", "+5", "+0", "", "+", "-", "-0", "-1", "++1", "1+", " 1", "1 ", "1_0",
        "0x10", "１", "18446744073709551615", "18446744073709551616", "99999999999999999999",
        "+18446744073709551615", "4294967295", "4294967296", "a", "1a",
    ] {
        assert_eq!(parse_usize(text), text.parse::<usize>().ok(), "{text:?}");
    }
    assert_eq!(parse_usize("42"), Some(42));
    assert_eq!(parse_usize("+5"), Some(5));
    assert_eq!(parse_usize("-0"), None);
}

#[test]
fn split_at_cuts_at_every_occurrence() {
    for text in ["", "/", "//", "a", "/a", "a/", "a/b", "/a/b/", "a//b", "ä/ö/ü"] {
        let expected: Vec<String> = text.split('/').map(str::to_string).collect();
        assert_eq!(split_at(text, '/'), expected, "{text:?}");
    }
    assert_eq!(split_at("/dev/channels/1", '/'), vec!["", "dev", "channels", "1"]);
}
