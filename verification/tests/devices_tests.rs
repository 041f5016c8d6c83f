//! Tests of the device-access controller's codecs: the type and permission
//! character tables, rule rendering, and `devices.list` parsing.

use cgroups_rs::devices::{
    parse_device_line, parse_device_list, parse_device_number, DevicePermissions, DeviceResource,
    DeviceResources, DeviceType, DevicesController, Resources,
};
use cgroups_rs::error::CgroupError;

#[test]
fn test_device_type_char_roundtrip() {
    let all = [DeviceType::All, DeviceType::Char, DeviceType::Block];
    for t in all {
        assert_eq!(DeviceType::from_char(Some(t.to_char())), Some(t));
    }
    assert_eq!(DeviceType::to_char(&DeviceType::All), 'a');
    assert_eq!(DeviceType::to_char(&DeviceType::Char), 'c');
    assert_eq!(DeviceType::to_char(&DeviceType::Block), 'b');
    assert_eq!(DeviceType::from_char(Some('x')), None);
    assert_eq!(DeviceType::from_char(Some('A')), None);
    assert_eq!(DeviceType::from_char(None), None);
    assert_eq!(DeviceType::default(), DeviceType::All);
}

#[test]
fn test_permission_char_roundtrip() {
    // A valid string decodes, and re-encoding keeps the original order.
    for s in ["r", "w", "m", "rwm", "mwr", "rrww", "wmrmw"] {
        assert!(DevicePermissions::is_valid(s));
        let decoded = DevicePermissions::from_str(s).unwrap();
        let encoded: String = decoded.iter().map(|p| p.to_char()).collect();
        assert_eq!(encoded, s);
    }
    // Any character outside {r, w, m} fails.
    for s in ["x", "rwx", "rw m", "R"] {
        assert!(!DevicePermissions::is_valid(s));
        assert_eq!(DevicePermissions::from_str(s), Err(CgroupError::ParseError));
    }
    // The empty string is not a valid descriptor, but decodes to the empty
    // permission set.
    assert!(!DevicePermissions::is_valid(""));
    assert_eq!(DevicePermissions::from_str(""), Ok(vec![]));
    assert_eq!(
        DevicePermissions::all(),
        vec![
            DevicePermissions::Read,
            DevicePermissions::Write,
            DevicePermissions::MkNod,
        ]
    );
}

#[test]
fn test_device_rule_roundtrip() {
    // The rendered allow-record for (Char, 1, 6, [Read]) is exactly "c 1:6 r",
    // and the same kernel line parses back to the same rule.
    let c = DevicesController::new(
        String::from("/sys/fs/cgroup/devices"),
        String::from("/"),
    );
    let payload = c.allow_device(DeviceType::Char, 1, 6, &[DevicePermissions::Read]);
    assert_eq!(payload, "c 1:6 r");
    let parsed = parse_device_line("c 1:6 r", true).unwrap();
    assert_eq!(
        parsed,
        DeviceResource {
            allow: true,
            devtype: DeviceType::Char,
            major: 1,
            minor: 6,
            access: vec![DevicePermissions::Read],
        }
    );
}

#[test]
fn test_wildcard_major_minor() {
    // -1 renders as "*".
    let c = DevicesController::new(String::from("p"), String::from("r"));
    let payload = c.deny_device(
        DeviceType::All,
        -1,
        -1,
        &[
            DevicePermissions::Read,
            DevicePermissions::Write,
            DevicePermissions::MkNod,
        ],
    );
    assert_eq!(payload, "a *:* rwm");
    // "*" parses to -1; a non-numeric token fails.
    assert_eq!(parse_device_number("*"), Ok(-1));
    assert_eq!(parse_device_number("10"), Ok(10));
    assert_eq!(parse_device_number("-7"), Ok(-7));
    assert_eq!(parse_device_number("abc"), Err(CgroupError::ParseError));
    assert_eq!(parse_device_number(""), Err(CgroupError::ParseError));
    assert_eq!(parse_device_number("1x"), Err(CgroupError::ParseError));
    assert_eq!(parse_device_number("**"), Err(CgroupError::ParseError));
}

#[test]
fn test_device_number_limits() {
    assert_eq!(
        parse_device_number("9223372036854775807"),
        Ok(9223372036854775807)
    );
    assert_eq!(
        parse_device_number("-9223372036854775808"),
        Ok(-9223372036854775808)
    );
    assert_eq!(
        parse_device_number("9223372036854775808"),
        Err(CgroupError::ParseError)
    );
    assert_eq!(
        parse_device_number("-9223372036854775809"),
        Err(CgroupError::ParseError)
    );
    assert_eq!(parse_device_number("+42"), Ok(42));
}

#[test]
fn test_device_list_parses_fully() {
    let list = "c 1:3 rwm\nb 8:0 r\na *:* rwm\n";
    let c = DevicesController::new(String::from("p"), String::from("r"));
    let rules = c.allowed_devices(list).unwrap();
    assert_eq!(rules.len(), 3);
    assert_eq!(rules[0].devtype, DeviceType::Char);
    assert_eq!(rules[0].major, 1);
    assert_eq!(rules[0].minor, 3);
    assert_eq!(
        rules[0].access,
        vec![
            DevicePermissions::Read,
            DevicePermissions::Write,
            DevicePermissions::MkNod,
        ]
    );
    assert!(rules.iter().all(|r| r.allow));
    assert_eq!(rules[1].devtype, DeviceType::Block);
    assert_eq!(rules[2].major, -1);
    assert_eq!(rules[2].minor, -1);
    // An empty permission field is a valid rule with no granted bits.
    let rules = parse_device_list("c 5:0 \n").unwrap();
    assert_eq!(rules.len(), 1);
    assert_eq!(rules[0].access, vec![]);
    // Carriage-return line endings are stripped like `str::lines` strips
    // them, and a report without a trailing newline still parses.
    let rules = parse_device_list("c 1:3 r\r\nb 8:0 w").unwrap();
    assert_eq!(rules.len(), 2);
    assert_eq!(rules[0].access, vec![DevicePermissions::Read]);
    assert_eq!(rules[1].access, vec![DevicePermissions::Write]);
}

#[test]
fn test_device_list_aborts_on_bad_line() {
    // One line with a field count other than 4 rejects the whole report.
    let c = DevicesController::new(String::from("p"), String::from("r"));
    assert_eq!(
        c.allowed_devices("c 1:3 rwm\nc 1:3\nb 8:0 r\n"),
        Err(CgroupError::ParseError)
    );
    // So do a bad type character, a bad number, and a bad permission.
    assert_eq!(
        c.allowed_devices("x 1:3 rwm\n"),
        Err(CgroupError::ParseError)
    );
    // A type token longer than one character is not in the single-character
    // table, even when it starts with a valid type character.
    assert_eq!(
        c.allowed_devices("ca 1:2 r\n"),
        Err(CgroupError::ParseError)
    );
    assert_eq!(
        parse_device_line("ca 1:2 r", true),
        Err(CgroupError::ParseError)
    );
    // A bare carriage return on a final line without a newline stays part
    // of the line, as `str::lines` keeps it, and fails the permission field.
    assert_eq!(
        c.allowed_devices("c 1:3 r\r"),
        Err(CgroupError::ParseError)
    );
    assert_eq!(
        c.allowed_devices("c q:3 rwm\n"),
        Err(CgroupError::ParseError)
    );
    assert_eq!(
        c.allowed_devices("c 1:3 rwz\n"),
        Err(CgroupError::ParseError)
    );
    // The empty report parses to no rules.
    assert_eq!(c.allowed_devices("").unwrap(), vec![]);
}

#[test]
fn test_apply_keeps_order() {
    // apply renders one write per rule, in the policy's own order, with the
    // allow flag routing each write.
    let c = DevicesController::new(String::from("p"), String::from("r"));
    let res = Resources {
        devices: DeviceResources {
            devices: vec![
                DeviceResource {
                    allow: false,
                    devtype: DeviceType::All,
                    major: -1,
                    minor: -1,
                    access: vec![
                        DevicePermissions::Read,
                        DevicePermissions::Write,
                        DevicePermissions::MkNod,
                    ],
                },
                DeviceResource {
                    allow: true,
                    devtype: DeviceType::Char,
                    major: 1,
                    minor: 6,
                    access: vec![DevicePermissions::Read],
                },
            ],
        },
    };
    let writes = c.apply(&res);
    assert_eq!(writes.len(), 2);
    assert!(!writes[0].allow);
    assert_eq!(writes[0].payload, "a *:* rwm");
    assert!(writes[1].allow);
    assert_eq!(writes[1].payload, "c 1:6 r");
}

#[test]
fn test_error_variants() {
    let parse = CgroupError::ParseError;
    let read = CgroupError::ReadFailed(
        String::from("devices.list"),
        String::from("permission denied"),
    );
    let write = CgroupError::WriteFailed(
        String::from("devices.allow"),
        String::from("c 1:6 r"),
        String::from("invalid argument"),
    );
    assert_ne!(parse, read);
    assert!(matches!(
        read,
        CgroupError::ReadFailed(ref p, ref cause) if p == "devices.list" && cause == "permission denied"
    ));
    assert!(matches!(
        write,
        CgroupError::WriteFailed(ref p, ref payload, ref cause)
            if p == "devices.allow" && payload == "c 1:6 r" && cause == "invalid argument"
    ));
}
