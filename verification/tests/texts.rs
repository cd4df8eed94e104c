//! Reading and writing the textual forms of the formats.

use compactr::formats::datetime::{parse_date, parse_datetime};
use compactr::formats::ipaddr::{parse_ipv4, parse_ipv6, Ipv4Addr, Ipv6Addr};
use compactr::formats::uuid::{parse_uuid, Uuid};
use compactr::text::chars_of;
use compactr::{EncodeError, Value};

#[test]
fn ipv4_texts() {
    assert_eq!(parse_ipv4("0.0.0.0").unwrap(), Ipv4Addr::new(0, 0, 0, 0));
    assert_eq!(parse_ipv4("255.255.255.255").unwrap(), Ipv4Addr::new(255, 255, 255, 255));
    assert_eq!(parse_ipv4("1.20.130.4").unwrap().octets(), [1, 20, 130, 4]);
    for text in [
        "", ".", "1", "1.2.3", "1.2.3.", ".1.2.3", "1.2.3.4.", "1.2.3.4.5", "1..2.3", "256.1.1.1",
        "1.1.1.256", "01.2.3.4", "1.2.3.04", "1.2.3.4 ", " 1.2.3.4", "1.2.3.a", "1.2.3.-4",
        "1.2.3.+4", "1,2,3,4", "1.2.3.1000", "0x1.2.3.4", "١.2.3.4", "1.2.3.4\n",
    ] {
        assert_eq!(
            parse_ipv4(text).unwrap_err(),
            EncodeError::InvalidFormat(format!("Invalid IPv4 address: {text}")),
            "text {text:?}"
        );
    }
    for octets in [[0, 0, 0, 0], [9, 10, 99, 100], [101, 199, 200, 255], [1, 2, 3, 4]] {
        let addr = Ipv4Addr::new(octets[0], octets[1], octets[2], octets[3]);
        let text = addr.to_string();
        assert_eq!(text, format!("{}.{}.{}.{}", octets[0], octets[1], octets[2], octets[3]));
        assert_eq!(parse_ipv4(&text).unwrap(), addr);
    }
}

#[test]
fn ipv6_texts() {
    let cases: [(&str, [u16; 8]); 16] = [
        ("::", [0, 0, 0, 0, 0, 0, 0, 0]),
        ("::1", [0, 0, 0, 0, 0, 0, 0, 1]),
        ("1::", [1, 0, 0, 0, 0, 0, 0, 0]),
        ("2001:db8::1", [0x2001, 0xdb8, 0, 0, 0, 0, 0, 1]),
        ("1:2:3:4:5:6:7:8", [1, 2, 3, 4, 5, 6, 7, 8]),
        ("FFFF:abcd:0:00:000:0000:AbCd:1234", [0xffff, 0xabcd, 0, 0, 0, 0, 0xabcd, 0x1234]),
        ("1::2:3:4:5:6:7", [1, 0, 2, 3, 4, 5, 6, 7]),
        ("1:2:3:4:5:6::7", [1, 2, 3, 4, 5, 6, 0, 7]),
        ("::2:3:4:5:6:7:8", [0, 2, 3, 4, 5, 6, 7, 8]),
        ("1:2:3:4:5:6:7::", [1, 2, 3, 4, 5, 6, 7, 0]),
        ("::ffff:192.168.1.1", [0, 0, 0, 0, 0, 0xffff, 0xc0a8, 0x0101]),
        ("1:2:3:4:5:6:1.2.3.4", [1, 2, 3, 4, 5, 6, 0x0102, 0x0304]),
        ("::1.2.3.4", [0, 0, 0, 0, 0, 0, 0x0102, 0x0304]),
        ("64:ff9b::255.255.255.255", [0x64, 0xff9b, 0, 0, 0, 0, 0xffff, 0xffff]),
        ("1:2:3:4:5::1.2.3.4", [1, 2, 3, 4, 5, 0, 0x0102, 0x0304]),
        ("a:b::c:d", [0xa, 0xb, 0, 0, 0, 0, 0xc, 0xd]),
    ];
    for (text, g) in cases {
        assert_eq!(
            parse_ipv6(text).unwrap(),
            Ipv6Addr::new(g[0], g[1], g[2], g[3], g[4], g[5], g[6], g[7]),
            "text {text:?}"
        );
    }
    for text in [
        "", ":", ":::", "::::", "1", "1:", ":1", "1:2", "1:2:3:4:5:6:7", "1:2:3:4:5:6:7:8:9",
        "1:2:3:4:5:6:7:8:", ":1:2:3:4:5:6:7:8", "1::2::3", "::1::", "12345::", "g::", "::g",
        "1:2:3:4:5:6:7::8", "1::2:3:4:5:6:7:8", "::1:2:3:4:5:6:7:8", "1:2:3:4:5:6:7:8::",
        "::1.2.3", "1.2.3.4::", "::1.2.3.4:5", "1.2.3.4", "::ffff:256.1.1.1", "::01.2.3.4",
        "1:2:3:4:5:6:7:1.2.3.4", "1:2:3:4:5:1.2.3.4", "::1:2:3:4:5:6:1.2.3.4", " ::1", "::1 ",
        "1:2:3:4:5:6:7:8\n", "::%eth0", "[::1]", "１::",
    ] {
        assert_eq!(
            parse_ipv6(text).unwrap_err(),
            EncodeError::InvalidFormat(format!("Invalid IPv6 address: {text}")),
            "text {text:?}"
        );
    }
    assert_eq!(
        Ipv6Addr::new(0x2001, 0x0db8, 0, 0, 0, 0, 0, 1).octets(),
        [0x20, 0x01, 0x0d, 0xb8, 0, 0, 0, 0, 0, 0, 0, 0, 0, 0, 0, 1]
    );
}

fn groups_of(head: &[u16], tail: &[u16]) -> Ipv6Addr {
    let mut g = [0u16; 8];
    g[..head.len()].copy_from_slice(head);
    g[8 - tail.len()..].copy_from_slice(tail);
    Ipv6Addr::new(g[0], g[1], g[2], g[3], g[4], g[5], g[6], g[7])
}

fn joined(groups: &[u16]) -> String {
    groups.iter().map(|g| format!("{g:x}")).collect::<Vec<_>>().join(":")
}

#[test]
fn ipv6_every_place_of_the_double_colon() {
    let all: [u16; 9] = [0x1, 0x22, 0x333, 0x4444, 0x5, 0x66, 0x777, 0x8888, 0x9];
    for count in 0..=9usize {
        // Without a double colon: eight groups, no more and no fewer.
        let plain = joined(&all[..count]);
        assert_eq!(parse_ipv6(&plain).is_ok(), count == 8, "text {plain:?}");
        if count == 8 {
            assert_eq!(parse_ipv6(&plain).unwrap(), groups_of(&all[..8], &[]));
        }
        for gap in 0..=count {
            let (head, tail) = (&all[..gap], &all[gap..count]);
            // A double colon stands for at least one group.
            let text = format!("{}::{}", joined(head), joined(tail));
            if count <= 7 {
                assert_eq!(parse_ipv6(&text).unwrap(), groups_of(head, tail), "text {text:?}");
            } else {
                assert!(parse_ipv6(&text).is_err(), "text {text:?}");
            }
            // A dotted-decimal address at the end counts for two groups.
            let sep = if tail.is_empty() { "" } else { ":" };
            let text = format!("{}::{}{sep}1.2.3.4", joined(head), joined(tail));
            if count + 2 <= 7 {
                let mut longer = tail.to_vec();
                longer.extend([0x0102, 0x0304]);
                assert_eq!(parse_ipv6(&text).unwrap(), groups_of(head, &longer), "text {text:?}");
            } else {
                assert!(parse_ipv6(&text).is_err(), "text {text:?}");
            }
            // Nowhere else may it stand, and three colons never.
            let text = format!("{}:1.2.3.4::{}", joined(head), joined(tail));
            assert!(parse_ipv6(&text).is_err(), "text {text:?}");
            let text = format!("{}:::{}", joined(head), joined(tail));
            assert!(parse_ipv6(&text).is_err(), "text {text:?}");
            if !tail.is_empty() {
                let text = format!("{}::1.2.3.4:{}", joined(head), joined(tail));
                assert!(parse_ipv6(&text).is_err(), "text {text:?}");
            }
        }
    }
    // Without a double colon the dotted-decimal address is the last two of eight groups.
    for count in 0..=8usize {
        let sep = if count == 0 { "" } else { ":" };
        let text = format!("{}{sep}1.2.3.4", joined(&all[..count]));
        assert_eq!(parse_ipv6(&text).is_ok(), count == 6, "text {text:?}");
    }
}

#[test]
fn ipv4_every_octet() {
    for a in 0..=255u8 {
        let text = format!("{a}.{}.0.{a}", 255 - a);
        assert_eq!(parse_ipv4(&text).unwrap(), Ipv4Addr::new(a, 255 - a, 0, a));
        assert_eq!(Ipv4Addr::new(a, 255 - a, 0, a).to_string(), text);
        assert!(parse_ipv4(&format!("0{a}.1.1.1")).is_err());
        assert!(parse_ipv4(&format!("1.1.1.{}", 256 + u32::from(a))).is_err());
    }
}

#[test]
fn uuid_texts() {
    let uuid = parse_uuid("550e8400-e29b-41d4-a716-446655440000").unwrap();
    assert_eq!(
        uuid.as_bytes(),
        &[0x55, 0x0e, 0x84, 0x00, 0xe2, 0x9b, 0x41, 0xd4, 0xa7, 0x16, 0x44, 0x66, 0x55, 0x44, 0, 0]
    );
    let bytes = [0x01, 0x23, 0x45, 0x67, 0x89, 0xab, 0xcd, 0xef, 0xfe, 0xdc, 0xba, 0x98, 0x76, 0x54, 0x32, 0x10];
    let uuid = Uuid::from_bytes(bytes);
    assert_eq!(uuid.to_string(), "01234567-89ab-cdef-fedc-ba9876543210");
    assert_eq!(parse_uuid(&uuid.to_string()).unwrap(), uuid);
    assert_eq!(parse_uuid("0123456789ABCDEFFEDCBA9876543210").unwrap(), uuid);
    assert_eq!(
        parse_uuid("not-a-uuid").unwrap_err(),
        EncodeError::InvalidFormat("Invalid UUID: not-a-uuid".to_owned())
    );
    assert_eq!(
        parse_uuid("").unwrap_err(),
        EncodeError::InvalidFormat("Invalid UUID: ".to_owned())
    );
}

#[test]
fn instants_and_days_from_text() {
    assert_eq!(parse_datetime("1970-01-01T00:00:00Z").unwrap(), 0);
    assert_eq!(parse_datetime("1970-01-01T00:00:00.001Z").unwrap(), 1);
    assert_eq!(parse_datetime("1969-12-31T23:59:59.999Z").unwrap(), -1);
    assert_eq!(parse_datetime("2024-01-15T10:30:00Z").unwrap(), 1_705_314_600_000);
    assert_eq!(parse_datetime("2024-01-15T12:30:00+02:00").unwrap(), 1_705_314_600_000);
    assert_eq!(
        parse_datetime("2024-01-15T10:30:00").unwrap_err(),
        EncodeError::InvalidFormat("Invalid datetime: 2024-01-15T10:30:00".to_owned())
    );
    assert_eq!(parse_date("1970-01-01").unwrap(), 0);
    assert_eq!(parse_date("1970-01-02").unwrap(), 1);
    assert_eq!(parse_date("1969-12-31").unwrap(), -1);
    assert_eq!(parse_date("2024-01-15").unwrap(), 19_737);
    assert_eq!(
        parse_date("2024-13-01").unwrap_err(),
        EncodeError::InvalidFormat("Invalid date: 2024-13-01".to_owned())
    );
    assert_eq!(
        parse_date("15/01/2024").unwrap_err(),
        EncodeError::InvalidFormat("Invalid date: 15/01/2024".to_owned())
    );
}

#[test]
fn characters_of_a_text() {
    assert_eq!(chars_of(""), Vec::<char>::new());
    assert_eq!(chars_of("aé🌍"), vec!['a', 'é', '🌍']);
}

#[test]
fn values_tell_their_kind() {
    let object = Value::Object(vec![
        ("a".to_owned(), Value::Integer(1)),
        ("b".to_owned(), Value::Null),
        ("a".to_owned(), Value::Integer(2)),
    ]);
    assert!(object.is_object() && !object.is_array());
    assert_eq!(object.get("a"), Some(&Value::Integer(1)));
    assert_eq!(object.get("b"), Some(&Value::Null));
    assert_eq!(object.get("c"), None);
    assert_eq!(object.as_object().map(|fields| fields.len()), Some(3));
    assert_eq!(Value::Null.get("a"), None);
    assert!(Value::Null.is_null() && !Value::Boolean(false).is_null());
    assert!(Value::Boolean(false).is_boolean());
    assert!(Value::Integer(0).is_integer());
    assert!(Value::Float(0).is_float() && !Value::Double(0).is_float());
    assert!(Value::Double(0).is_double());
    assert!(Value::String(String::new()).is_string());
    let array = Value::Array(vec![Value::Null]);
    assert!(array.is_array());
    assert_eq!(array.as_array(), Some(&vec![Value::Null]));
    assert_eq!(Value::Boolean(true).as_bool(), Some(true));
    assert_eq!(Value::Integer(7).as_bool(), None);
    assert_eq!(Value::Integer(7).as_i64(), Some(7));
    assert_eq!(Value::Float(1.5f32.to_bits()).as_float_bits().map(f32::from_bits), Some(1.5));
    assert_eq!(Value::Double(1.5f64.to_bits()).as_double_bits().map(f64::from_bits), Some(1.5));
    assert_eq!(Value::Double(0).as_float_bits(), None);
    assert_eq!(Value::String("s".to_owned()).as_str(), Some("s"));
    assert_eq!(Value::Null.as_str(), None);
    assert_eq!(Value::Null.as_array(), None);
    assert_eq!(Value::Null.as_object(), None);
    assert_eq!(Value::from(true), Value::Boolean(true));
    assert_eq!(Value::from(7i32), Value::Integer(7));
    assert_eq!(Value::from(7i64), Value::Integer(7));
    assert_eq!(Value::from("s".to_owned()), Value::String("s".to_owned()));
    assert_eq!(Value::from(vec![1u8]), Value::Binary(vec![1]));
    assert_eq!(Value::from(vec![Value::Null]), Value::Array(vec![Value::Null]));
    assert_eq!(Value::from(Vec::<(String, Value)>::new()), Value::Object(vec![]));
    assert_eq!(Value::from(Some(Value::Integer(1))), Value::Integer(1));
    assert_eq!(Value::from(None::<Value>), Value::Null);
    assert_eq!(Value::from(Ipv4Addr::new(1, 2, 3, 4)), Value::Ipv4(Ipv4Addr::new(1, 2, 3, 4)));
    assert_eq!(
        Value::from(Ipv6Addr::new(0, 0, 0, 0, 0, 0, 0, 1)),
        Value::Ipv6(Ipv6Addr::new(0, 0, 0, 0, 0, 0, 0, 1))
    );
    assert_eq!(Value::from(Uuid::from_bytes([1; 16])), Value::Uuid(Uuid::from_bytes([1; 16])));
    assert_eq!(object.clone(), object);
}
