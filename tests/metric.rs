use hornet::codec::Value;
use hornet::conf::conf_assignment;
use hornet::export::{export, PROCESS};
use hornet::mmv::Version;
use hornet::writer::Decl;
use hornet::ident::{indom_id, item_id};
use hornet::error::Error;
use hornet::metric::{Indom, InstanceMetric, Metric};
use hornet::unit::{Count, Semantics, Space, Time, Unit};

#[test]
fn metric_test_units() {
    assert_eq!(Unit::new().pmapi_repr, 0);

    assert_eq!(
        Unit::new().space(Space::KByte, 1).unwrap().pmapi_repr,
        1 << 28 | (Space::KByte as u32) << 16
    );
    assert_eq!(
        Unit::new().time(Time::Min, 1).unwrap().pmapi_repr,
        1 << 24 | (Time::Min as u32) << 12
    );
    assert_eq!(
        Unit::new().count(Count::One, 1).unwrap().pmapi_repr,
        1 << 20 | (Count::One as u32) << 8
    );

    let (space_dim, time_dim, count_dim) = (-3, -2, 1);
    let unit = Unit::new()
        .space(Space::EByte, space_dim).unwrap()
        .time(Time::Hour, time_dim).unwrap()
        .count(Count::One, count_dim).unwrap();

    assert_eq!(unit.pmapi_repr,
        ((space_dim as u32) & ((1 << 4) - 1)) << 28 |
        ((time_dim as u32) & ((1 << 4) - 1)) << 24 |
        ((count_dim as u32) & ((1 << 4) - 1)) << 20 |
        (Space::EByte as u32) << 16 |
        (Time::Hour as u32) << 12 |
        (Count::One as u32) << 8
    );

    assert!(Unit::new().space(Space::Byte, 8).is_err());
    assert!(Unit::new().time(Time::Sec, -9).is_err());
}

#[test]
fn unit_dimension_bounds() {
    assert!(Unit::new().space(Space::Byte, 7).is_ok());
    assert!(Unit::new().space(Space::Byte, -8).is_ok());
    assert_eq!(Unit::new().count(Count::One, 8), Err(Error::DimensionOutOfRange(8)));
    assert_eq!(Unit::new().count(Count::One, -9), Err(Error::DimensionOutOfRange(-9)));
}

#[test]
fn unit_fields_read_back() {
    let u = Unit::new()
        .space(Space::PByte, -8).unwrap()
        .time(Time::USec, 7).unwrap()
        .count(Count::One, -1).unwrap();
    assert_eq!(u.space_scale(), 5);
    assert_eq!(u.time_scale(), 1);
    assert_eq!(u.count_scale(), 0);
    assert_eq!(u.space_dim(), -8);
    assert_eq!(u.time_dim(), 7);
    assert_eq!(u.count_dim(), -1);
    assert_eq!(Unit::from_raw(0xf100_0000).space_dim(), -1);
}

#[test]
fn builder_sets_rather_than_ors() {
    let u = Unit::new().space(Space::EByte, 3).unwrap().space(Space::KByte, 1).unwrap();
    assert_eq!(u.pmapi_repr, 1 << 28 | 1 << 16);
}

#[test]
fn scale_codes() {
    assert_eq!(Space::from_u8(6), Some(Space::EByte));
    assert_eq!(Space::from_u8(7), None);
    assert_eq!(Time::from_u8(5), Some(Time::Hour));
    assert_eq!(Time::from_u8(6), None);
    assert_eq!(Count::from_u8(0), Some(Count::One));
    assert_eq!(Count::from_u8(1), None);
    assert_eq!(Semantics::from_u32(3), Some(Semantics::Instant));
    assert_eq!(Semantics::from_u32(2), None);
    assert_eq!(Semantics::Discrete.code(), 4);
}

#[test]
fn name_and_help_bounds() {
    let n63 = "a".repeat(63);
    let n64 = "a".repeat(64);
    let h255 = "h".repeat(255);
    let h256 = "h".repeat(256);
    assert!(Metric::new(&n63, Value::U32(0), Semantics::Discrete, Unit::new(), "", "").is_ok());
    assert_eq!(
        Metric::new(&n64, Value::U32(0), Semantics::Discrete, Unit::new(), "", "").err(),
        Some(Error::NameTooLong(64))
    );
    assert!(Metric::new("m", Value::U32(0), Semantics::Discrete, Unit::new(), &h255, &h255).is_ok());
    assert_eq!(
        Metric::new("m", Value::U32(0), Semantics::Discrete, Unit::new(), &h256, "").err(),
        Some(Error::HelpTooLong(256))
    );
    assert_eq!(
        Metric::new("m", Value::U32(0), Semantics::Discrete, Unit::new(), "", &h256).err(),
        Some(Error::HelpTooLong(256))
    );
    let long = Metric::new("m", Value::Str("v".repeat(300)), Semantics::Discrete, Unit::new(), "", "").unwrap();
    assert_eq!(long.val(), Value::Str("v".repeat(255)));
    // a two-byte character straddling byte 255 is left out whole
    let s = format!("{}é", "a".repeat(254));
    let cut = Metric::new("m", Value::Str(s), Semantics::Discrete, Unit::new(), "", "").unwrap();
    assert_eq!(cut.val(), Value::Str("a".repeat(254)));
    let mut m = Metric::new("m", Value::Str(String::new()), Semantics::Discrete, Unit::new(), "", "").unwrap();
    m.set_val(Value::Str("w".repeat(256))).unwrap();
    assert_eq!(m.val(), Value::Str("w".repeat(255)));
}

#[test]
fn metric_holds_its_declaration() {
    let mut m = Metric::new(
        "photons",
        Value::U32(42),
        Semantics::Counter,
        Unit::new().count(Count::One, 1).unwrap(),
        "No. of photons",
        "Number of photons emitted by source",
    )
    .unwrap();
    assert_eq!(m.name(), "photons");
    assert_eq!(m.val(), Value::U32(42));
    assert_eq!(m.type_code(), 1);
    assert_eq!(m.sem(), Semantics::Counter);
    assert_eq!(m.unit(), 1 << 20);
    assert_eq!(m.indom(), 0);
    assert_eq!(m.shorthelp(), "No. of photons");
    assert!(m.item() != 0 && m.item() >> 10 == 0);
    assert_eq!(m.set_val(Value::U32(7)), Ok(()));
    assert_eq!(m.val(), Value::U32(7));
    assert_eq!(m.cell_bytes(), vec![7, 0, 0, 0, 0, 0, 0, 0]);
    assert_eq!(m.set_val(Value::I64(7)), Err(Error::TypeMismatch(2)));
    assert_eq!(m.val(), Value::U32(7));
}

#[test]
fn indom_counts_repeats_once() {
    let d = Indom::new(&["L1", "L2", "L1", "L3"], "Caches", "").unwrap();
    assert_eq!(d.instance_count(), 3);
    assert!(d.has_instance("L2"));
    assert!(!d.has_instance("L4"));
    assert_eq!(d.instance(2), "L3");
    assert!(d.id() != 0 && d.id() >> 22 == 0);
    let long = "i".repeat(64);
    assert_eq!(Indom::new(&["ok", &long], "", "").err(), Some(Error::InstanceTooLong(64)));
    assert_eq!(Indom::new(&["ok"], &"h".repeat(256), "").err(), Some(Error::HelpTooLong(256)));
}

#[test]
fn test_instance_metrics() {
    let caches = Indom::new(&["L1", "L2", "L3"], "Caches", "Different levels of CPU caches").unwrap();

    let mut cache_sizes = InstanceMetric::new(
        &caches,
        "cache_size",
        Value::U32(0),
        Semantics::Discrete,
        Unit::new().space(Space::KByte, 1).unwrap(),
        "Cache sizes",
        "Sizes of different CPU caches",
    )
    .unwrap();

    assert!(cache_sizes.has_instance("L1"));
    assert!(!cache_sizes.has_instance("L4"));

    assert_eq!(cache_sizes.val("L2").unwrap(), Value::U32(0));
    assert!(cache_sizes.val("L5").is_none());

    let cpu = Metric::new("cpu", Value::Str(String::from("kabylake")), Semantics::Discrete, Unit::new(), "CPU family", "")
        .unwrap();

    {
        let decls = vec![Decl::Multi(&cache_sizes), Decl::Single(&cpu)];
        assert!(export(&decls, Version::V1, PROCESS, 1, 0, 11).is_ok());
    }

    assert!(cache_sizes.set_val("L3", Value::U32(8192)).is_some());
    assert_eq!(cache_sizes.val("L3").unwrap(), Value::U32(8192));

    assert!(cache_sizes.set_val("L4", Value::U32(16384)).is_none());
    assert_eq!(cache_sizes.instance_count(), 3);
    assert_eq!(cache_sizes.metric().indom(), caches.id());
}

#[test]
fn pcp_conf_lines() {
    assert_eq!(
        conf_assignment(b"PCP_TMP_DIR=/var/lib/pcp/tmp\n"),
        Some((String::from("PCP_TMP_DIR"), String::from("/var/lib/pcp/tmp")))
    );
    assert_eq!(conf_assignment(b"PCP_A=b c\n"), Some((String::from("PCP_A"), String::from("b c"))));
    assert_eq!(conf_assignment(b"PCP_A=\"quoted\"\n"), None);
    assert_eq!(conf_assignment(b"PCP_A=x\n"), None);
    assert_eq!(conf_assignment(b"PCP_=xy\n"), None);
    assert_eq!(conf_assignment(b"PCP_A=xy"), None);
    assert_eq!(conf_assignment(b"pcp_A=xy\n"), None);
    assert_eq!(conf_assignment(b"# PCP_A=xy\n"), None);
}

#[test]
fn metric_test_invalid_metric_strings() {
    let invalid_name: String = "n".repeat(64);
    let m1 = Metric::new(&invalid_name, Value::U32(0), Semantics::Discrete, Unit::new(), "", "");
    assert!(m1.is_err());

    let invalid_shorthelp: String = "s".repeat(256);
    let m2 = Metric::new("", Value::U32(0), Semantics::Discrete, Unit::new(), &invalid_shorthelp, "");
    assert!(m2.is_err());

    let invalid_longhelp: String = "l".repeat(256);
    let m3 = Metric::new("", Value::U32(0), Semantics::Discrete, Unit::new(), "", &invalid_longhelp);
    assert!(m3.is_err());
}

#[test]
fn domain_ids_keep_names_apart() {
    let ab_c = vec![b"ab".to_vec(), b"c".to_vec()];
    let a_bc = vec![b"a".to_vec(), b"bc".to_vec()];
    assert_ne!(indom_id(&ab_c), indom_id(&a_bc));
    let id = indom_id(&ab_c);
    assert!(id != 0 && id >> 22 == 0);
    let item = item_id(b"photons");
    assert!(item != 0 && item >> 10 == 0);
}
