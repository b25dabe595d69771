use hornet::codec::{decode, encode, DecodeError, MTCode, Value};
use hornet::export::{export, mask_cluster_id, publish, Export, PROCESS, SENTINEL};
use hornet::metric::{Indom, InstanceMetric, Metric};
use hornet::mmv::{parse, Header, MMVDumpError, Version, VersionSpecificString};
use hornet::render::{render, Piece};
use hornet::unit::{Count, Semantics, Space, Time, Unit};
use hornet::writer::{register, Decl, ExportError};

fn u32_at(b: &[u8], off: usize) -> u32 {
    u32::from_le_bytes([b[off], b[off + 1], b[off + 2], b[off + 3]])
}

fn u64_at(b: &[u8], off: usize) -> u64 {
    let mut a = [0u8; 8];
    a.copy_from_slice(&b[off..off + 8]);
    u64::from_le_bytes(a)
}

fn photons() -> Metric {
    Metric::new(
        "photons",
        Value::U32(42),
        Semantics::Counter,
        Unit::new().count(Count::One, 1).unwrap(),
        "",
        "",
    )
    .unwrap()
}

fn text_of(pieces: &[Piece]) -> String {
    let mut s = String::new();
    for p in pieces {
        match p {
            Piece::Text(t) => s.push_str(std::str::from_utf8(t).unwrap()),
            Piece::F32(b) => s.push_str(&format!("{}", f32::from_bits(*b))),
            Piece::F64(b) => s.push_str(&format!("{}", f64::from_bits(*b))),
        }
    }
    s
}

#[test]
fn codec_round_trips() {
    let vals = vec![
        Value::I32(-5),
        Value::U32(0xdead_beef),
        Value::I64(i64::MIN),
        Value::U64(u64::MAX),
        Value::F32(1.5f32.to_bits()),
        Value::F64((-2.25f64).to_bits()),
        Value::Str(String::from("cyan")),
    ];
    for v in vals {
        let cell = encode(&v);
        assert_eq!(decode(v.type_code(), &cell), Ok(v.clone()));
    }
    assert_eq!(encode(&Value::I32(-1)), vec![0xff, 0xff, 0xff, 0xff, 0, 0, 0, 0]);
    assert_eq!(encode(&Value::Str(String::from("ab"))), vec![b'a', b'b', 0]);
    assert_eq!(Value::Str(String::from("ab")).slot(), 0);
    assert_eq!(decode(7, &[0; 8]), Err(DecodeError::InvalidTypeCode(7)));
    assert_eq!(decode(1, &[0; 4]), Err(DecodeError::ShortCell(4)));
    assert_eq!(decode(6, &[0xff, 0]), Err(DecodeError::Utf8));
    assert_eq!(decode(6, b"cy\0an"), Ok(Value::Str(String::from("cy"))));
    assert_eq!(MTCode::from_u32(5), Some(MTCode::F64));
    assert_eq!(MTCode::from_u32(7), None);
}

#[test]
fn singleton_u32_counter_file() {
    let m = photons();
    let decls = vec![Decl::Single(&m)];
    let Export { mut image, cells, .. } = export(&decls, Version::V1, PROCESS, 1234, 0, 1_500_000_000).unwrap();
    assert_eq!(image.len(), 208);
    assert_eq!(&image[0..4], b"MMV\0");
    assert_eq!(u32_at(&image, 4), 1);
    assert_eq!(u64_at(&image, 8), 1_500_000_000);
    assert_eq!(u64_at(&image, 16), 0);
    assert_eq!(u32_at(&image, 24), 2);
    assert_eq!(u32_at(&image, 28), PROCESS);
    assert_eq!(u32_at(&image, 32), 1234);
    // metric then value table of contents
    assert_eq!((u32_at(&image, 40), u32_at(&image, 44), u64_at(&image, 48)), (3, 1, 72));
    assert_eq!((u32_at(&image, 56), u32_at(&image, 60), u64_at(&image, 64)), (4, 1, 176));
    assert_eq!(&image[72..79], b"photons");
    assert_eq!(u32_at(&image, 72 + 64), m.item());
    assert_eq!(u32_at(&image, 72 + 68), 1);
    assert_eq!(u32_at(&image, 72 + 72), 1);
    assert_eq!(u64_at(&image, 176), 42);
    assert_eq!(u64_at(&image, 176 + 16), 72);
    assert_eq!(cells, vec![(176, 8)]);
    publish(&mut image);
    assert_eq!(u64_at(&image, 8), u64_at(&image, 16));
    let mmv = parse(&image).unwrap();
    assert_eq!(mmv.header().gen1(), mmv.header().gen2());
    assert_eq!(mmv.value_blks()[0].1.value(), 42);
}

#[test]
fn string_metric_file() {
    let m = Metric::new("color", Value::Str(String::from("cyan")), Semantics::Discrete, Unit::new(), "", "").unwrap();
    let decls = vec![Decl::Single(&m)];
    let e = export(&decls, Version::V1, PROCESS, 1, 0, 7).unwrap();
    let img = e.image;
    // header, three tables, one metric, one value, one string
    assert_eq!(img.len(), 40 + 3 * 16 + 104 + 32 + 256);
    let value_off = 40 + 48 + 104;
    let string_off = value_off + 32;
    assert_eq!(u64_at(&img, value_off), 0);
    assert_eq!(u64_at(&img, value_off + 8), string_off as u64);
    assert_eq!(&img[string_off..string_off + 5], b"cyan\0");
    assert_eq!(e.cells, vec![(string_off as u64, 256)]);
    let mut m = m;
    m.set_val(Value::Str(String::from("magenta"))).unwrap();
    assert_eq!(m.cell_bytes(), b"magenta\0".to_vec());
}

#[test]
fn instance_metric_file() {
    let caches = Indom::new(&["L1", "L2", "L3"], "", "").unwrap();
    let mut sizes = InstanceMetric::new(
        &caches,
        "cache_size",
        Value::U32(0),
        Semantics::Discrete,
        Unit::new().space(Space::KByte, 1).unwrap(),
        "",
        "",
    )
    .unwrap();
    {
        let decls = vec![Decl::Multi(&sizes)];
        let e = export(&decls, Version::V1, 0, 1, 0, 9).unwrap();
        let p = &e.registration.plan;
        assert_eq!(p.indoms.len(), 1);
        assert_eq!(p.instances.len(), 3);
        assert_eq!(p.metrics.len(), 1);
        assert_eq!(p.values.len(), 3);
        assert_eq!(e.image.len(), 40 + 4 * 16 + 32 + 3 * 80 + 104 + 3 * 32);
        let mut img = e.image.clone();
        publish(&mut img);
        let mmv = parse(&img).unwrap();
        assert_eq!(mmv.indom_blks()[0].1.instances(), 3);
        assert_eq!(mmv.instance_blks().len(), 3);
        match mmv.instance_blks()[2].1.external_id() {
            VersionSpecificString::String(s) => assert_eq!(s, "L3"),
            VersionSpecificString::Offset(_) => panic!("version 1 names are inline"),
        }
    }
    assert!(sizes.set_val("L4", Value::U32(16384)).is_none());
    assert!(sizes.set_val("L3", Value::U32(8192)).is_some());
    assert_eq!(sizes.cell_bytes(2), vec![0, 0x20, 0, 0, 0, 0, 0, 0]);
}

#[test]
fn help_text_written_once() {
    let a = Metric::new("a", Value::U32(1), Semantics::Instant, Unit::new(), "Hello", "").unwrap();
    let b = Metric::new("b", Value::U32(2), Semantics::Instant, Unit::new(), "Hello", "").unwrap();
    let decls = vec![Decl::Single(&a), Decl::Single(&b)];
    let e = export(&decls, Version::V1, 0, 1, 0, 3).unwrap();
    let p = &e.registration.plan;
    assert_eq!(p.strings.len(), 1);
    assert_eq!(p.strings[0], b"Hello".to_vec());
    let img = e.image;
    let string_off = 40 + 3 * 16 + 2 * 104 + 2 * 32;
    assert_eq!(&img[string_off..string_off + 6], b"Hello\0");
    let m0 = 40 + 48;
    let m1 = m0 + 104;
    assert_eq!(u64_at(&img, m0 + 88), string_off as u64);
    assert_eq!(u64_at(&img, m1 + 88), string_off as u64);
    assert_eq!(u64_at(&img, m0 + 96), 0);
}

#[test]
fn unpublished_file_is_refused() {
    let m = photons();
    let decls = vec![Decl::Single(&m)];
    let e = export(&decls, Version::V1, PROCESS, 1, 0, 99).unwrap();
    assert_eq!(parse(&e.image).err(), Some(MMVDumpError::GenerationMismatch));
}

#[test]
fn version_two_names_in_strings() {
    let caches = Indom::new(&["L1", "L2"], "", "").unwrap();
    let sizes = InstanceMetric::new(&caches, "cache_size", Value::U64(5), Semantics::Instant, Unit::new(), "", "").unwrap();
    let decls = vec![Decl::Multi(&sizes)];
    let e = export(&decls, Version::V2, 0, 1, 0, 5).unwrap();
    // metric name and two instance names
    assert_eq!(e.registration.plan.strings.len(), 3);
    assert_eq!(e.image.len(), 40 + 5 * 16 + 32 + 2 * 24 + 48 + 2 * 32 + 3 * 256);
    let mut img = e.image.clone();
    publish(&mut img);
    let mmv = parse(&img).unwrap();
    let text = text_of(&render(&mmv));
    assert!(text.contains("cache_size[") && text.contains(" or \"L2\"] = 5\n"));
}

#[test]
fn two_metrics_share_a_domain() {
    let caches = Indom::new(&["L1", "L2"], "Caches", "").unwrap();
    let a = InstanceMetric::new(&caches, "size", Value::U32(1), Semantics::Instant, Unit::new(), "", "").unwrap();
    let b = InstanceMetric::new(&caches, "ways", Value::U32(8), Semantics::Instant, Unit::new(), "", "").unwrap();
    let decls = vec![Decl::Multi(&a), Decl::Multi(&b)];
    let r = register(&decls, Version::V1).unwrap();
    assert_eq!(r.plan.indoms.len(), 1);
    assert_eq!(r.plan.instances.len(), 2);
    assert_eq!(r.plan.values.len(), 4);
    assert_eq!(r.value_start, vec![0, 2]);
    assert_eq!(r.plan.strings.len(), 1);
}

#[test]
fn reexport_differs_only_in_generation_and_pid() {
    let m = photons();
    let decls = vec![Decl::Single(&m)];
    let a = export(&decls, Version::V1, PROCESS, 10, 0, 100).unwrap().image;
    let b = export(&decls, Version::V1, PROCESS, 20, 0, 200).unwrap().image;
    assert_eq!(a.len(), b.len());
    for j in 0..a.len() {
        if !(8..24).contains(&j) && !(32..36).contains(&j) {
            assert_eq!(a[j], b[j]);
        }
    }
}

#[test]
fn cluster_id_is_cut_to_twelve_bits() {
    assert_eq!(mask_cluster_id(0x1234_5678), 0x678);
    let m = photons();
    let decls = vec![Decl::Single(&m)];
    let img = export(&decls, Version::V1, 0, 1, 0xffff_ffff, 4).unwrap().image;
    assert_eq!(u32_at(&img, 36), 0xfff);
}

#[test]
fn no_declarations_still_readable() {
    let decls: Vec<Decl> = Vec::new();
    let mut img = export(&decls, Version::V1, PROCESS | SENTINEL, 1, 0, 8).unwrap().image;
    assert_eq!(img.len(), 72);
    publish(&mut img);
    let mmv = parse(&img).unwrap();
    assert_eq!(mmv.header().toc_count(), 2);
    assert_eq!(mmv.metric_blks().len(), 0);
}

#[test]
fn export_errors_are_typed() {
    assert_ne!(ExportError::TooLarge, ExportError::IndomClash(1));
}

fn published_photons() -> Vec<u8> {
    let m = photons();
    let decls = vec![Decl::Single(&m)];
    let mut img = export(&decls, Version::V1, PROCESS, 77, 3, 1000).unwrap().image;
    publish(&mut img);
    img
}

#[test]
fn parse_faults() {
    let good = published_photons();
    assert!(parse(&good).is_ok());
    assert_eq!(parse(&good[..30]).err(), Some(MMVDumpError::Truncated(40)));
    let mut bad = good.clone();
    bad[0] = b'X';
    assert_eq!(parse(&bad).err(), Some(MMVDumpError::InvalidMagic));
    let mut bad = good.clone();
    bad[4] = 3;
    assert_eq!(parse(&bad).err(), Some(MMVDumpError::InvalidVersion(3)));
    let mut bad = good.clone();
    bad[24] = 6;
    assert_eq!(parse(&bad).err(), Some(MMVDumpError::TocCountOutOfRange(6)));
    let mut bad = good.clone();
    bad[24] = 1;
    assert_eq!(parse(&bad).err(), Some(MMVDumpError::TocCountOutOfRange(1)));
    let mut bad = good.clone();
    bad[37] = 0x10;
    assert_eq!(parse(&bad).err(), Some(MMVDumpError::InvalidClusterId(0x1003)));
    let mut bad = good.clone();
    bad[40] = 9;
    assert_eq!(parse(&bad).err(), Some(MMVDumpError::InvalidTocType(9)));
    let mut bad = good.clone();
    bad[48] = 0;
    assert_eq!(parse(&bad).err(), Some(MMVDumpError::InvalidSectionOffset(0)));
    let mut bad = good.clone();
    bad[40] = 1;
    assert_eq!(parse(&bad).err(), Some(MMVDumpError::MetricTocAbsent));
    let mut bad = good.clone();
    bad[56] = 1;
    assert_eq!(parse(&bad).err(), Some(MMVDumpError::ValueTocAbsent));
    let mut bad = good.clone();
    bad[72 + 84] = 1;
    assert_eq!(parse(&bad).err(), Some(MMVDumpError::InvalidPad(1)));
    let mut bad = good.clone();
    bad[72] = 0xff;
    assert_eq!(parse(&bad).err(), Some(MMVDumpError::Utf8Error));
    assert_eq!(parse(&good[..200]).err(), Some(MMVDumpError::Truncated(176)));
    let mut bad = good.clone();
    for b in bad[72..136].iter_mut() {
        *b = b'x';
    }
    assert_eq!(parse(&bad).err(), Some(MMVDumpError::Unterminated(72)));
}

#[test]
fn dump_text_of_a_small_file() {
    let img = published_photons();
    let mmv = parse(&img).unwrap();
    let h: &Header = mmv.header();
    assert_eq!(h.version(), Version::V1);
    let item = u32_at(&img, 72 + 64);
    let expected = format!(
        "Version    = 1\nGenerated  = 1000\nTOC count  = 2\nCluster    = 3\nProcess    = 77\nFlags      = process (0x2)\n\n\
TOC[0]: toc offset 40, metrics offset 72 (1 entries)\n  [{item}/72] photons\n      type=Uint32 (0x1), sem=counter (0x1), pad=0x0\n      unit=count (0x100000)\n      (no indom)\n      (no shorttext)\n      (no longtext)\n\n\
TOC[1]: toc offset 56, values offset 176 (1 entries)\n  [{item}/176] photons = 42\n\n",
        item = item
    );
    let once = text_of(&render(&mmv));
    assert_eq!(once, expected);
    let twice = text_of(&render(&mmv));
    assert_eq!(once, twice);
}

#[test]
fn dump_of_floats_and_units() {
    let hz = Unit::new().time(Time::Sec, -1).unwrap();
    let f = Metric::new("frequency", Value::F64(2.5f64.to_bits()), Semantics::Instant, hz, "", "").unwrap();
    let s = Metric::new("size", Value::I32(-3), Semantics::Instant, Unit::new().space(Space::MByte, 2).unwrap(), "", "").unwrap();
    let decls = vec![Decl::Single(&f), Decl::Single(&s)];
    let mut img = export(&decls, Version::V1, 0, 1, 0, 2).unwrap().image;
    publish(&mut img);
    let text = text_of(&render(&parse(&img).unwrap()));
    assert!(text.contains("frequency = 2.5\n"));
    assert!(text.contains("size = -3\n"));
    assert!(text.contains("unit=/ sec (0xf003000)\n"));
    assert!(text.contains("unit=MiB^2 (0x20020000)\n"));
    assert!(text.contains("Flags      = (no flags) (0x0)\n"));
}

#[test]
fn dump_of_instance_domains() {
    let caches = Indom::new(&["L1", "L2"], "Caches", "").unwrap();
    let sizes = InstanceMetric::new(&caches, "size", Value::U32(4), Semantics::Instant, Unit::new(), "", "").unwrap();
    let decls = vec![Decl::Multi(&sizes)];
    let mut img = export(&decls, Version::V1, 0, 1, 0, 6).unwrap().image;
    publish(&mut img);
    let mmv = parse(&img).unwrap();
    let text = text_of(&render(&mmv));
    let id = caches.id();
    let indom_off = 40 + 5 * 16;
    let inst_off = indom_off + 32;
    let strings_off = inst_off + 2 * 80 + 104 + 2 * 32;
    assert!(text.contains(&format!(
        "TOC[0]: toc offset 40, indoms offset {} (1 entries)\n  [{}/{}] 2 instances, starting at offset {}\n      shorttext=Caches\n      (no longtext)\n",
        indom_off, id, indom_off, inst_off
    )));
    assert!(text.contains(&format!("  [{}/{}] instance = [", id, inst_off + 80)));
    assert!(text.contains(" or \"L2\"]\n"));
    assert!(text.contains(&format!("  [1/{}] Caches\n", strings_off)));
    assert!(text.contains("      indom="));
}

#[test]
fn string_block_without_nul_is_refused() {
    let m = Metric::new("a", Value::U32(1), Semantics::Instant, Unit::new(), "Hello", "").unwrap();
    let decls = vec![Decl::Single(&m)];
    let mut img = export(&decls, Version::V1, 0, 1, 0, 3).unwrap().image;
    publish(&mut img);
    let string_off = 40 + 3 * 16 + 104 + 32;
    for b in img[string_off..string_off + 256].iter_mut() {
        *b = b'h';
    }
    assert_eq!(parse(&img).err(), Some(MMVDumpError::Unterminated(string_off as u64)));
}
