use genome_region::{OptionalRegion, Region, RegionError, StringRegion};

fn region_format(path: &str) -> String {
    StringRegion::new(path).unwrap().uuid()
}

#[test]
fn region_works() {
    assert_eq!(StringRegion::new("").ok(), None);
    assert_eq!(StringRegion::new(":10-20").ok(), None);
    assert_eq!(
        StringRegion::new("chr1:12000-12001").ok(),
        Some(StringRegion::new_inner("chr1".to_string(), 12000, 12001))
    );
    assert_eq!(
        StringRegion::new("chr1:1200943-1201000").ok(),
        Some(StringRegion::new_inner("chr1".to_string(), 1200943, 1201000))
    );
}

#[test]
fn region_format_works() {
    let a = "chr1:12000-12001";
    assert_eq!(region_format(a), a);
    let b = "10:120-120001";
    assert_eq!(region_format(b), b);
}

#[test]
fn ordered_bounds_round_trip() {
    let r = StringRegion::new("chr1:100-200").unwrap();
    assert_eq!(r.path, "chr1");
    assert_eq!(r.start(), 100);
    assert_eq!(r.end(), 200);
    assert!(!r.inverted());
    assert_eq!(r.uuid(), "chr1:100-200");
}

#[test]
fn inverted_bounds_round_trip() {
    let r = StringRegion::new("chr1:200-100").unwrap();
    assert_eq!(r.start(), 100);
    assert_eq!(r.end(), 200);
    assert!(r.inverted());
    assert_eq!(r.left(), 200);
    assert_eq!(r.right(), 100);
    assert_eq!(r.interval(), 100);
    assert_eq!(r.uuid(), "chr1:200-100");
}

#[test]
fn empty_and_pathless_text_fail() {
    assert_eq!(StringRegion::new(""), Err(RegionError::InvalidRange));
    assert_eq!(StringRegion::new(":10-20"), Err(RegionError::InvalidRange));
}

#[test]
fn numeric_path_parses() {
    let r = StringRegion::new("10:120-120001").unwrap();
    assert_eq!(r.path, "10");
    assert_eq!(r.start, 120);
    assert_eq!(r.end, 120001);
    assert!(!r.inverted());
}

#[test]
fn interval_is_end_minus_start() {
    assert_eq!(StringRegion::new("chr1:12000-12001").unwrap().interval(), 1);
    assert_eq!(StringRegion::new("chr2:7-7").unwrap().interval(), 0);
}

#[test]
fn missing_end_fails() {
    assert_eq!(StringRegion::new("chr1:100"), Err(RegionError::InvalidEnd));
    assert_eq!(StringRegion::new("chr1:100-"), Err(RegionError::InvalidEnd));
    assert_eq!(StringRegion::new("chr1:-5"), Err(RegionError::InvalidRange));
    assert_eq!(StringRegion::new("chr1:1-2x"), Err(RegionError::InvalidRange));
    assert_eq!(StringRegion::new("ch\nr1:1-2"), Err(RegionError::InvalidRange));
}

#[test]
fn too_large_coordinates_fail() {
    assert_eq!(StringRegion::new("chr1:18446744073709551616-1"), Err(RegionError::InvalidStart));
    assert_eq!(StringRegion::new("chr1:1-18446744073709551616"), Err(RegionError::InvalidEnd));
    let r = StringRegion::new("chr1:0-18446744073709551615").unwrap();
    assert_eq!(r.end(), u64::MAX);
    assert_eq!(r.uuid(), "chr1:0-18446744073709551615");
}

#[test]
fn last_colon_separates_path() {
    let r = StringRegion::new("HLA:A:1-2").unwrap();
    assert_eq!(r.path, "HLA:A");
    assert_eq!(r.start(), 1);
    assert_eq!(r.end(), 2);
}

#[test]
fn whitespace_fields_parse() {
    let r = StringRegion::new("chr1 300 200").unwrap();
    assert_eq!(r.path, "chr1");
    assert_eq!(r.start(), 200);
    assert_eq!(r.end(), 300);
    assert!(r.inverted());
    assert_eq!(r.uuid(), "chr1:300-200");
    let t = StringRegion::new("  chrX\t+5\u{3000}9 extra").unwrap();
    assert_eq!(t.path, "chrX");
    assert_eq!(t.start(), 5);
    assert_eq!(t.end(), 9);
    assert_eq!(StringRegion::new("chr1 x 200"), Err(RegionError::InvalidStart));
    assert_eq!(StringRegion::new("chr1 100 y"), Err(RegionError::InvalidEnd));
}

#[test]
fn prefix_is_stripped_or_restored() {
    let a = StringRegion::new_with_prefix("chr1:1-2".to_string(), "chr").unwrap();
    assert_eq!(a.path, "chr1");
    assert_eq!(a.start(), 1);
    assert_eq!(a.end(), 2);
    let b = StringRegion::new_with_prefix("1:1-2".to_string(), "chr").unwrap();
    assert_eq!(b.path, "chr1");
    let c = StringRegion::new_with_prefix("chrX:1-2".to_string(), "chrX").unwrap();
    assert_eq!(c.path, "chrX");
    let f = StringRegion::new_with_prefix("chr10:1-2".to_string(), "chr").unwrap();
    assert_eq!(f.path, "chr10");
    let g = StringRegion::new_with_prefix("chr1:1-2".to_string(), "").unwrap();
    assert_eq!(g.path, "1");
    let d = StringRegion::new_with_prefix("chr12:5-3".to_string(), "").unwrap();
    assert_eq!(d.path, "12");
    assert!(d.inverted());
    let e = StringRegion::new_with_prefix("scaffold_7:1-2".to_string(), "scaf").unwrap();
    assert_eq!(e.path, "fold_7");
    assert_eq!(
        StringRegion::new_with_prefix("chr1 1 2".to_string(), "chr"),
        Err(RegionError::InvalidRange)
    );
}

#[test]
fn extend_clamps_start_at_zero() {
    let mut r = StringRegion::new("chr1:10-20").unwrap();
    r.extend(5);
    assert_eq!(r.start(), 5);
    assert_eq!(r.end(), 25);
    r.extend(100);
    assert_eq!(r.start(), 0);
    assert_eq!(r.end(), 125);
}

#[test]
fn start_minus_moves_start() {
    let mut r = StringRegion::new("chr1:10-20").unwrap();
    r.start_minus();
    assert_eq!(r.start(), 9);
    assert_eq!(r.end(), 20);
    assert_eq!(r.uuid(), "chr1:9-20");
}

#[test]
fn region_contains_is_half_open() {
    let r = Region::new(0, 5, 10);
    assert!(r.contains(0, 5));
    assert!(r.contains(0, 9));
    assert!(!r.contains(0, 10));
    assert!(!r.contains(0, 4));
    assert!(!r.contains(1, 5));
}

#[test]
fn region_includes_needs_strictly_earlier_end() {
    let r = Region::new(0, 0, 10);
    assert!(r.includes(&Region::new(0, 2, 9)));
    assert!(!r.includes(&Region::new(0, 0, 10)));
    assert!(!r.includes(&Region::new(1, 2, 9)));
}

#[test]
fn region_accessors_and_setters() {
    let mut r = Region::new(3, 4, 9);
    assert_eq!(r.ref_id(), 3);
    assert_eq!(r.len(), 5);
    r.set_ref_id(7);
    r.set_start(9);
    assert_eq!(r.len(), 0);
    r.set_end(20);
    assert_eq!((r.ref_id(), r.start(), r.end()), (7, 9, 20));
}

fn lookup(name: &str) -> Option<u64> {
    match name {
        "chr1" => Some(0),
        "chr2" => Some(1),
        _ => None,
    }
}

#[test]
fn region_convert_resolves_path() {
    let s = StringRegion::new("chr2:30-10").unwrap();
    let r = Region::convert(&s, lookup).unwrap();
    assert_eq!((r.ref_id(), r.start(), r.end()), (1, 10, 30));
    let u = StringRegion::new("chrM:1-2").unwrap();
    assert_eq!(Region::convert(&u, lookup), Err(RegionError::UnknownReference));
}

#[test]
fn region_parse_resolves_path() {
    let r = Region::parse("chr1:100-200", lookup).unwrap();
    assert_eq!((r.ref_id(), r.start(), r.end()), (0, 100, 200));
    let s = Region::parse("chr2:9-3", |n: &str| lookup(n)).unwrap();
    assert_eq!((s.ref_id(), s.start(), s.end()), (1, 3, 9));
    assert_eq!(Region::parse("chrM:1-2", lookup), Err(RegionError::UnknownReference));
    assert_eq!(Region::parse("chr1", lookup), Err(RegionError::InvalidRange));
    assert_eq!(Region::parse("chr1:5", lookup), Err(RegionError::InvalidEnd));
}

#[test]
fn optional_region_without_bounds() {
    assert_eq!(OptionalRegion::new("chr1"), Err(RegionError::InvalidRange));
    let r = OptionalRegion::new("chr1:").unwrap();
    assert_eq!(r.path, "chr1");
    assert_eq!(r.start, None);
    assert_eq!(r.end, None);
    assert_eq!(r.interval(), None);
    assert_eq!(r.inverted(), None);
    assert_eq!(r.uuid(), "chr1");
}

#[test]
fn optional_region_with_bounds() {
    let a = OptionalRegion::new("chr1:5").unwrap();
    assert_eq!((a.start, a.end), (Some(5), None));
    assert_eq!(a.interval(), None);
    assert_eq!(a.uuid(), "chr1:5");
    let b = OptionalRegion::new("chr1:50-30").unwrap();
    assert_eq!(b.interval(), Some(20));
    assert_eq!(b.inverted(), Some(true));
    assert_eq!(b.uuid(), "chr1:50-30");
    let c = OptionalRegion::new("chr1:30-50").unwrap();
    assert_eq!(c.interval(), Some(20));
    assert_eq!(c.inverted(), Some(false));
    let d = OptionalRegion::new("chr1:-7").unwrap();
    assert_eq!((d.start, d.end), (None, Some(7)));
    assert_eq!(d.uuid(), "chr1");
    let e = OptionalRegion::new("chr1:99999999999999999999-3").unwrap();
    assert_eq!((e.start, e.end), (None, Some(3)));
    assert_eq!(OptionalRegion::new("chr1:5x"), Err(RegionError::InvalidRange));
}

#[test]
fn optional_region_prefix() {
    let a = OptionalRegion::new_with_prefix("chr3:1-2".to_string(), "").unwrap();
    assert_eq!(a.path, "3");
    assert_eq!((a.start, a.end), (Some(1), Some(2)));
    let b = OptionalRegion::new_with_prefix("chr:".to_string(), "chr").unwrap();
    assert_eq!(b.path, "chr");
    let c = OptionalRegion::new_with_prefix("7:".to_string(), "chr").unwrap();
    assert_eq!(c.path, "chr7");
}

#[test]
fn prefix_rule_counts_bytes() {
    let a = StringRegion::new_with_prefix("ab\u{e9}:1-2".to_string(), "ab").unwrap();
    assert_eq!(a.path, "\u{e9}");
    let b = OptionalRegion::new_with_prefix("ab\u{e9}:1-2".to_string(), "ab").unwrap();
    assert_eq!(b.path, "\u{e9}");
    let c = StringRegion::new_with_prefix("\u{e9}:1-2".to_string(), "abc").unwrap();
    assert_eq!(c.path, "abc\u{e9}");
    let d = OptionalRegion::new_with_prefix("x\u{4e00}:".to_string(), "x").unwrap();
    assert_eq!(d.path, "\u{4e00}");
}

#[test]
fn non_ascii_digits_do_not_match() {
    assert_eq!(OptionalRegion::new("chr1:\u{663}"), Err(RegionError::InvalidRange));
    assert_eq!(StringRegion::new("chr1:\u{663}-5"), Err(RegionError::InvalidRange));
}
