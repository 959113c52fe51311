use patches::version::Version;
use std::cmp::Ordering;

fn version(s: &str) -> Version {
    Version::parse(s).unwrap()
}

fn strings(v: &[String]) -> Vec<&str> {
    v.iter().map(|s| s.as_str()).collect()
}

#[test]
fn reads_a_plain_version() {
    let v = version("3.14.15");
    assert_eq!(v.major(), 3);
    assert_eq!(v.minor(), 14);
    assert_eq!(v.patch(), 15);
    assert!(v.pre().is_empty());
    assert!(v.build().is_empty());
}

#[test]
fn reads_zero() {
    let v = version("0.0.0");
    assert_eq!((v.major(), v.minor(), v.patch()), (0, 0, 0));
}

#[test]
fn reads_the_largest_numbers() {
    let v = version("18446744073709551615.18446744073709551615.18446744073709551615");
    assert_eq!(v.major(), u64::MAX);
    assert_eq!(v.minor(), u64::MAX);
    assert_eq!(v.patch(), u64::MAX);
}

#[test]
fn refuses_numbers_beyond_64_bits() {
    for bad in [
        "18446744073709551616.0.0",
        "0.18446744073709551616.0",
        "0.0.18446744073709551616",
        "0.0.99999999999999999999999999",
    ] {
        assert_eq!(Version::parse(bad).unwrap_err().input, bad);
    }
}

#[test]
fn reads_a_pre_release() {
    let v = version("1.0.0-alpha.1");
    assert_eq!(strings(v.pre()), vec!["alpha", "1"]);
    assert!(v.build().is_empty());
    let w = version("1.0.0-x-y-z.--");
    assert_eq!(strings(w.pre()), vec!["x-y-z", "--"]);
    let z = version("1.0.0-0.3.7");
    assert_eq!(strings(z.pre()), vec!["0", "3", "7"]);
}

#[test]
fn reads_build_metadata() {
    let v = version("1.0.0+20130313144700");
    assert!(v.pre().is_empty());
    assert_eq!(strings(v.build()), vec!["20130313144700"]);
    let w = version("1.0.0+21AF26D3----117B344092BD");
    assert_eq!(strings(w.build()), vec!["21AF26D3----117B344092BD"]);
    let z = version("1.0.0+001.-");
    assert_eq!(strings(z.build()), vec!["001", "-"]);
}

#[test]
fn reads_pre_release_and_build_metadata() {
    let v = version("1.0.0-beta+exp.sha.5114f85");
    assert_eq!((v.major(), v.minor(), v.patch()), (1, 0, 0));
    assert_eq!(strings(v.pre()), vec!["beta"]);
    assert_eq!(strings(v.build()), vec!["exp", "sha", "5114f85"]);
}

#[test]
fn a_hyphen_after_the_plus_belongs_to_the_build() {
    let v = version("1.2.3+a-b");
    assert!(v.pre().is_empty());
    assert_eq!(strings(v.build()), vec!["a-b"]);
}

#[test]
fn a_long_numeric_identifier_is_kept() {
    let v = version("1.0.0-99999999999999999999999999");
    assert_eq!(strings(v.pre()), vec!["99999999999999999999999999"]);
}

#[test]
fn refuses_malformed_texts() {
    for bad in [
        "",
        "1",
        "1.2",
        "a.b.c",
        "1.2.3.4",
        "1..3",
        ".1.2",
        "1.2.",
        "01.2.3",
        "1.02.3",
        "1.2.03",
        "00.0.0",
        "-1.2.3",
        "+1.2.3",
        "1.2.3-",
        "1.2.3+",
        "1.2.3-+build",
        "1.2.3-01",
        "1.2.3-a..b",
        "1.2.3-a.",
        "1.2.3-.a",
        "1.2.3+a..b",
        "1.2.3-a+b+c",
        "1.2.3-a_b",
        "1.2.3+a_b",
        " 1.2.3",
        "1.2.3 ",
        "1.2.3\n",
        "v1.2.3",
        "1.2.x",
        "1,2,3",
        "1.2.3-\u{e9}",
        "1.2.3+\u{3b1}",
        "\u{661}.2.3",
    ] {
        let err = Version::parse(bad).unwrap_err();
        assert_eq!(err.input, bad);
    }
}

#[test]
fn a_numeric_build_identifier_may_start_with_zero() {
    assert!(Version::parse("1.2.3+01").is_ok());
    assert!(Version::parse("1.2.3-01").is_err());
    assert!(Version::parse("1.2.3-01a").is_ok());
    assert!(Version::parse("1.2.3-0").is_ok());
}

#[test]
fn writes_back_what_it_read() {
    for s in [
        "0.0.0",
        "1.2.3",
        "10.20.30",
        "18446744073709551615.0.1",
        "1.0.0-alpha",
        "1.0.0-alpha.1",
        "1.0.0-0.3.7",
        "1.0.0-x.7.z.92",
        "1.0.0-x-y-z.--",
        "1.0.0+20130313144700",
        "1.0.0-beta+exp.sha.5114f85",
        "1.0.0+21AF26D3----117B344092BD",
        "1.2.3----RC-SNAPSHOT.12.9.1--.12+788",
        "1.0.0+0.build.1-rc.10000aaa-kk-0.1",
    ] {
        assert_eq!(version(s).to_string(), s);
    }
}

#[test]
fn reads_back_what_it_wrote() {
    let v = version("1.2.3-rc.1+build.5");
    let again = version(&v.to_string());
    assert!(v == again);
}

#[test]
fn new_has_neither_pre_release_nor_build() {
    let v = Version::new(1, 20, 300);
    assert_eq!(v.to_string(), "1.20.300");
    assert_eq!(v.core_string(), "1.20.300");
    assert!(v == version("1.20.300"));
}

#[test]
fn core_string_leaves_out_the_rest() {
    assert_eq!(version("1.2.3-rc.1+build.5").core_string(), "1.2.3");
}

#[test]
fn versions_are_equal_where_all_parts_are() {
    assert!(version("1.2.3") == version("1.2.3"));
    assert!(version("1.2.3") != version("1.2.4"));
    assert!(version("1.2.3") != version("1.3.3"));
    assert!(version("1.2.3") != version("2.2.3"));
    assert!(version("1.2.3-a") != version("1.2.3"));
    assert!(version("1.2.3-a") != version("1.2.3-b"));
    assert!(version("1.2.3-a.b") != version("1.2.3-a"));
    assert!(version("1.2.3+a") != version("1.2.3"));
    assert!(version("1.2.3+a") != version("1.2.3+b"));
    assert!(version("1.2.3-a+b") == version("1.2.3-a+b"));
}

#[test]
fn numbers_decide_first() {
    assert_eq!(version("1.0.0").precedence(&version("2.0.0")), Ordering::Less);
    assert_eq!(version("2.0.0").precedence(&version("2.1.0")), Ordering::Less);
    assert_eq!(version("2.1.0").precedence(&version("2.1.1")), Ordering::Less);
    assert_eq!(version("2.1.1").precedence(&version("2.1.0")), Ordering::Greater);
    assert_eq!(version("3.14.15").precedence(&version("2.1.8")), Ordering::Greater);
    assert_eq!(version("10.0.0").precedence(&version("9.0.0")), Ordering::Greater);
    assert_eq!(version("1.10.0").precedence(&version("1.9.0")), Ordering::Greater);
    assert_eq!(version("2.0.0-alpha").precedence(&version("1.9.9")), Ordering::Greater);
    assert_eq!(version("1.2.3").precedence(&version("1.2.3")), Ordering::Equal);
}

#[test]
fn pre_releases_come_in_the_documented_order() {
    let chain = [
        "1.0.0-alpha",
        "1.0.0-alpha.1",
        "1.0.0-alpha.beta",
        "1.0.0-beta",
        "1.0.0-beta.2",
        "1.0.0-beta.11",
        "1.0.0-rc.1",
        "1.0.0",
    ];
    for i in 0..chain.len() {
        for j in 0..chain.len() {
            let expected = i.cmp(&j);
            assert_eq!(version(chain[i]).precedence(&version(chain[j])), expected);
        }
    }
}

#[test]
fn numeric_identifiers_are_ordered_as_numbers() {
    assert_eq!(version("1.0.0-2").precedence(&version("1.0.0-11")), Ordering::Less);
    assert_eq!(version("1.0.0-11").precedence(&version("1.0.0-2")), Ordering::Greater);
    assert_eq!(version("1.0.0-19").precedence(&version("1.0.0-21")), Ordering::Less);
    assert_eq!(version("1.0.0-0").precedence(&version("1.0.0-1")), Ordering::Less);
    assert_eq!(
        version("1.0.0-99999999999999999999").precedence(&version("1.0.0-100000000000000000000")),
        Ordering::Less
    );
    assert_eq!(
        version("1.0.0-100000000000000000001").precedence(&version("1.0.0-100000000000000000000")),
        Ordering::Greater
    );
}

#[test]
fn a_numeric_identifier_comes_before_any_other() {
    assert_eq!(version("1.0.0-999").precedence(&version("1.0.0-a")), Ordering::Less);
    assert_eq!(version("1.0.0-a").precedence(&version("1.0.0-999")), Ordering::Greater);
    assert_eq!(version("1.0.0-999").precedence(&version("1.0.0--")), Ordering::Less);
    assert_eq!(version("1.0.0-1").precedence(&version("1.0.0-1a")), Ordering::Less);
}

#[test]
fn other_identifiers_are_ordered_as_texts() {
    assert_eq!(version("1.0.0-A").precedence(&version("1.0.0-a")), Ordering::Less);
    assert_eq!(version("1.0.0-a").precedence(&version("1.0.0-ab")), Ordering::Less);
    assert_eq!(version("1.0.0-b").precedence(&version("1.0.0-ab")), Ordering::Greater);
    assert_eq!(version("1.0.0-a-").precedence(&version("1.0.0-a0")), Ordering::Less);
    assert_eq!(version("1.0.0-rc").precedence(&version("1.0.0-rc")), Ordering::Equal);
}

#[test]
fn build_metadata_has_no_part_in_precedence() {
    assert_eq!(version("1.0.0+a").precedence(&version("1.0.0+b")), Ordering::Equal);
    assert_eq!(version("1.0.0+a").precedence(&version("1.0.0")), Ordering::Equal);
    assert_eq!(version("1.0.0-rc+z").precedence(&version("1.0.0+a")), Ordering::Less);
}
