use patches::package::Package;
use patches::version::Version;
use std::cmp::Ordering;

fn package(name: &str, version: &str) -> Package {
    Package::new(name, Version::parse(version).unwrap())
}

#[test]
fn package_comparison() {
    let newer = package("mig", "3.14.15");
    let older = package("mig", "2.1.8");
    let other = package("mozdef", "10.42.1");
    let twin = package("mig", "3.14.15");
    let same_version = package("mozdef", "3.14.15");

    assert!(newer != older);
    assert!(older != other);
    assert!(other != twin);

    assert!(newer == twin);

    assert!(newer.partial_cmp(&older).unwrap() == Ordering::Greater);
    assert!(newer.partial_cmp(&same_version).is_none());
}

#[test]
fn new_keeps_name_and_version() {
    let p = Package::new("mig", Version::new(3, 14, 15));
    assert_eq!(p.name, "mig");
    assert_eq!(p.version.major(), 3);
    assert_eq!(p.version.minor(), 14);
    assert_eq!(p.version.patch(), 15);
    assert!(p.version.pre().is_empty());
    assert!(p.version.build().is_empty());
}

#[test]
fn parse_reads_the_version() {
    let p = Package::parse("mig", "3.14.15-rc.1+build.7").unwrap();
    assert_eq!(p.name, "mig");
    assert_eq!(p.version.to_string(), "3.14.15-rc.1+build.7");
    assert!(p == package("mig", "3.14.15-rc.1+build.7"));
}

#[test]
fn parse_refuses_malformed_versions() {
    for bad in ["1.2", "a.b.c", ""] {
        let err = Package::parse("mig", bad).unwrap_err();
        assert_eq!(err.input, bad);
    }
}

#[test]
fn equal_packages_are_neither_less_nor_greater() {
    let a = package("mig", "3.14.15-beta+x");
    let b = package("mig", "3.14.15-beta+x");
    assert!(a == b);
    assert_eq!(a.partial_cmp(&b), Some(Ordering::Equal));
    assert!(!(a < b));
    assert!(!(a > b));
    assert!(a <= b);
    assert!(a >= b);
}

#[test]
fn packages_of_one_name_are_ordered_by_version() {
    let old = package("mig", "2.1.8");
    let new = package("mig", "3.14.15");
    assert!(old < new);
    assert!(new > old);
    assert_eq!(old.partial_cmp(&new), Some(Ordering::Less));
    assert_eq!(new.partial_cmp(&old), Some(Ordering::Greater));
}

#[test]
fn packages_of_different_names_are_not_ordered() {
    let a = package("mig", "3.14.15");
    let b = package("mozdef", "3.14.15");
    assert_eq!(a.partial_cmp(&b), None);
    assert_eq!(b.partial_cmp(&a), None);
    assert!(!(a < b));
    assert!(!(a > b));
    assert!(!(a <= b));
    assert!(!(a >= b));
    assert!(a != b);
}

#[test]
fn build_metadata_counts_for_equality_only() {
    let a = package("mig", "1.0.0+linux");
    let b = package("mig", "1.0.0+darwin");
    assert!(a != b);
    assert_eq!(a.partial_cmp(&b), Some(Ordering::Equal));
}

#[test]
fn a_clone_is_equal() {
    let a = package("mig", "1.0.0-alpha.1+linux");
    let b = a.clone();
    assert!(a == b);
}
