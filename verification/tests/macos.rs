use patches::package::macos::Homebrew;
use patches::package::{Detect, Package};
use patches::Never;

#[test]
fn does_not_find_packages_that_are_not_installed() {
    let hb = Homebrew::new();
    let package = Package::parse("packagename", "3.2.1").unwrap();

    assert!(!hb.detect(&package).unwrap());
}

#[test]
fn default_base_dir_is_the_cellar() {
    assert_eq!(Homebrew::new().base_dir, "/usr/local/Cellar/");
    assert_eq!(Homebrew::default().base_dir, "/usr/local/Cellar/");
}

#[test]
fn with_base_dir_keeps_the_path() {
    assert_eq!(Homebrew::with_base_dir("/tmp").base_dir, "/tmp");
    assert_eq!(Homebrew::with_base_dir("").base_dir, "");
}

#[test]
fn install_path_is_base_name_and_numbers() {
    let hb = Homebrew::with_base_dir("/tmp");
    let package = Package::parse("packagename", "1.2.3").unwrap();
    assert_eq!(hb.install_path(&package), "/tmp/packagename/1.2.3");
}

#[test]
fn install_path_below_the_default_base_dir() {
    let hb = Homebrew::new();
    let package = Package::parse("packagename", "3.2.1").unwrap();
    assert_eq!(hb.install_path(&package), "/usr/local/Cellar//packagename/3.2.1");
}

#[test]
fn install_path_leaves_out_pre_release_and_build() {
    let hb = Homebrew::with_base_dir("/opt/cellar");
    let plain = Package::parse("mig", "10.0.42").unwrap();
    let tagged = Package::parse("mig", "10.0.42-rc.1+exp.sha.5114f85").unwrap();
    assert_eq!(hb.install_path(&plain), "/opt/cellar/mig/10.0.42");
    assert_eq!(hb.install_path(&tagged), "/opt/cellar/mig/10.0.42");
}

#[test]
fn outcome_is_what_was_found() {
    assert!(matches!(Homebrew::outcome(true), Ok(true)));
    assert!(matches!(Homebrew::outcome(false), Ok(false)));
}

#[test]
fn detect_answers_the_same_when_asked_again() {
    let hb = Homebrew::with_base_dir("/nonexistent-base-directory");
    let package = Package::parse("packagename", "1.2.3").unwrap();
    let first: Result<bool, Never> = hb.detect(&package);
    let second: Result<bool, Never> = hb.detect(&package);
    assert_eq!(first.unwrap(), second.unwrap());
}

#[test]
fn detect_does_not_find_below_a_missing_base_dir() {
    let hb = Homebrew::with_base_dir("/nonexistent-base-directory");
    let package = Package::parse("packagename", "1.2.3").unwrap();
    assert!(!hb.detect(&package).unwrap());
}
