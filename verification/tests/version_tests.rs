use std::cmp::Ordering;

use h_version::Version;

#[test]
fn version_test() {
    let v1 = Version::parse("1.2.3-alpha+001");
    let v2 = Version::parse("1.2.3-beta+002");
    let v3 = Version::parse("2023.03.01");
    let v4 = Version::parse("2.sjf.5djf");
    let v5 = Version::parse("1:2.3.4");
    let v6 = Version::parse("1.0.0-SNAPSHOT");

    assert_eq!(v1 < v2, true); // true
    assert_eq!(v1 > v3, false); // false
    assert_eq!(v4 == v4, true); // true
    assert_eq!(v5 > v1, true); // true
    assert_eq!(v6 < v1, true); // true
}

#[test]
fn printing() {
    let v1 = Version::parse("1.2.3-alpha+001");
    let v2 = Version::parse("2023.03.01");
    let v3 = Version::parse("2.sjf.5djf");
    let v4 = Version::parse("1:2.3.4");
    let v5 = Version::parse("1.0.0-SNAPSHOT");

    let v1_display = v1.to_string();
    assert_eq!(v1_display, "1.2.3-alpha+001");
    let v1_debug = v1.debug_string();
    assert_eq!(v1_debug, "epoch:0 components:[\"1\", \"2\", \"3\"] pre_release:alpha build_metadata:0");

    let v2_display = v2.to_string();
    assert_eq!(v2_display, "2023.03.01");
    let v2_debug = v2.debug_string();
    assert_eq!(v2_debug, "epoch:0 components:[\"2023\", \"03\", \"01\"] pre_release: build_metadata:0");

    let v3_display = v3.to_string();
    assert_eq!(v3_display, "2.sjf.5djf");
    let v3_debug = v3.debug_string();
    assert_eq!(v3_debug, "epoch:0 components:[\"2\", \"sjf\", \"5djf\"] pre_release: build_metadata:0");

    let v4_display = v4.to_string();
    assert_eq!(v4_display, "1:2.3.4");
    let v4_debug = v4.debug_string();
    assert_eq!(v4_debug, "epoch:1 components:[\"2\", \"3\", \"4\"] pre_release: build_metadata:1");

    let v5_display = v5.to_string();
    assert_eq!(v5_display, "1.0.0-SNAPSHOT");
    let v5_debug = v5.debug_string();
    assert_eq!(v5_debug, "epoch:0 components:[\"1\", \"0\", \"0\"] pre_release:SNAPSHOT build_metadata:0");
}

#[test]
fn parsing_is_deterministic() {
    let a = Version::parse("1:2.3.4-rc+7");
    let b = Version::parse("1:2.3.4-rc+7");
    assert!(a == b);
    assert_eq!(a.epoch, b.epoch);
    assert_eq!(a.components, b.components);
    assert_eq!(a.pre_release, b.pre_release);
    assert_eq!(a.build_metadata, b.build_metadata);
}

#[test]
fn comparison_is_antisymmetric() {
    let a = Version::parse("1.2.3");
    let b = Version::parse("1.2.4");
    assert_eq!(a.cmp(&b), Ordering::Less);
    assert_eq!(b.cmp(&a), Ordering::Greater);
    assert_eq!(a.cmp(&a), Ordering::Equal);
}

#[test]
fn comparison_chains() {
    let a = Version::parse("1.2.3");
    let b = Version::parse("1.2.4");
    let c = Version::parse("1.3.0");
    assert!(a < b);
    assert!(b < c);
    assert!(a < c);
}

#[test]
fn epoch_dominates() {
    let with_epoch = Version::parse("1:2.3.4");
    let without_epoch = Version::parse("2.3.4");
    assert_eq!(with_epoch.cmp(&without_epoch), Ordering::Greater);
    assert_eq!(without_epoch.cmp(&with_epoch), Ordering::Less);
}

#[test]
fn numeric_component_ranks_below_text() {
    // "2" reads as a number, "1a" does not; byte order alone would say the
    // opposite.
    let numeric = Version::parse("1.2.z");
    let textual = Version::parse("1.1a.z");
    assert_eq!(numeric.cmp(&textual), Ordering::Less);
    let plain = Version::parse("x:2");
    let alnum = Version::parse("x:1a");
    assert_eq!(plain.cmp(&alnum), Ordering::Less);
}

#[test]
fn absent_pre_release_outranks_any() {
    let release = Version::parse("1.2.3");
    let candidate = Version::parse("1.2.3-rc");
    assert_eq!(release.cmp(&candidate), Ordering::Greater);
    assert_eq!(candidate.cmp(&release), Ordering::Less);
}

#[test]
fn pre_release_compare_folds_case() {
    let upper = Version::parse("1.0-ALPHA");
    let lower = Version::parse("1.0-alpha");
    assert_eq!(upper.cmp(&lower), Ordering::Equal);
    assert!(upper != lower);
}

#[test]
fn build_metadata_never_ranks() {
    let a = Version::parse("1.2.3+a");
    let b = Version::parse("1.2.3+b");
    assert_eq!(a.cmp(&b), Ordering::Equal);
    assert!(!(a < b));
    assert!(!(a > b));
    assert!(a != b);
}

#[test]
fn round_trip() {
    let version = Version::parse("1:23423.553.845-rc+255");
    let version = version.to_string();
    assert_eq!(version, "1:23423.553.845-rc+255".to_string());
}

#[test]
fn bare_numeral_sets_epoch_and_components() {
    // A colon-free numeral feeds both the epoch and the component split.
    let v = Version::parse("12345");
    assert_eq!(v.epoch, Some(12345));
    assert_eq!(v.components, vec!["12345".to_string()]);
    assert_eq!(
        v.debug_string(),
        "epoch:12345 components:[\"12345\"] pre_release: build_metadata:12345"
    );
}

#[test]
fn plus_prefixed_epoch_is_accepted() {
    let v = Version::parse("+3:x");
    assert_eq!(v.epoch, Some(3));
}

#[test]
fn oversized_epoch_is_absent() {
    let v = Version::parse("99999999999999999999:1");
    assert_eq!(v.epoch, None);
    assert_eq!(v.components, vec!["1".to_string()]);
}

#[test]
fn empty_and_adjacent_delimiters() {
    let empty = Version::parse("");
    assert_eq!(empty.epoch, None);
    assert_eq!(empty.components, vec!["".to_string()]);
    assert_eq!(empty.to_string(), "");

    let gappy = Version::parse("1..2");
    assert_eq!(gappy.components, vec!["1".to_string(), "".to_string(), "2".to_string()]);
    assert_eq!(gappy.to_string(), "1..2");
}

#[test]
fn truncated_component_comparison() {
    // Extra trailing components of the longer list are never examined.
    let short = Version::parse("1.2");
    let long = Version::parse("1.2.3");
    assert_eq!(short.cmp(&long), Ordering::Equal);
    assert!(short != long);
}

#[test]
fn pre_release_keeps_later_hyphens() {
    let v = Version::parse("1.0-rc-1");
    assert_eq!(v.pre_release, Some("rc-1".to_string()));
    assert_eq!(v.to_string(), "1.0-rc-1");
}

#[test]
fn diagnostic_escapes_components() {
    let quote = Version::parse("\"");
    assert_eq!(
        quote.debug_string(),
        "epoch:0 components:[\"\\\"\"] pre_release: build_metadata:0"
    );

    let backslash = Version::parse("a\\b");
    assert_eq!(
        backslash.debug_string(),
        "epoch:0 components:[\"a\\\\b\"] pre_release: build_metadata:0"
    );

    let control = Version::parse("\u{1}");
    assert_eq!(
        control.debug_string(),
        "epoch:0 components:[\"\\u{1}\"] pre_release: build_metadata:0"
    );
}

#[test]
fn default_is_zero_zero_one() {
    let d = Version::default();
    let parsed = Version::parse("0.0.1");
    assert!(d == parsed);
    assert_eq!(d.to_string(), "0.0.1");
}
