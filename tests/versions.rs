use raptobo::error::ErrorKind;
use raptobo::version::{PackageVersion, Version, VersionBlock};
use std::cmp::Ordering;

#[test]
fn version_parsing_works() {
    let v = "1.2.6-1ubuntu1";
    let v = PackageVersion::new(v).unwrap();

    assert_eq!(v.epoch, 0);
    assert_eq!(v.upstream_version, Version::new("1.2.6"));
    assert_eq!(v.debian_revision, Version::new("1ubuntu1"));

    let v = "3.20191218.1ubuntu2";
    let v = PackageVersion::new(v).unwrap();
    assert_eq!(v.epoch, 0);
    assert_eq!(v.upstream_version, Version::new("3.20191218.1ubuntu2"));
    assert_eq!(v.debian_revision, Version::new(""));

    let v = "1.2.3-4.5.6";
    let v = PackageVersion::new(v).unwrap();
    assert_eq!(v.epoch, 0);
    assert_eq!(v.upstream_version, Version::new("1.2.3"));
    assert_eq!(v.debian_revision, Version::new("4.5.6"));

    let v = "1:1.2.3-4.5.6";
    let v = PackageVersion::new(v).unwrap();
    assert_eq!(v.epoch, 1);
    assert_eq!(v.upstream_version, Version::new("1.2.3"));
    assert_eq!(v.debian_revision, Version::new("4.5.6"));
}

#[test]
fn compare_versions_epoch() {
    let v1 = PackageVersion::new("1.2.3-4.5.6").unwrap();
    let v2 = PackageVersion::new("1:1.2.3-4.5.6").unwrap();

    assert!(v1 < v2);
    assert!(v1 == v1.clone())
}

#[test]
fn compare_versions_upstream() {
    let v1 = PackageVersion::new("1.2.3-4.5.6").unwrap();
    let v2 = PackageVersion::new("1.2.4-4.5.6").unwrap();

    assert!(v1 < v2);
}

#[test]
fn compare_versions_upstream_tilde() {
    let v1 = PackageVersion::new("1.2.3-4.5.6").unwrap();
    let v2 = PackageVersion::new("~1-4.5.6").unwrap();

    assert!(v2 < v1);
}

#[test]
fn compare_versions_debian() {
    let v1 = PackageVersion::new("1.2.3-4.5.6").unwrap();
    let v2 = PackageVersion::new("1.2.3-4.6.6").unwrap();

    assert!(v1 < v2);
}

#[test]
fn compare_versions_debian_tilde() {
    let v1 = PackageVersion::new("1.2.3-4.5.6").unwrap();
    let v2 = PackageVersion::new("1.2.3-~6").unwrap();

    assert!(v2 < v1);
}

#[test]
fn compare_versions() {
    let v1 = VersionBlock {
        prefix: String::from(""),
        number: 1,
    };
    let v2 = VersionBlock {
        prefix: String::from(""),
        number: 2,
    };
    assert!(v1 < v2);

    let v1 = VersionBlock {
        prefix: String::from(""),
        number: 1,
    };
    let v2 = VersionBlock {
        prefix: String::from(""),
        number: 1,
    };
    assert!(v1 == v2);

    let v1 = VersionBlock {
        prefix: String::from("b"),
        number: 1,
    };
    let v2 = VersionBlock {
        prefix: String::from("a"),
        number: 2,
    };
    assert!(v2 < v1);

    let v1 = VersionBlock {
        prefix: String::from(""),
        number: 1,
    };
    let v2 = VersionBlock {
        prefix: String::from("~"),
        number: 2,
    };
    assert!(v2 < v1);
}

#[test]
fn version_blocks() {
    let blocks = VersionBlock::from("1.2.3").unwrap();

    assert_eq!(blocks.len(), 3);

    assert_eq!(blocks[0].number, 1);
    assert_eq!(blocks[0].prefix, "");

    assert_eq!(blocks[1].number, 2);
    assert_eq!(blocks[1].prefix, ".");

    assert_eq!(blocks[2].number, 3);
    assert_eq!(blocks[2].prefix, ".");
}

#[test]
fn blocks_of_trailing_letters_and_multi_digit_runs() {
    let blocks = VersionBlock::from("12ubuntu3a").unwrap();
    assert_eq!(blocks.len(), 3);
    assert_eq!((blocks[0].prefix.as_str(), blocks[0].number), ("", 12));
    assert_eq!((blocks[1].prefix.as_str(), blocks[1].number), ("ubuntu", 3));
    assert_eq!((blocks[2].prefix.as_str(), blocks[2].number), ("a", 0));
    assert!(VersionBlock::from("").unwrap().is_empty());
}

#[test]
fn overflowing_digit_run_is_an_error() {
    let e = VersionBlock::from("1.99999999999999999999").unwrap_err();
    assert_eq!(e.kind(), ErrorKind::InvalidVersion);
    let e = PackageVersion::new("1.99999999999999999999-1").unwrap_err();
    assert_eq!(e.kind(), ErrorKind::InvalidVersion);
    assert!(VersionBlock::from("18446744073709551615").is_ok());
}

#[test]
fn non_numeric_epoch_is_an_error() {
    let e = PackageVersion::new("a:1.0-1").unwrap_err();
    assert_eq!(e.kind(), ErrorKind::InvalidVersion);
}

#[test]
fn epoch_and_revision_split_points() {
    let v = PackageVersion::new("2:1.0-beta-3").unwrap();
    assert_eq!(v.epoch, 2);
    assert_eq!(v.upstream_version.version, "1.0-beta");
    assert_eq!(v.debian_revision.version, "3");
    let v = PackageVersion::new("1:2:3").unwrap();
    assert_eq!(v.epoch, 1);
    assert_eq!(v.upstream_version.version, "2:3");
}

#[test]
fn tilde_sorts_before_anything() {
    for v in ["1", "a", "1.0", "~", "~1", "2.0~rc1"] {
        let tilde = Version::new(&format!("~{}", v));
        let plain = Version::new(v);
        assert_eq!(tilde.partial_cmp(&plain), Some(Ordering::Less), "~{} < {}", v, v);
    }
}

#[test]
fn appending_a_non_tilde_tail_grows_a_version() {
    for (v, w) in [("1", "a"), ("1", ".1"), ("1.0", "+b1"), ("a", "b"), ("1", "2")] {
        let longer = Version::new(&format!("{}{}", v, w));
        let plain = Version::new(v);
        assert_eq!(plain.partial_cmp(&longer), Some(Ordering::Less), "{} < {}{}", v, v, w);
    }
}

#[test]
fn appended_zeros_after_zero_do_not_grow_a_version() {
    let a = Version::new("1.0");
    let b = Version::new("1.00");
    assert_eq!(a.partial_cmp(&b), Some(Ordering::Equal));
    assert!(a != b);
}

#[test]
fn epoch_dominates_other_parts() {
    let low = PackageVersion::new("1:9.9.9-9").unwrap();
    let high = PackageVersion::new("2:0.1-1").unwrap();
    assert!(low < high);
    assert!(high > low);
}

#[test]
fn version_order_is_a_total_preorder() {
    let vs: Vec<PackageVersion> = ["1.0", "1.0-1", "1.0~rc1", "1:0.1", "1.00", "1.0a", "0.9", "2"]
        .iter()
        .map(|s| PackageVersion::new(s).unwrap())
        .collect();
    for a in &vs {
        assert_eq!(a.partial_cmp(a), Some(Ordering::Equal));
        for b in &vs {
            let ab = a.partial_cmp(b).unwrap();
            let ba = b.partial_cmp(a).unwrap();
            assert_eq!(ab, ba.reverse());
            for c in &vs {
                let bc = b.partial_cmp(c).unwrap();
                let ac = a.partial_cmp(c).unwrap();
                if ab != Ordering::Greater && bc != Ordering::Greater {
                    assert_ne!(ac, Ordering::Greater);
                }
            }
        }
    }
}

#[test]
fn prefix_order_puts_end_between_tilde_and_letters() {
    let b = |p: &str| VersionBlock { prefix: p.to_string(), number: 0 };
    assert!(b("a") < b("a.")); // shorter before longer
    assert!(b("a~") < b("a")); // unless the longer goes on with a tilde
    assert!(b("~~") < b("~"));
    assert!(b("A") < b("a"));
    assert_eq!(b("+").partial_cmp(&b("+")), Some(Ordering::Equal));
}

#[test]
fn version_compares_with_its_text() {
    let v = PackageVersion::new("1:2.0-3").unwrap();
    assert!(v == *"1:2.0-3");
    assert!(v == *"1:2.0");
    assert!(!(v == *"2.0-3"));
    assert!(!(v == *"1:2.0-4"));
    let plain = PackageVersion::new("2.0").unwrap();
    assert!(plain == *"x:2.0");
}
