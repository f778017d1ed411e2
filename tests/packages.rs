use raptobo::error::ErrorKind;
use raptobo::package::{
    PackageListItem, PackageMetadata, PackageRelation, PackageUpdateUrgency, PackageVcs,
    PackageVersionRelation, VcsType,
};
use raptobo::utils::{parse_metadata, Stanza};
use std::cmp::Ordering;

fn lines(text: &str) -> Vec<String> {
    text.split('\n').map(|l| l.to_string()).collect()
}

fn one_stanza(text: &str) -> Stanza {
    let mut v = parse_metadata(lines(text)).unwrap();
    v.remove(0)
}

#[test]
fn package_stanza_with_dependencies() {
    let text = "Package: foo\nArchitecture: amd64\nVersion: 2:1.0-1\nDepends: libc6 (>= 2.31), libssl3 | libssl1.1";
    let pkgs = PackageMetadata::parse(lines(text)).unwrap();
    assert_eq!(pkgs.len(), 1);
    let p = &pkgs[0];
    assert_eq!(p.package, "foo");
    assert_eq!(p.architecture, "amd64");
    assert_eq!(p.version.epoch, 2);
    let deps = p.depends.as_ref().unwrap();
    assert_eq!(deps.len(), 2);
    assert_eq!(deps[0].package, "libc6");
    assert_eq!(deps[0].relation, PackageVersionRelation::GTE);
    assert_eq!(deps[0].version.as_ref().unwrap().upstream_version.version, "2.31");
    assert_eq!(deps[1].package, "libssl3");
    let alt = deps[1].alternative.as_ref().unwrap();
    assert_eq!(alt.package, "libssl1.1");
    assert_eq!(alt.relation, PackageVersionRelation::ANY);
    assert!(alt.version.is_none());
    assert!(alt.alternative.is_none());
}

#[test]
fn alternatives_chain_in_order() {
    let r = PackageRelation::new("a | b (<< 2) | c").unwrap();
    assert_eq!(r.package, "a");
    let b = r.alternative.as_ref().unwrap();
    assert_eq!(b.package, "b");
    assert_eq!(b.relation, PackageVersionRelation::LT);
    let c = b.alternative.as_ref().unwrap();
    assert_eq!(c.package, "c");
    assert!(c.alternative.is_none());
}

#[test]
fn relation_atoms_and_errors() {
    let r = PackageRelation::new("  foo(>>1:2.0-3)  ").unwrap();
    assert_eq!(r.package, "foo");
    assert_eq!(r.relation, PackageVersionRelation::GT);
    assert_eq!(r.version.as_ref().unwrap().epoch, 1);
    let r = PackageRelation::new("bar (= 1)").unwrap();
    assert_eq!(r.relation, PackageVersionRelation::EQ);
    for bad in ["foo (>= 1", "foo (1.0)", "foo (< 1)", "foo (>= )", "(>= 1)", "", "a | | b"] {
        let e = PackageRelation::new(bad).unwrap_err();
        assert_eq!(e.kind(), ErrorKind::InvalidRelation, "{:?}", bad);
    }
}

#[test]
fn relation_operators() {
    assert_eq!(PackageVersionRelation::new("<<").unwrap(), PackageVersionRelation::LT);
    assert_eq!(PackageVersionRelation::new("<=").unwrap(), PackageVersionRelation::LTE);
    assert_eq!(PackageVersionRelation::new("=").unwrap(), PackageVersionRelation::EQ);
    assert_eq!(PackageVersionRelation::new(">=").unwrap(), PackageVersionRelation::GTE);
    assert_eq!(PackageVersionRelation::new(">>").unwrap(), PackageVersionRelation::GT);
    assert_eq!(PackageVersionRelation::new("<").unwrap_err().kind(), ErrorKind::InvalidRelation);
    assert!(PackageVersionRelation::LTE.is(Ordering::Equal));
    assert!(!PackageVersionRelation::LT.is(Ordering::Equal));
    assert!(PackageVersionRelation::GT.is(Ordering::Greater));
    assert!(!PackageVersionRelation::GTE.is(Ordering::Less));
    assert!(PackageVersionRelation::ANY.is(Ordering::Less));
}

#[test]
fn relation_list_keeps_the_parseable_relations() {
    let s = one_stanza("Depends: a (>= 1), b (oops), , c\nBreaks: (x)");
    let deps = PackageRelation::parse("Depends", &s).unwrap();
    let names: Vec<&str> = deps.iter().map(|d| d.package.as_str()).collect();
    assert_eq!(names, vec!["a", "c"]);
    assert!(PackageRelation::parse("Breaks", &s).is_none());
    assert!(PackageRelation::parse("Nope", &s).is_none());
}

#[test]
fn relation_matches_candidates() {
    let pkgs = PackageMetadata::parse(lines(
        "Package: libfoo\nArchitecture: all\nVersion: 1.5-1\n\nPackage: other\nArchitecture: all\nVersion: 3",
    ))
    .unwrap();
    let (foo, other) = (&pkgs[0], &pkgs[1]);
    assert!(PackageRelation::new("libfoo (>= 1.0)").unwrap().is(foo));
    assert!(PackageRelation::new("libfoo (<< 2)").unwrap().is(foo));
    assert!(!PackageRelation::new("libfoo (>> 1.5-1)").unwrap().is(foo));
    assert!(PackageRelation::new("libfoo (= 1.5-1)").unwrap().is(foo));
    assert!(PackageRelation::new("libbar | libfoo").unwrap().is(foo));
    assert!(PackageRelation::new("libfoo (>= 2) | libfoo (<= 1.5-1)").unwrap().is(foo));
    assert!(!PackageRelation::new("libfoo").unwrap().is(other));
}

#[test]
fn urgency_is_case_insensitive() {
    let s = one_stanza("U1: LOW\nU2:  Emergency \nU3: urgent\nU4: medium\nU5: HiGh\nU6: critical");
    assert_eq!(PackageUpdateUrgency::parse("U1", &s), Some(PackageUpdateUrgency::Low));
    assert_eq!(PackageUpdateUrgency::parse("U2", &s), Some(PackageUpdateUrgency::Emergency));
    assert_eq!(PackageUpdateUrgency::parse("U3", &s), None);
    assert_eq!(PackageUpdateUrgency::parse("U4", &s), Some(PackageUpdateUrgency::Medium));
    assert_eq!(PackageUpdateUrgency::parse("U5", &s), Some(PackageUpdateUrgency::High));
    assert_eq!(PackageUpdateUrgency::parse("U6", &s), Some(PackageUpdateUrgency::Critical));
    assert_eq!(PackageUpdateUrgency::parse("Nope", &s), None);
}

#[test]
fn vcs_takes_the_first_kind_in_order() {
    let s = one_stanza("Vcs-Svn: svn://x\nVcs-Git: https://g\nVcs-Browser: https://b");
    let v = PackageVcs::parse(&s).unwrap();
    assert_eq!(v.vcs_type, VcsType::Git);
    assert_eq!(v.url, "https://g");
    assert!(PackageVcs::parse(&one_stanza("A: b")).is_none());
}

#[test]
fn package_list_entries() {
    let s = one_stanza("Package-List:\n foo deb utils optional arch=any\n foo-doc deb doc optional arch=all\nShort:\n foo deb utils");
    let items = PackageListItem::parse("Package-List", &s).unwrap();
    assert_eq!(items.len(), 2);
    assert_eq!(items[0].name, "foo");
    assert_eq!(items[0].kind, "deb");
    assert_eq!(items[0].section, "optional");
    assert_eq!(items[0].priority, "arch=any");
    assert_eq!(items[1].name, "foo-doc");
    assert!(PackageListItem::parse("Short", &s).is_none());
    let e = PackageListItem::from_line("foo deb utils").unwrap_err();
    assert_eq!(e.kind(), ErrorKind::MalformedPackageList);
}

#[test]
fn package_record_fields() {
    let text = "Package: foo\nSource: foo-src\nArchitecture: amd64\nVersion: 1.0-1\nUploaders: a b\nDescription: summary\n more\nDate: Wed, 18 Feb 2015 23:16:09 GMT\nUrgency: high\nFiles:\n 0123 10 foo.dsc\nVcs-Git: https://g\nInstalled-Size: 42\nUnknown: ignored";
    let p = PackageMetadata::new(one_stanza(text)).unwrap();
    assert_eq!(p.source.as_deref(), Some("foo-src"));
    assert_eq!(p.uploaders, Some(vec!["a".to_string(), "b".to_string()]));
    assert_eq!(p.description.as_deref(), Some("summary\nmore"));
    assert_eq!(p.date.unwrap().timestamp, 1424301369);
    assert_eq!(p.urgency, Some(PackageUpdateUrgency::High));
    assert_eq!(p.files.as_ref().unwrap()[0].path, "foo.dsc");
    assert_eq!(p.vcs.as_ref().unwrap().vcs_type, VcsType::Git);
    assert_eq!(p.installed_size.as_deref(), Some("42"));
    assert!(p.maintainer.is_none());
    assert!(p.depends.is_none());
}

#[test]
fn package_record_required_fields() {
    let e = PackageMetadata::new(one_stanza("Architecture: all\nVersion: 1")).unwrap_err();
    assert_eq!(e.kind(), ErrorKind::MissingField);
    let e = PackageMetadata::new(one_stanza("Package: a\nVersion: 1")).unwrap_err();
    assert_eq!(e.kind(), ErrorKind::MissingField);
    let e = PackageMetadata::new(one_stanza("Package: a\nArchitecture: all")).unwrap_err();
    assert_eq!(e.kind(), ErrorKind::MissingField);
    let e = PackageMetadata::new(one_stanza("Package: a\nArchitecture: all\nVersion: x:1")).unwrap_err();
    assert_eq!(e.kind(), ErrorKind::InvalidVersion);
}

#[test]
fn index_drops_bad_stanzas() {
    let text = "Package: a\nArchitecture: all\nVersion: 1\n\nPackage: broken\n\nPackage: c\nArchitecture: all\nVersion: 2\n";
    let pkgs = PackageMetadata::parse(lines(text)).unwrap();
    let names: Vec<&str> = pkgs.iter().map(|p| p.package.as_str()).collect();
    assert_eq!(names, vec!["a", "c"]);
    assert!(PackageMetadata::parse(Vec::new()).unwrap().is_empty());
}
