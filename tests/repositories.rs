use raptobo::codec::{compression_for, decode_file, decode_gz, decode_text, decode_xz, Compression};
use raptobo::error::{ErrorKind, RaptoboError};
use raptobo::repository::{FileHash, Repository, RepositoryMetadata, RepositorySpec};
use std::io::Write;

const INRELEASE: &str = "-----BEGIN PGP SIGNED MESSAGE-----
Hash: SHA512

Origin: Ubuntu
Label: Ubuntu
Suite: jammy
Version: 22.04
Codename: jammy
Date: Thu, 21 Apr 2022 17:16:08 UTC
Architectures: amd64 i386
Components: main universe
Description: Ubuntu Jammy 22.04
MD5Sum:
 aaa 100 main/binary-amd64/Packages
 bbb 50 main/binary-amd64/Packages.gz
 ccc 60 universe/binary-i386/Packages.xz
 ddd 10 main/i18n/Index
SHA1:
 eee 100 main/binary-amd64/Packages
SHA256:
 fff 100 main/binary-amd64/Packages
 ggg 70 mainline/binary-amd64/Packages
-----BEGIN PGP SIGNATURE-----

iQIzBAEBCgAdFiEE
-----END PGP SIGNATURE-----";

fn lines(text: &str) -> Vec<String> {
    text.split('\n').map(|l| l.to_string()).collect()
}

#[test]
fn release_metadata_from_inrelease() {
    let m = RepositoryMetadata::new(lines(INRELEASE)).unwrap();
    assert_eq!(m.codename, "jammy");
    assert_eq!(m.version, "22.04");
    assert_eq!(m.origin.as_deref(), Some("Ubuntu"));
    assert_eq!(m.suite.as_deref(), Some("jammy"));
    assert_eq!(m.architectures, vec!["amd64", "i386"]);
    assert_eq!(m.components, vec!["main", "universe"]);
    assert_eq!(m.description, "Ubuntu Jammy 22.04");
    assert_eq!(m.date.timestamp, 1650561368);
    assert_eq!(m.md5sum.len(), 4);
    assert_eq!(m.sha1.len(), 1);
    assert_eq!(m.sha256.len(), 2);
}

#[test]
fn release_metadata_errors() {
    let e = RepositoryMetadata::new(lines("Origin: x\n\nSuite: y")).unwrap_err();
    assert_eq!(e.kind(), ErrorKind::MissingField);
    let bad_date = INRELEASE.replace("Thu, 21 Apr 2022 17:16:08 UTC", "someday");
    assert_eq!(RepositoryMetadata::new(lines(&bad_date)).unwrap_err().kind(), ErrorKind::BadDate);
    let no_arch = INRELEASE.replace("Architectures: amd64 i386", "Architectures:");
    assert_eq!(RepositoryMetadata::new(lines(&no_arch)).unwrap_err().kind(), ErrorKind::MissingField);
    let bad_files = INRELEASE.replace(" eee 100 main", " eee main");
    assert_eq!(RepositoryMetadata::new(lines(&bad_files)).unwrap_err().kind(), ErrorKind::MalformedFiles);
    let bad_size = INRELEASE.replace(" fff 100 main", " fff 101 main");
    assert_eq!(RepositoryMetadata::new(lines(&bad_size)).unwrap_err().kind(), ErrorKind::MalformedFiles);
}

#[test]
fn processing_files_before_metadata_fails() {
    let mut repo = Repository::new("http://archive.ubuntu.com/ubuntu", "jammy", None, false, false);
    let e = repo.process_files().unwrap_err();
    assert_eq!(e.kind(), ErrorKind::PreconditionFailed);
}

#[test]
fn process_files_builds_table_and_indices() {
    let mut repo = Repository::new("http://archive.ubuntu.com/ubuntu", "jammy", None, false, false);
    repo.load_metadata(lines(INRELEASE)).unwrap();
    repo.process_files().unwrap();
    let paths: Vec<&str> = repo.data.files.iter().map(|f| f.path.as_str()).collect();
    assert_eq!(
        paths,
        vec![
            "main/binary-amd64/Packages",
            "main/binary-amd64/Packages.gz",
            "universe/binary-i386/Packages.xz",
            "main/i18n/Index",
            "mainline/binary-amd64/Packages",
        ]
    );
    let first = &repo.data.files[0];
    assert_eq!(first.size, 100);
    assert_eq!(first.hashes.len(), 3);
    assert!(matches!(&first.hashes[0], FileHash::MD5(h) if h == "aaa"));
    assert!(matches!(&first.hashes[1], FileHash::SHA1(h) if h == "eee"));
    assert!(matches!(&first.hashes[2], FileHash::SHA256(h) if h == "fff"));
    let groups: Vec<(&str, &str, Vec<&str>)> = repo
        .data
        .package_indices
        .iter()
        .map(|g| (g.component.as_str(), g.architecture.as_str(), g.paths.iter().map(|p| p.as_str()).collect()))
        .collect();
    assert_eq!(
        groups,
        vec![
            ("main", "amd64", vec!["main/binary-amd64/Packages", "main/binary-amd64/Packages.gz"]),
            ("main", "i386", vec![]),
            ("universe", "amd64", vec![]),
            ("universe", "i386", vec!["universe/binary-i386/Packages.xz"]),
        ]
    );
}

#[test]
fn chosen_components_replace_the_release_list() {
    let mut repo = Repository::new("http://h", "jammy", Some(vec!["universe"]), false, false);
    repo.load_metadata(lines(INRELEASE)).unwrap();
    repo.process_files().unwrap();
    assert_eq!(repo.data.package_indices.len(), 2);
    assert_eq!(repo.data.package_indices[1].paths, vec!["universe/binary-i386/Packages.xz"]);
}

#[test]
fn inrelease_urls() {
    let repo = Repository::new("http://archive.ubuntu.com/ubuntu", "jammy", None, false, false);
    assert_eq!(repo.inrelease_url(), "http://archive.ubuntu.com/ubuntu/dists/jammy/InRelease");
    let flat = RepositorySpec {
        flat: true,
        source: false,
        uri: "http://example.org/repo".to_string(),
        distribution: "stable".to_string(),
        components: None,
    }
    .to_repo();
    assert_eq!(flat.inrelease_url(), "http://example.org/repo/stable/InRelease");
}

#[test]
fn loading_an_index_records_its_packages() {
    let mut repo = Repository::new("http://h", "jammy", None, false, false);
    repo.load_index(
        "main/binary-amd64/Packages".to_string(),
        lines("Package: a\nArchitecture: amd64\nVersion: 1\n\nPackage: b\nArchitecture: amd64\nVersion: 2"),
    );
    assert_eq!(repo.data.packages.len(), 1);
    assert_eq!(repo.data.packages[0].path, "main/binary-amd64/Packages");
    assert_eq!(repo.data.packages[0].packages.len(), 2);
}

#[test]
fn decoding_plain_text() {
    let v = decode_text(b"a: 1\r\nb: 2\n".to_vec()).unwrap();
    assert_eq!(v, vec!["a: 1", "b: 2", ""]);
    let e = decode_text(vec![0xff, 0xfe]).unwrap_err();
    assert_eq!(e.kind(), ErrorKind::DecodeError);
}

#[test]
fn decoding_gzip() {
    let mut enc = flate2::write::GzEncoder::new(Vec::new(), flate2::Compression::default());
    enc.write_all(b"Package: a\nVersion: 1").unwrap();
    let gz = enc.finish().unwrap();
    assert_eq!(decode_gz(&gz).unwrap(), vec!["Package: a", "Version: 1"]);
    assert_eq!(decode_gz(&b"plain".to_vec()).unwrap_err().kind(), ErrorKind::DecodeError);
    assert_eq!(decode_file("x/Packages.gz", gz).unwrap(), vec!["Package: a", "Version: 1"]);
}

#[test]
fn decoding_xz() {
    let xz = lzma::compress(b"Package: a\nVersion: 1", 6).unwrap();
    assert_eq!(decode_xz(&xz).unwrap(), vec!["Package: a", "Version: 1"]);
    assert_eq!(decode_xz(&b"plain".to_vec()).unwrap_err().kind(), ErrorKind::DecodeError);
}

#[test]
fn compression_by_suffix() {
    assert_eq!(compression_for("a/Packages.xz"), Compression::Xz);
    assert_eq!(compression_for("a/Packages.gz"), Compression::Gz);
    assert_eq!(compression_for("a/Packages"), Compression::Plain);
    assert_eq!(compression_for("xz"), Compression::Plain);
    assert_eq!(decode_file("a/Packages", b"x".to_vec()).unwrap(), vec!["x"]);
}

#[test]
fn errors_carry_kind_and_description() {
    let e = RaptoboError::new("something");
    assert_eq!(e.kind(), ErrorKind::Other);
    assert_eq!(e.description(), "something");
}
