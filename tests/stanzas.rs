use raptobo::error::ErrorKind;
use raptobo::utils::{
    parse_metadata, stanza_date, stanza_files, stanza_lines, stanza_list, stanza_opt_files,
    stanza_opt_list, stanza_opt_text, stanza_opt_value, stanza_text, stanza_value, Stanza,
};

fn lines(text: &str) -> Vec<String> {
    text.split('\n').map(|l| l.to_string()).collect()
}

fn one_stanza(text: &str) -> Stanza {
    let mut v = parse_metadata(lines(text)).unwrap();
    assert_eq!(v.len(), 1);
    v.remove(0)
}

#[test]
fn lexing_splits_stanzas_and_keeps_continuations() {
    let doc = parse_metadata(lines("Field-A: v1\n continuation\nField-B: v2\n\nField-C: v3")).unwrap();
    assert_eq!(doc.len(), 2);
    assert_eq!(doc[0].len(), 2);
    assert_eq!(doc[0].get("Field-A").unwrap(), &vec!["v1".to_string(), " continuation".to_string()]);
    assert_eq!(stanza_lines("Field-A", &doc[0], false).unwrap(), vec!["v1", "continuation"]);
    assert_eq!(doc[0].get("Field-B").unwrap(), &vec!["v2".to_string()]);
    assert_eq!(doc[1].len(), 1);
    assert_eq!(doc[1].get("Field-C").unwrap(), &vec!["v3".to_string()]);
}

#[test]
fn lexing_edge_cases() {
    // blank lines only, tabs as continuation, malformed lines dropped, duplicates overwrite
    assert!(parse_metadata(lines("\n  \n\t\n")).unwrap().is_empty());
    let doc = parse_metadata(lines(
        " orphan\nA: 1\n\tmore\nno colon here\n lost\nA: 2\nB:x\n\r\n\nC: 3\r",
    ))
    .unwrap();
    assert_eq!(doc.len(), 2);
    let names: Vec<&str> = doc[0].fields().iter().map(|f| f.name.as_str()).collect();
    assert_eq!(names, vec!["A", "B"]);
    assert_eq!(doc[0].get("A").unwrap(), &vec!["2".to_string()]);
    assert_eq!(doc[0].get("B").unwrap(), &vec!["x".to_string()]);
    assert_eq!(stanza_value("C", &doc[1]).unwrap(), "3");
}

#[test]
fn stanza_round_trip_of_one_line_fields() {
    let mut s = Stanza::new();
    s.insert("Package".to_string(), vec!["foo".to_string()]);
    s.insert("Empty".to_string(), vec!["".to_string()]);
    s.insert("Spaced".to_string(), vec![" lead and trail ".to_string()]);
    let text: Vec<String> = s
        .fields()
        .iter()
        .map(|f| format!("{}: {}", f.name, f.lines[0]))
        .collect();
    let back = parse_metadata(text).unwrap();
    assert_eq!(back.len(), 1);
    let got: Vec<(String, Vec<String>)> =
        back[0].fields().iter().map(|f| (f.name.clone(), f.lines.clone())).collect();
    let want: Vec<(String, Vec<String>)> =
        s.fields().iter().map(|f| (f.name.clone(), f.lines.clone())).collect();
    assert_eq!(got, want);
}

#[test]
fn value_and_list_accessors() {
    let s = one_stanza("Key:   spaced value  \nList:  a  b\tc   d \nEmpty:");
    assert_eq!(stanza_value("Key", &s).unwrap(), "spaced value");
    assert_eq!(stanza_opt_value("Nope", &s), None);
    assert_eq!(stanza_list("List", &s).unwrap(), vec!["a", "b\tc", "d"]);
    assert_eq!(stanza_opt_list("Empty", &s), None);
    assert_eq!(stanza_opt_list("Nope", &s), None);
    let e = stanza_value("Nope", &s).unwrap_err();
    assert_eq!(e.kind(), ErrorKind::MissingField);
    assert_eq!(stanza_list("Nope", &s).unwrap_err().kind(), ErrorKind::MissingField);
}

#[test]
fn text_and_lines_accessors() {
    let s = one_stanza("Description: short\n  long line one \n .\n second");
    assert_eq!(stanza_text("Description", &s).unwrap(), "short\nlong line one\n.\nsecond");
    assert_eq!(stanza_opt_text("Nope", &s), None);
    let t = one_stanza("T: \n a\n b");
    assert_eq!(stanza_lines("T", &t, true).unwrap(), vec!["a", "b"]);
    assert_eq!(stanza_lines("T", &t, false).unwrap(), vec!["", "a", "b"]);
    assert_eq!(stanza_text("T", &t).unwrap(), "\na\nb");
}

#[test]
fn files_accessor_parses_entries() {
    let s = one_stanza(
        "SHA256:\n abc 12 main/binary-amd64/Packages\n def  0\tmain/i18n/Index\nBad:\n x 1\nSize:\n x -1 p\nPlus:\n h +7 p",
    );
    let files = stanza_files("SHA256", &s).unwrap();
    assert_eq!(files.len(), 2);
    assert_eq!(files[0].hash, "abc");
    assert_eq!(files[0].size, 12);
    assert_eq!(files[0].path, "main/binary-amd64/Packages");
    assert_eq!(files[1].size, 0);
    assert_eq!(files[1].path, "main/i18n/Index");
    for f in &files {
        assert!(!f.path.chars().any(char::is_whitespace));
    }
    assert_eq!(stanza_files("Bad", &s).unwrap_err().kind(), ErrorKind::MalformedFiles);
    assert_eq!(stanza_files("Size", &s).unwrap_err().kind(), ErrorKind::MalformedFiles);
    assert_eq!(stanza_files("Plus", &s).unwrap()[0].size, 7);
    assert_eq!(stanza_files("Nope", &s).unwrap_err().kind(), ErrorKind::MissingField);
    assert!(stanza_opt_files("Bad", &s).is_none());
    assert_eq!(stanza_opt_files("SHA256", &s).unwrap().len(), 2);
}

#[test]
fn files_size_at_u64_limit() {
    let s = one_stanza("F:\n h 18446744073709551615 p\nG:\n h 18446744073709551616 p");
    assert_eq!(stanza_files("F", &s).unwrap()[0].size, u64::MAX);
    assert_eq!(stanza_files("G", &s).unwrap_err().kind(), ErrorKind::MalformedFiles);
}

#[test]
fn date_accessor_reads_rfc2822() {
    let s = one_stanza(
        "Date: Wed, 18 Feb 2015 23:16:09 GMT\nZoned: Tue, 1 Jul 2003 10:52:37 +0200\nBad: yesterday",
    );
    let d = stanza_date("Date", &s).unwrap();
    assert_eq!(d.timestamp, 1424301369);
    assert_eq!(d.utc_offset, 0);
    let z = stanza_date("Zoned", &s).unwrap();
    assert_eq!(z.timestamp, 1057049557);
    assert_eq!(z.utc_offset, 7200);
    assert!(stanza_date("Bad", &s).is_none());
    assert!(stanza_date("Nope", &s).is_none());
}
