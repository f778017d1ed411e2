//! A repository: its release metadata, the table of files it lists, and the
//! package indices among them.
use vstd::prelude::*;
use crate::error::{ErrorKind, RaptoboError};
use crate::package::{accepted, metadata_matches, PackageMetadata};
use crate::text::{chars_of, views};
use crate::utils::{
    field_files, field_index, field_text, field_value, lex, lookup, nonempty_list,
    opt_view, parse_metadata, stanza_files, stanza_list,
    stanza_opt_value, stanza_text, stanza_value, stanza_views, DateStamp, FieldModel, File,
    FileModel, file_models,
};

verus! {

/// The seconds since the epoch that `s` denotes when read with the chrono
/// format `fmt` as a UTC date and time; `None` where it does not match.
pub uninterp spec fn naive_date_of(s: Seq<char>, fmt: Seq<char>) -> Option<i64>;

/// Relies on chrono's `NaiveDateTime::parse_from_str`, whose result depends on
/// the text and the format alone, read out by `and_utc().timestamp()`.
#[verifier::external_body]
fn parse_naive_date(s: &str, fmt: &str) -> (r: Option<i64>)
    ensures
        r == naive_date_of(s@, fmt@),
{
    match chrono::NaiveDateTime::parse_from_str(s, fmt) {
        Ok(d) => Some(d.and_utc().timestamp()),
        Err(_) => None,
    }
}

/// The date of a release: field `Date` read as `%a, %d %b %Y %H:%M:%S %Z`,
/// the zone name skipped and the time taken as UTC.
pub open spec fn release_date(s: Seq<FieldModel>) -> Option<DateStamp> {
    match field_value(s, "Date"@) {
        None => None,
        Some(v) => match naive_date_of(v, "%a, %d %b %Y %H:%M:%S %Z"@) {
            None => None,
            Some(t) => Some(DateStamp { timestamp: t, utc_offset: 0 }),
        },
    }
}

/// The first stanza that has a `Codename` field.
pub open spec fn release_stanza(ss: Seq<Seq<FieldModel>>) -> Option<Seq<FieldModel>>
    decreases ss.len(),
{
    if ss.len() == 0 {
        None
    } else if field_index(ss[0], "Codename"@) is Some {
        Some(ss[0])
    } else {
        release_stanza(ss.drop_first())
    }
}

/// Whether every entry of `c` whose path is also in `a` has the same size there.
pub open spec fn sizes_agree(a: Seq<FileModel>, c: Seq<FileModel>) -> bool {
    forall|i: int, j: int|
        0 <= i < c.len() && 0 <= j < a.len() && (#[trigger] c[i]).2 == (#[trigger] a[j]).2 ==> c[i].1
            == a[j].1
}

/// What is wrong with a release stanza, checked in this order: a missing
/// `Date`, a date that does not read, missing or empty `Architectures` or
/// `Components`, a missing `Description`, `Version` or `Codename`, a missing
/// or malformed `MD5Sum`, `SHA1` or `SHA256` list, and SHA-256 entries whose
/// sizes differ from the MD5 or SHA-1 entries for the same path.
pub open spec fn release_failure(s: Seq<FieldModel>) -> Option<ErrorKind> {
    if field_value(s, "Date"@) is None {
        Some(ErrorKind::MissingField)
    } else if release_date(s) is None {
        Some(ErrorKind::BadDate)
    } else if nonempty_list(s, "Architectures"@) is None || nonempty_list(s, "Components"@) is None
        || field_text(s, "Description"@) is None || field_value(s, "Version"@) is None
        || field_value(s, "Codename"@) is None {
        Some(ErrorKind::MissingField)
    } else if lookup(s, "MD5Sum"@) is None {
        Some(ErrorKind::MissingField)
    } else if field_files(s, "MD5Sum"@) is None {
        Some(ErrorKind::MalformedFiles)
    } else if lookup(s, "SHA1"@) is None {
        Some(ErrorKind::MissingField)
    } else if field_files(s, "SHA1"@) is None {
        Some(ErrorKind::MalformedFiles)
    } else if lookup(s, "SHA256"@) is None {
        Some(ErrorKind::MissingField)
    } else if field_files(s, "SHA256"@) is None {
        Some(ErrorKind::MalformedFiles)
    } else if !sizes_agree(field_files(s, "MD5Sum"@)->0, field_files(s, "SHA256"@)->0)
        || !sizes_agree(field_files(s, "SHA1"@)->0, field_files(s, "SHA256"@)->0) {
        Some(ErrorKind::MalformedFiles)
    } else {
        None
    }
}

/// Whether a release stanza makes metadata.
pub open spec fn release_ok(s: Seq<FieldModel>) -> bool {
    release_failure(s) is None
}

/// The metadata of a repository, from its `InRelease` file.
#[derive(Debug)]
pub struct RepositoryMetadata {
    pub architectures: Vec<String>,
    pub components: Vec<String>,
    pub description: String,
    pub origin: Option<String>,
    pub label: Option<String>,
    pub version: String,
    pub suite: Option<String>,
    pub codename: String,
    pub date: DateStamp,
    pub md5sum: Vec<File>,
    pub sha1: Vec<File>,
    pub sha256: Vec<File>,
}

/// Whether every field of `m` is what the release stanza `s` gives for it.
pub open spec fn release_matches(m: RepositoryMetadata, s: Seq<FieldModel>) -> bool {
    &&& Some(views(m.architectures@)) == nonempty_list(s, "Architectures"@)
    &&& Some(views(m.components@)) == nonempty_list(s, "Components"@)
    &&& Some(m.description@) == field_text(s, "Description"@)
    &&& opt_view(m.origin) == field_value(s, "Origin"@)
    &&& opt_view(m.label) == field_value(s, "Label"@)
    &&& Some(m.version@) == field_value(s, "Version"@)
    &&& opt_view(m.suite) == field_value(s, "Suite"@)
    &&& Some(m.codename@) == field_value(s, "Codename"@)
    &&& Some(m.date) == release_date(s)
    &&& Some(file_models(m.md5sum@)) == field_files(s, "MD5Sum"@)
    &&& Some(file_models(m.sha1@)) == field_files(s, "SHA1"@)
    &&& Some(file_models(m.sha256@)) == field_files(s, "SHA256"@)
}

/// Whether two file lists agree on sizes as `sizes_agree` says.
fn sizes_agree_exec(a: &Vec<File>, c: &Vec<File>) -> (r: bool)
    ensures
        r == sizes_agree(file_models(a@), file_models(c@)),
{
    let ghost am = file_models(a@);
    let ghost cm = file_models(c@);
    let mut i: usize = 0;
    while i < c.len()
        invariant
            i <= c.len(),
            am == file_models(a@),
            cm == file_models(c@),
            forall|x: int, y: int|
                0 <= x < i && 0 <= y < am.len() && (#[trigger] cm[x]).2 == (#[trigger] am[y]).2
                    ==> cm[x].1 == am[y].1,
        decreases c.len() - i,
    {
        let mut j: usize = 0;
        while j < a.len()
            invariant
                i < c.len(),
                j <= a.len(),
                am == file_models(a@),
                cm == file_models(c@),
                forall|x: int, y: int|
                    0 <= x < i && 0 <= y < am.len() && (#[trigger] cm[x]).2 == (#[trigger] am[y]).2
                        ==> cm[x].1 == am[y].1,
                forall|y: int| 0 <= y < j && cm[i as int].2 == (#[trigger] am[y]).2 ==> cm[i as int].1 == am[y].1,
            decreases a.len() - j,
        {
            assert(cm[i as int] == c@[i as int].model());
            assert(am[j as int] == a@[j as int].model());
            if c[i].path == a[j].path && c[i].size != a[j].size {
                return false;
            }
            j = j + 1;
        }
        i = i + 1;
    }
    true
}

fn release_error(kind: ErrorKind, msg: &str) -> (e: RaptoboError)
    ensures
        e.spec_kind() == kind,
{
    RaptoboError::with_kind(kind, msg)
}

impl RepositoryMetadata {
    /// The metadata of an `InRelease` document, read from its first stanza
    /// with a `Codename` field: `MissingField` where there is none, else the
    /// error that `release_failure` names, else every field as
    /// `release_matches` says.
    pub fn new(content: Vec<String>) -> (r: Result<RepositoryMetadata, RaptoboError>)
        ensures
            match release_stanza(lex(views(content@))) {
                None => r matches Err(e) && e.spec_kind() == ErrorKind::MissingField,
                Some(s) => match release_failure(s) {
                    None => r matches Ok(m) && release_matches(m, s),
                    Some(k) => r matches Err(e) && e.spec_kind() == k,
                },
            },
    {
        let ghost doc = lex(views(content@));
        let stanzas = parse_metadata(content).unwrap();
        let mut i: usize = 0;
        assert(doc.skip(0) =~= doc);
        while i < stanzas.len()
            invariant
                i <= stanzas.len(),
                stanza_views(stanzas@) == doc,
                release_stanza(doc) == release_stanza(doc.skip(i as int)),
            ensures
                i <= stanzas.len(),
                stanza_views(stanzas@) == doc,
                release_stanza(doc) == release_stanza(doc.skip(i as int)),
                i < stanzas.len() ==> field_index(stanzas@[i as int]@, "Codename"@) is Some,
            decreases stanzas.len() - i,
        {
            assert(doc.skip(i as int)[0] == stanzas@[i as int]@);
            if stanzas[i].contains_key("Codename") {
                break;
            }
            assert(doc.skip(i as int).drop_first() =~= doc.skip(i + 1));
            i = i + 1;
        }
        if i == stanzas.len() {
            assert(doc.skip(i as int) =~= Seq::<Seq<FieldModel>>::empty());
            return Err(release_error(ErrorKind::MissingField, "no stanza has a Codename field"));
        }
        let stanza = &stanzas[i];
        assert(doc.skip(i as int)[0] == stanza@);
        assert(release_stanza(doc) == Some(stanza@));
        let date_text = match stanza_value("Date", stanza) {
            Ok(v) => v,
            Err(e) => return Err(e),
        };
        let date = match parse_naive_date(date_text.as_str(), "%a, %d %b %Y %H:%M:%S %Z") {
            Some(t) => DateStamp { timestamp: t, utc_offset: 0 },
            None => return Err(release_error(ErrorKind::BadDate, "release date does not parse")),
        };
        let architectures = stanza_list("Architectures", stanza)?;
        if architectures.len() == 0 {
            return Err(release_error(ErrorKind::MissingField, "no architectures listed"));
        }
        let components = stanza_list("Components", stanza)?;
        if components.len() == 0 {
            return Err(release_error(ErrorKind::MissingField, "no components listed"));
        }
        let description = stanza_text("Description", stanza)?;
        let version = stanza_value("Version", stanza)?;
        let codename = stanza_value("Codename", stanza)?;
        let md5sum = stanza_files("MD5Sum", stanza)?;
        let sha1 = stanza_files("SHA1", stanza)?;
        let sha256 = stanza_files("SHA256", stanza)?;
        if !sizes_agree_exec(&md5sum, &sha256) || !sizes_agree_exec(&sha1, &sha256) {
            return Err(
                release_error(ErrorKind::MalformedFiles, "file sizes differ between checksum lists"),
            );
        }
        Ok(
            RepositoryMetadata {
                architectures,
                components,
                description,
                origin: stanza_opt_value("Origin", stanza),
                label: stanza_opt_value("Label", stanza),
                version,
                suite: stanza_opt_value("Suite", stanza),
                codename,
                date,
                md5sum,
                sha1,
                sha256,
            },
        )
    }
}


/// The kind of a checksum.
#[derive(Debug, Clone, Copy, PartialEq, Eq, Structural)]
pub enum HashKind {
    MD5,
    SHA1,
    SHA256,
    SHA512,
}

/// One checksum of a file.
#[derive(Debug, Clone)]
pub enum FileHash {
    MD5(String),
    SHA1(String),
    SHA256(String),
    SHA512(String),
}

impl FileHash {
    pub open spec fn model(&self) -> (HashKind, Seq<char>) {
        match self {
            FileHash::MD5(h) => (HashKind::MD5, h@),
            FileHash::SHA1(h) => (HashKind::SHA1, h@),
            FileHash::SHA256(h) => (HashKind::SHA256, h@),
            FileHash::SHA512(h) => (HashKind::SHA512, h@),
        }
    }
}

/// An entry of the file table in specifications: path, size, checksums.
pub type EntryModel = (Seq<char>, u64, Seq<(HashKind, Seq<char>)>);

/// A file the release lists, with every checksum given for it.
#[derive(Debug)]
pub struct FileMetadata {
    pub path: String,
    pub size: u64,
    pub hashes: Vec<FileHash>,
}

impl FileMetadata {
    pub open spec fn model(&self) -> EntryModel {
        (self.path@, self.size, self.hashes@.map_values(|h: FileHash| h.model()))
    }
}

/// The models of a file table.
pub open spec fn entry_models(v: Seq<FileMetadata>) -> Seq<EntryModel> {
    v.map_values(|f: FileMetadata| f.model())
}

/// The position of the entry for `path`.
pub open spec fn entry_index(fs: Seq<EntryModel>, path: Seq<char>) -> Option<int>
    decreases fs.len(),
{
    if fs.len() == 0 {
        None
    } else {
        match entry_index(fs.drop_last(), path) {
            Some(i) => Some(i),
            None => if fs.last().0 == path {
                Some(fs.len() - 1)
            } else {
                None
            },
        }
    }
}

proof fn lemma_entry_index(fs: Seq<EntryModel>, path: Seq<char>)
    ensures
        match entry_index(fs, path) {
            Some(i) => 0 <= i < fs.len() && fs[i].0 == path && forall|j: int|
                0 <= j < i ==> fs[j].0 != path,
            None => forall|j: int| 0 <= j < fs.len() ==> fs[j].0 != path,
        },
    decreases fs.len(),
{
    if fs.len() > 0 {
        lemma_entry_index(fs.drop_last(), path);
        assert(forall|j: int| 0 <= j < fs.len() - 1 ==> fs.drop_last()[j] == fs[j]);
    }
}

proof fn lemma_entry_index_at(fs: Seq<EntryModel>, path: Seq<char>, i: int)
    requires
        0 <= i < fs.len(),
        fs[i].0 == path,
        forall|j: int| 0 <= j < i ==> fs[j].0 != path,
    ensures
        entry_index(fs, path) == Some(i),
{
    lemma_entry_index(fs, path);
    match entry_index(fs, path) {
        Some(k) => {
            if k < i {
            } else if k > i {
            }
        },
        None => {},
    }
}

/// The table with checksum `h` recorded for `path`: added to its entry, or a
/// new entry of that size at the end.
pub open spec fn add_hash(
    fs: Seq<EntryModel>,
    path: Seq<char>,
    size: u64,
    h: (HashKind, Seq<char>),
) -> Seq<EntryModel> {
    match entry_index(fs, path) {
        Some(i) => fs.update(i, (fs[i].0, fs[i].1, fs[i].2.push(h))),
        None => fs.push((path, size, seq![h])),
    }
}

/// The table with every entry of `list` recorded as a checksum of `kind`.
pub open spec fn add_all(fs: Seq<EntryModel>, list: Seq<FileModel>, kind: HashKind) -> Seq<
    EntryModel,
>
    decreases list.len(),
{
    if list.len() == 0 {
        fs
    } else {
        let f = list.last();
        add_hash(add_all(fs, list.drop_last(), kind), f.2, f.1, (kind, f.0))
    }
}

/// The file table of a release: every path of the MD5, SHA-1 and SHA-256
/// lists, in order of first appearance, with all its checksums.
pub open spec fn file_table(md5: Seq<FileModel>, sha1: Seq<FileModel>, sha256: Seq<FileModel>) -> Seq<
    EntryModel,
> {
    add_all(add_all(add_all(Seq::empty(), md5, HashKind::MD5), sha1, HashKind::SHA1), sha256, HashKind::SHA256)
}

/// Records checksum `h` of `file` in the table, as `add_hash` says.
fn add_file_hash(files: &mut Vec<FileMetadata>, file: &File, h: FileHash)
    ensures
        entry_models(final(files)@) == add_hash(
            entry_models(old(files)@),
            file.path@,
            file.size,
            h.model(),
        ),
{
    let ghost fs = entry_models(files@);
    let mut i: usize = 0;
    while i < files.len()
        invariant
            i <= files.len(),
            fs == entry_models(files@),
            files@ == old(files)@,
            forall|j: int| 0 <= j < i ==> fs[j].0 != file.path@,
        decreases files.len() - i,
    {
        assert(fs[i as int] == files@[i as int].model());
        if files[i].path == file.path {
            proof {
                lemma_entry_index_at(fs, file.path@, i as int);
            }
            let mut e = files.remove(i);
            let ghost old_hashes = e.hashes@;
            e.hashes.push(h);
            assert(e.hashes@.map_values(|h: FileHash| h.model()) =~= old_hashes.map_values(
                |h: FileHash| h.model(),
            ).push(h.model()));
            files.insert(i, e);
            assert(entry_models(files@) =~= add_hash(fs, file.path@, file.size, h.model()));
            return;
        }
        i = i + 1;
    }
    proof {
        lemma_entry_index(fs, file.path@);
        if let Some(k) = entry_index(fs, file.path@) {
            assert(fs[k].0 == file.path@);
        }
    }
    let mut hashes: Vec<FileHash> = Vec::new();
    hashes.push(h);
    let e = FileMetadata { path: file.path.clone(), size: file.size, hashes };
    assert(e.model().2 =~= seq![h.model()]);
    files.push(e);
    assert(entry_models(files@) =~= add_hash(fs, file.path@, file.size, h.model()));
}

/// The checksum of the given kind.
fn hash_of(kind: HashKind, hash: &String) -> (r: FileHash)
    ensures
        r.model() == (kind, hash@),
{
    match kind {
        HashKind::MD5 => FileHash::MD5(hash.clone()),
        HashKind::SHA1 => FileHash::SHA1(hash.clone()),
        HashKind::SHA256 => FileHash::SHA256(hash.clone()),
        HashKind::SHA512 => FileHash::SHA512(hash.clone()),
    }
}

/// Records every entry of `list` as a checksum of `kind`.
fn add_file_list(files: &mut Vec<FileMetadata>, list: &Vec<File>, kind: HashKind)
    ensures
        entry_models(final(files)@) == add_all(entry_models(old(files)@), file_models(list@), kind),
{
    let ghost start = entry_models(files@);
    let ghost lm = file_models(list@);
    let mut i: usize = 0;
    assert(lm.take(0) =~= Seq::<FileModel>::empty());
    while i < list.len()
        invariant
            i <= list.len(),
            lm == file_models(list@),
            entry_models(files@) == add_all(start, lm.take(i as int), kind),
        decreases list.len() - i,
    {
        assert(lm.take(i + 1).drop_last() =~= lm.take(i as int));
        assert(lm[i as int] == list@[i as int].model());
        let h = hash_of(kind, &list[i].hash);
        add_file_hash(files, &list[i], h);
        i = i + 1;
    }
    assert(lm.take(i as int) =~= lm);
}


/// Whether `p` begins with `q`.
pub open spec fn starts_with(p: Seq<char>, q: Seq<char>) -> bool {
    q.len() <= p.len() && p.take(q.len() as int) == q
}

/// Whether `q` occurs in `p`.
pub open spec fn contains_seq(p: Seq<char>, q: Seq<char>) -> bool {
    exists|i: int| 0 <= i && i + q.len() <= p.len() && #[trigger] p.subrange(i, i + q.len()) == q
}

/// Whether `p` is a package index of component `c` and architecture `a`:
/// it begins with `c/` and holds `binary-a`.
pub open spec fn is_index_path(p: Seq<char>, c: Seq<char>, a: Seq<char>) -> bool {
    starts_with(p, c + seq!['/']) && contains_seq(p, "binary-"@ + a)
}

/// The paths of the table that are indices of `c` and `a`, in table order.
pub open spec fn index_paths(fs: Seq<EntryModel>, c: Seq<char>, a: Seq<char>) -> Seq<Seq<char>>
    decreases fs.len(),
{
    if fs.len() == 0 {
        Seq::empty()
    } else {
        let prev = index_paths(fs.drop_last(), c, a);
        if is_index_path(fs.last().0, c, a) {
            prev.push(fs.last().0)
        } else {
            prev
        }
    }
}

/// A group of package indices in specifications: component, architecture, paths.
pub type IndexModel = (Seq<char>, Seq<char>, Seq<Seq<char>>);

/// The index groups of component `c`, one per architecture, in order.
pub open spec fn arch_indices(fs: Seq<EntryModel>, c: Seq<char>, archs: Seq<Seq<char>>) -> Seq<
    IndexModel,
>
    decreases archs.len(),
{
    if archs.len() == 0 {
        Seq::empty()
    } else {
        arch_indices(fs, c, archs.drop_last()).push((c, archs.last(), index_paths(fs, c, archs.last())))
    }
}

/// The index groups of every component and architecture, components outside.
pub open spec fn all_indices(fs: Seq<EntryModel>, comps: Seq<Seq<char>>, archs: Seq<Seq<char>>) -> Seq<
    IndexModel,
>
    decreases comps.len(),
{
    if comps.len() == 0 {
        Seq::empty()
    } else {
        all_indices(fs, comps.drop_last(), archs) + arch_indices(fs, comps.last(), archs)
    }
}

/// Whether `p` begins with `q`.
fn starts_with_exec(p: &Vec<char>, q: &Vec<char>) -> (r: bool)
    ensures
        r == starts_with(p@, q@),
{
    if q.len() > p.len() {
        return false;
    }
    let mut i: usize = 0;
    while i < q.len()
        invariant
            i <= q.len() <= p.len(),
            forall|j: int| 0 <= j < i ==> p@[j] == q@[j],
        decreases q.len() - i,
    {
        if p[i] != q[i] {
            assert(p@.take(q.len() as int)[i as int] != q@[i as int]);
            return false;
        }
        i = i + 1;
    }
    assert(p@.take(q.len() as int) =~= q@);
    true
}

/// Whether `q` occurs in `p`.
fn contains_exec(p: &Vec<char>, q: &Vec<char>) -> (r: bool)
    ensures
        r == contains_seq(p@, q@),
{
    if q.len() > p.len() {
        return false;
    }
    if q.len() == 0 {
        assert(p@.subrange(0, 0 + q@.len() as int) =~= q@);
        assert(contains_seq(p@, q@));
        return true;
    }
    let limit = p.len() - q.len() + 1;
    let mut i: usize = 0;
    while i < limit
        invariant
            1 <= q.len() <= p.len(),
            limit == p.len() - q.len() + 1,
            i <= limit,
            forall|k: int| 0 <= k < i ==> #[trigger] p@.subrange(k, k + q.len()) != q@,
        decreases limit - i,
    {
        let mut j: usize = 0;
        let mut same = true;
        while j < q.len()
            invariant
                i + q.len() <= p.len(),
                j <= q.len(),
                same == forall|t: int| 0 <= t < j ==> p@[i + t] == q@[t],
            decreases q.len() - j,
        {
            if p[i + j] != q[j] {
                same = false;
            }
            j = j + 1;
        }
        if same {
            assert(p@.subrange(i as int, i + q.len()) =~= q@);
            assert(contains_seq(p@, q@));
            return true;
        }
        assert(p@.subrange(i as int, i + q.len()) != q@) by {
            let t = choose|t: int| 0 <= t < q.len() && p@[i + t] != q@[t];
            assert(p@.subrange(i as int, i + q.len())[t] == p@[i + t]);
        }
        i = i + 1;
    }
    assert(!contains_seq(p@, q@)) by {
        if contains_seq(p@, q@) {
            let k = choose|k: int| 0 <= k && k + q.len() <= p.len() && #[trigger] p@.subrange(
                k,
                k + q.len(),
            ) == q@;
            assert(p@.subrange(k, k + q.len()) != q@);
        }
    }
    false
}

/// The paths of the table that are indices of `c` and `a`.
fn index_paths_exec(files: &Vec<FileMetadata>, c: &String, a: &String) -> (r: Vec<String>)
    ensures
        views(r@) == index_paths(entry_models(files@), c@, a@),
{
    let ghost fs = entry_models(files@);
    let mut prefix = c.clone();
    prefix.append("/");
    let mut needle = String::from_str("binary-");
    needle.append(a.as_str());
    proof {
        reveal_strlit("/");
    }
    assert(prefix@ =~= c@ + seq!['/']);
    let pc = chars_of(prefix.as_str());
    let nc = chars_of(needle.as_str());
    let mut out: Vec<String> = Vec::new();
    let mut i: usize = 0;
    assert(fs.take(0) =~= Seq::<EntryModel>::empty());
    while i < files.len()
        invariant
            i <= files.len(),
            fs == entry_models(files@),
            pc@ == c@ + seq!['/'],
            nc@ == "binary-"@ + a@,
            views(out@) == index_paths(fs.take(i as int), c@, a@),
        decreases files.len() - i,
    {
        assert(fs.take(i + 1).drop_last() =~= fs.take(i as int));
        assert(fs[i as int] == files@[i as int].model());
        let path = chars_of(files[i].path.as_str());
        if starts_with_exec(&path, &pc) && contains_exec(&path, &nc) {
            let ghost before = views(out@);
            out.push(files[i].path.clone());
            assert(views(out@) =~= before.push(files@[i as int].path@));
        }
        i = i + 1;
    }
    assert(fs.take(i as int) =~= fs);
    out
}


/// A group of package indices: the paths of one component and architecture.
#[derive(Debug, Clone)]
pub struct PackageIndex {
    pub component: String,
    pub architecture: String,
    pub paths: Vec<String>,
}

impl PackageIndex {
    pub open spec fn model(&self) -> IndexModel {
        (self.component@, self.architecture@, views(self.paths@))
    }
}

/// The models of a sequence of index groups.
pub open spec fn index_models(v: Seq<PackageIndex>) -> Seq<IndexModel> {
    v.map_values(|i: PackageIndex| i.model())
}

/// The index groups of component `c`, one per architecture.
fn arch_indices_exec(files: &Vec<FileMetadata>, c: &String, archs: &Vec<String>) -> (r: Vec<
    PackageIndex,
>)
    ensures
        index_models(r@) == arch_indices(entry_models(files@), c@, views(archs@)),
{
    let ghost am = views(archs@);
    let mut out: Vec<PackageIndex> = Vec::new();
    let mut i: usize = 0;
    assert(am.take(0) =~= Seq::<Seq<char>>::empty());
    assert(index_models(out@) =~= Seq::<IndexModel>::empty());
    while i < archs.len()
        invariant
            i <= archs.len(),
            am == views(archs@),
            index_models(out@) == arch_indices(entry_models(files@), c@, am.take(i as int)),
        decreases archs.len() - i,
    {
        assert(am.take(i + 1).drop_last() =~= am.take(i as int));
        let paths = index_paths_exec(files, c, &archs[i]);
        let g = PackageIndex { component: c.clone(), architecture: archs[i].clone(), paths };
        let ghost before = index_models(out@);
        out.push(g);
        assert(index_models(out@) =~= before.push(g.model()));
        i = i + 1;
    }
    assert(am.take(i as int) =~= am);
    out
}

/// The index groups of every component and architecture.
fn all_indices_exec(files: &Vec<FileMetadata>, comps: &Vec<String>, archs: &Vec<String>) -> (r: Vec<
    PackageIndex,
>)
    ensures
        index_models(r@) == all_indices(entry_models(files@), views(comps@), views(archs@)),
{
    let ghost cm = views(comps@);
    let mut out: Vec<PackageIndex> = Vec::new();
    let mut i: usize = 0;
    assert(cm.take(0) =~= Seq::<Seq<char>>::empty());
    assert(index_models(out@) =~= Seq::<IndexModel>::empty());
    while i < comps.len()
        invariant
            i <= comps.len(),
            cm == views(comps@),
            index_models(out@) == all_indices(entry_models(files@), cm.take(i as int), views(archs@)),
        decreases comps.len() - i,
    {
        assert(cm.take(i + 1).drop_last() =~= cm.take(i as int));
        let mut group = arch_indices_exec(files, &comps[i], archs);
        let ghost before = index_models(out@);
        let ghost added = index_models(group@);
        out.append(&mut group);
        assert(index_models(out@) =~= before + added);
        i = i + 1;
    }
    assert(cm.take(i as int) =~= cm);
    out
}

/// Where a repository is and what of it to read.
#[derive(Debug, Clone)]
pub struct RepositorySpec {
    /// Whether the repository uses the flat layout.
    pub flat: bool,
    /// Whether the repository holds sources.
    pub source: bool,
    /// The repository root.
    pub uri: String,
    /// The distribution, or the path below the root of a flat repository.
    pub distribution: String,
    /// The components to read, in place of those the release lists.
    pub components: Option<Vec<String>>,
}

/// The packages of one index.
#[derive(Debug)]
pub struct IndexPackages {
    pub path: String,
    pub packages: Vec<PackageMetadata>,
}

/// What is read from a repository after its metadata.
#[derive(Debug)]
pub struct RepositoryData {
    /// The files the release lists, each path once, in order of first appearance.
    pub files: Vec<FileMetadata>,
    /// The package indices of each component and architecture.
    pub package_indices: Vec<PackageIndex>,
    /// The packages of each index read so far.
    pub packages: Vec<IndexPackages>,
}

impl RepositoryData {
    /// Nothing read yet.
    pub fn new() -> (r: RepositoryData)
        ensures
            r.files@.len() == 0,
            r.package_indices@.len() == 0,
            r.packages@.len() == 0,
    {
        RepositoryData { files: Vec::new(), package_indices: Vec::new(), packages: Vec::new() }
    }
}

/// A repository being read: where it is, its metadata once loaded, and what
/// was derived from it.
#[derive(Debug)]
pub struct Repository {
    pub spec: RepositorySpec,
    pub metadata: Option<RepositoryMetadata>,
    pub data: RepositoryData,
}

/// The components whose indices are looked for: those asked for, else those
/// the release lists.
pub open spec fn chosen_components(spec: RepositorySpec, m: RepositoryMetadata) -> Seq<Seq<char>> {
    match spec.components {
        Some(c) => views(c@),
        None => views(m.components@),
    }
}

/// Whether the lines of an `InRelease` file give metadata.
pub open spec fn release_loads(lines: Seq<Seq<char>>) -> bool {
    release_stanza(lex(lines)) matches Some(s) && release_ok(s)
}

/// Where the `InRelease` file of a repository is.
pub open spec fn inrelease_path(spec: RepositorySpec) -> Seq<char> {
    if spec.flat {
        spec.uri@ + "/"@ + spec.distribution@ + "/InRelease"@
    } else {
        spec.uri@ + "/dists/"@ + spec.distribution@ + "/InRelease"@
    }
}

impl RepositorySpec {
    /// A repository to read, with nothing loaded yet.
    pub fn to_repo(self) -> (r: Repository)
        ensures
            r.spec == self,
            r.metadata is None,
            r.data.files@.len() == 0,
            r.data.package_indices@.len() == 0,
            r.data.packages@.len() == 0,
    {
        Repository { spec: self, metadata: None, data: RepositoryData::new() }
    }
}

impl Repository {
    /// A repository to read, with nothing loaded yet.
    pub fn new(
        uri: &str,
        distribution: &str,
        components: Option<Vec<&str>>,
        source: bool,
        flat: bool,
    ) -> (r: Repository)
        ensures
            r.spec.uri@ == uri@,
            r.spec.distribution@ == distribution@,
            r.spec.source == source,
            r.spec.flat == flat,
            match components {
                Some(c) => r.spec.components matches Some(v) && views(v@) == c@.map_values(
                    |x: &str| x@,
                ),
                None => r.spec.components is None,
            },
            r.metadata is None,
            r.data.files@.len() == 0,
            r.data.package_indices@.len() == 0,
            r.data.packages@.len() == 0,
    {
        let c = match components {
            None => None,
            Some(comps) => {
                let mut v: Vec<String> = Vec::new();
                let mut i: usize = 0;
                while i < comps.len()
                    invariant
                        i <= comps.len(),
                        views(v@) == comps@.take(i as int).map_values(|x: &str| x@),
                    decreases comps.len() - i,
                {
                    let ghost before = views(v@);
                    v.push(comps[i].to_owned());
                    assert(views(v@) =~= before.push(comps@[i as int]@));
                    assert(comps@.take(i + 1).map_values(|x: &str| x@) =~= comps@.take(
                        i as int,
                    ).map_values(|x: &str| x@).push(comps@[i as int]@));
                    i = i + 1;
                }
                assert(comps@.take(i as int) =~= comps@);
                Some(v)
            },
        };
        Repository {
            spec: RepositorySpec {
                flat,
                source,
                uri: uri.to_owned(),
                distribution: distribution.to_owned(),
                components: c,
            },
            metadata: None,
            data: RepositoryData::new(),
        }
    }

    /// The URL of the `InRelease` file: `{uri}/{distribution}/InRelease` for
    /// a flat repository, `{uri}/dists/{distribution}/InRelease` otherwise.
    pub fn inrelease_url(&self) -> (r: String)
        ensures
            r@ == inrelease_path(self.spec),
    {
        let mut url = self.spec.uri.clone();
        if self.spec.flat {
            url.append("/");
        } else {
            url.append("/dists/");
        }
        url.append(self.spec.distribution.as_str());
        url.append("/InRelease");
        url
    }

    /// Builds the file table from the metadata's MD5, SHA-1 and SHA-256 lists,
    /// and the package indices of each chosen component and each
    /// architecture. `PreconditionFailed` where no metadata is loaded.
    pub fn process_files(&mut self) -> (r: Result<(), RaptoboError>)
        ensures
            final(self).spec == old(self).spec,
            final(self).metadata == old(self).metadata,
            final(self).data.packages == old(self).data.packages,
            match old(self).metadata {
                None => r matches Err(e) && e.spec_kind() == ErrorKind::PreconditionFailed
                    && final(self).data == old(self).data,
                Some(m) => r is Ok && entry_models(final(self).data.files@) == file_table(
                    file_models(m.md5sum@),
                    file_models(m.sha1@),
                    file_models(m.sha256@),
                ) && index_models(final(self).data.package_indices@) == all_indices(
                    entry_models(final(self).data.files@),
                    chosen_components(old(self).spec, m),
                    views(m.architectures@),
                ),
            },
    {
        let meta = match &self.metadata {
            Some(m) => m,
            None => {
                return Err(
                    RaptoboError::with_kind(
                        ErrorKind::PreconditionFailed,
                        "files are processed before the metadata is loaded",
                    ),
                );
            },
        };
        let mut files: Vec<FileMetadata> = Vec::new();
        assert(entry_models(files@) =~= Seq::<EntryModel>::empty());
        add_file_list(&mut files, &meta.md5sum, HashKind::MD5);
        add_file_list(&mut files, &meta.sha1, HashKind::SHA1);
        add_file_list(&mut files, &meta.sha256, HashKind::SHA256);
        let indices = match &self.spec.components {
            Some(c) => all_indices_exec(&files, c, &meta.architectures),
            None => all_indices_exec(&files, &meta.components, &meta.architectures),
        };
        self.data.files = files;
        self.data.package_indices = indices;
        Ok(())
    }

    /// Parses the lines of the index at `path` and records its packages.
    pub fn load_index(&mut self, path: String, content: Vec<String>)
        ensures
            final(self).spec == old(self).spec,
            final(self).metadata == old(self).metadata,
            final(self).data.files == old(self).data.files,
            final(self).data.package_indices == old(self).data.package_indices,
            final(self).data.packages@.len() == old(self).data.packages@.len() + 1,
            forall|i: int| 0 <= i < old(self).data.packages@.len() ==> final(self).data.packages@[i] == old(self).data.packages@[i],
            final(self).data.packages@.last().path@ == path@,
            final(self).data.packages@.last().packages@.len() == accepted(lex(views(content@))).len(),
            forall|i: int| 0 <= i < final(self).data.packages@.last().packages@.len() ==> metadata_matches(
                #[trigger] final(self).data.packages@.last().packages@[i],
                accepted(lex(views(content@)))[i],
            ),
    {
        let packages = PackageMetadata::parse(content).unwrap();
        self.data.packages.push(IndexPackages { path, packages });
    }

    /// Reads the metadata from the lines of the `InRelease` file, as
    /// `RepositoryMetadata::new` does; on failure nothing changes.
    pub fn load_metadata(&mut self, content: Vec<String>) -> (r: Result<(), RaptoboError>)
        ensures
            final(self).spec == old(self).spec,
            final(self).data == old(self).data,
            r.is_ok() <==> release_loads(views(content@)),
            r.is_ok() ==> (final(self).metadata matches Some(m) && release_matches(
                m,
                release_stanza(lex(views(content@)))->0,
            )),
            r.is_err() ==> final(self).metadata == old(self).metadata,
    {
        let metadata = RepositoryMetadata::new(content)?;
        self.metadata = Some(metadata);
        Ok(())
    }
}

} // verus!
