//! Debian version strings: their decomposition into blocks and their order.
use vstd::prelude::*;
use crate::error::{ErrorKind, RaptoboError};
use std::cmp::Ordering;
use crate::utils::{stanza_value, field_value, Stanza};
use crate::text::{
    all_digits, chars_of, decimal_u64, digits_value, find_first, find_last, first_index, is_digit,
    is_digit_char, last_index, parse_u64_range, substring,
};

verus! {

/// A block of a version string in specifications: a non-digit prefix and the
/// value of the digit run that follows it.
pub type BlockModel = (Seq<char>, nat);

/// The number of leading characters of `s` that are digits (`digits`) or that
/// are not (`!digits`).
pub open spec fn run_len(s: Seq<char>, digits: bool) -> nat
    decreases s.len(),
{
    if s.len() > 0 && is_digit(s[0]) == digits {
        1 + run_len(s.drop_first(), digits)
    } else {
        0
    }
}

/// A run is no longer than the text.
pub proof fn lemma_run_len_bound(s: Seq<char>, digits: bool)
    ensures
        run_len(s, digits) <= s.len(),
    decreases s.len(),
{
    if s.len() > 0 && is_digit(s[0]) == digits {
        lemma_run_len_bound(s.drop_first(), digits);
    }
}

/// The blocks of a version string, left to right: each is the run of
/// non-digits before a run of digits, with that run's value (0 where the run
/// is empty, at the end of the string).
pub open spec fn blocks(s: Seq<char>) -> Seq<BlockModel>
    decreases s.len()
    via blocks_decreases
{
    if s.len() == 0 {
        Seq::empty()
    } else {
        let p = run_len(s, false);
        let rest = s.skip(p as int);
        let q = run_len(rest, true);
        seq![(s.take(p as int), digits_value(rest.take(q as int)))] + blocks(rest.skip(q as int))
    }
}

#[via_fn]
proof fn blocks_decreases(s: Seq<char>) {
    lemma_run_len_bound(s, false);
    lemma_run_len_bound(s.skip(run_len(s, false) as int), true);
    if s.len() > 0 {
        if !is_digit(s[0]) {
            assert(run_len(s, false) >= 1);
        } else {
            assert(s.skip(0) =~= s);
            assert(run_len(s, true) >= 1);
        }
    }
}

/// Whether every block's number of `s` fits in a `u64`.
pub open spec fn fits(s: Seq<char>) -> bool {
    forall|i: int| 0 <= i < blocks(s).len() ==> (#[trigger] blocks(s)[i]).1 <= u64::MAX
}

/// One block of a version string.
#[derive(Debug, Clone)]
pub struct VersionBlock {
    pub prefix: String,
    pub number: u64,
}

impl VersionBlock {
    /// The block in specifications.
    pub open spec fn model(&self) -> BlockModel {
        (self.prefix@, self.number as nat)
    }

    /// The block `("", 0)`, which pads the shorter of two block sequences.
    pub fn new() -> (r: VersionBlock)
        ensures
            r.model() == (Seq::<char>::empty(), 0nat),
    {
        VersionBlock { prefix: String::new(), number: 0 }
    }

    /// The blocks of `version`; an error of kind `InvalidVersion` where a
    /// digit run does not fit in a `u64`.
    pub fn from(version: &str) -> (r: Result<Vec<VersionBlock>, RaptoboError>)
        ensures
            r.is_ok() <==> fits(version@),
            r matches Ok(v) ==> block_models(v@) == blocks(version@),
            r matches Err(e) ==> e.spec_kind() == ErrorKind::InvalidVersion,
    {
        let cs = chars_of(version);
        let n = cs.len();
        let mut out: Vec<VersionBlock> = Vec::new();
        let mut i: usize = 0;
        assert(cs@.skip(0) =~= cs@);
        while i < n
            invariant
                cs@ == version@,
                n == cs.len(),
                i <= n,
                blocks(version@) == block_models(out@) + blocks(cs@.skip(i as int)),
                forall|k: int| 0 <= k < out.len() ==> (#[trigger] out@[k]).number <= u64::MAX,
            decreases n - i,
        {
            let ghost s = cs@.skip(i as int);
            let mut j = i;
            while j < n && !is_digit_char(cs[j])
                invariant
                    i <= j <= n,
                    n == cs.len(),
                    run_len(cs@.skip(i as int), false) == (j - i) + run_len(cs@.skip(j as int), false),
                    forall|t: int| i <= t < j ==> !is_digit(#[trigger] cs@[t]),
                decreases n - j,
            {
                assert(cs@.skip(j as int).drop_first() =~= cs@.skip(j + 1));
                j = j + 1;
            }
            let mut k = j;
            while k < n && is_digit_char(cs[k])
                invariant
                    j <= k <= n,
                    n == cs.len(),
                    run_len(cs@.skip(j as int), true) == (k - j) + run_len(cs@.skip(k as int), true),
                    forall|t: int| j <= t < k ==> is_digit(#[trigger] cs@[t]),
                decreases n - k,
            {
                assert(cs@.skip(k as int).drop_first() =~= cs@.skip(k + 1));
                k = k + 1;
            }
            assert(run_len(s, false) == j - i);
            assert(s.skip(j - i) =~= cs@.skip(j as int));
            assert(run_len(s.skip(j - i), true) == k - j);
            assert(s.take(j - i) =~= cs@.subrange(i as int, j as int));
            assert(s.skip(j - i).take(k - j) =~= cs@.subrange(j as int, k as int));
            assert(s.skip(j - i).skip(k - j) =~= cs@.skip(k as int));
            assert(all_digits(cs@.subrange(j as int, k as int)));
            let number = if j == k {
                proof {
                    assert(cs@.subrange(j as int, k as int) =~= Seq::<char>::empty());
                }
                0u64
            } else {
                match parse_u64_range(&cs, j, k) {
                    Some(v) => v,
                    None => {
                        proof {
                            let bi = block_models(out@).len() as int;
                            assert(blocks(version@)[bi] == blocks(s)[0]);
                        }
                        return Err(
                            RaptoboError::with_kind(
                                ErrorKind::InvalidVersion,
                                "version has a number that does not fit in 64 bits",
                            ),
                        );
                    },
                }
            };
            let prefix = substring(version, i, j);
            let ghost before = block_models(out@);
            out.push(VersionBlock { prefix, number });
            assert(block_models(out@) =~= before.push((cs@.subrange(i as int, j as int), number as nat)));
            assert(blocks(s) == seq![(cs@.subrange(i as int, j as int), number as nat)] + blocks(cs@.skip(k as int)));
            assert(block_models(out@) + blocks(cs@.skip(k as int)) =~= before + blocks(s));
            i = k;
        }
        assert(cs@.skip(n as int) =~= Seq::<char>::empty());
        assert(block_models(out@) + blocks(cs@.skip(n as int)) =~= block_models(out@));
        proof {
            assert forall|t: int| 0 <= t < blocks(version@).len() implies (#[trigger] blocks(version@)[t]).1 <= u64::MAX by {
                assert(blocks(version@)[t] == block_models(out@)[t]);
            }
        }
        Ok(out)
    }
}

/// The models of a sequence of blocks.
pub open spec fn block_models(v: Seq<VersionBlock>) -> Seq<BlockModel> {
    v.map_values(|b: VersionBlock| b.model())
}


/// The weight of a character in a prefix comparison: `~` below the end of a
/// string (weight 0), every other character above it by code point.
pub open spec fn char_weight(c: char) -> int {
    if c == '~' {
        -1
    } else {
        (c as u32) as int + 1
    }
}

/// The weight of the first position of `s`, 0 where `s` is empty.
pub open spec fn head_weight(s: Seq<char>) -> int {
    if s.len() > 0 {
        char_weight(s[0])
    } else {
        0
    }
}

/// The order of two integers.
pub open spec fn cmp_int(a: int, b: int) -> Ordering {
    if a < b {
        Ordering::Less
    } else if a > b {
        Ordering::Greater
    } else {
        Ordering::Equal
    }
}

/// The order of two block prefixes: character by character, `~` before the
/// end of a string and the end of a string before any other character.
pub open spec fn prefix_cmp(a: Seq<char>, b: Seq<char>) -> Ordering
    decreases a.len() + b.len(),
{
    if a.len() == 0 && b.len() == 0 {
        Ordering::Equal
    } else if head_weight(a) != head_weight(b) {
        cmp_int(head_weight(a), head_weight(b))
    } else if a.len() > 0 && b.len() > 0 {
        prefix_cmp(a.drop_first(), b.drop_first())
    } else {
        Ordering::Equal
    }
}

/// The order of two blocks: by prefix, then by number.
pub open spec fn block_cmp(x: BlockModel, y: BlockModel) -> Ordering {
    if prefix_cmp(x.0, y.0) != Ordering::Equal {
        prefix_cmp(x.0, y.0)
    } else {
        cmp_int(x.1 as int, y.1 as int)
    }
}

/// The block that pads a shorter sequence of blocks.
pub open spec fn zero_block() -> BlockModel {
    (Seq::empty(), 0nat)
}

/// Block `i` of `x`, or the padding block past its end.
pub open spec fn block_at(x: Seq<BlockModel>, i: int) -> BlockModel {
    if 0 <= i < x.len() {
        x[i]
    } else {
        zero_block()
    }
}

/// The order of two block sequences from position `i` on, the shorter padded
/// with `zero_block()`.
pub open spec fn blocks_cmp_from(x: Seq<BlockModel>, y: Seq<BlockModel>, i: int) -> Ordering
    decreases x.len() + y.len() - i,
{
    if i >= x.len() && i >= y.len() {
        Ordering::Equal
    } else if block_cmp(block_at(x, i), block_at(y, i)) != Ordering::Equal {
        block_cmp(block_at(x, i), block_at(y, i))
    } else {
        blocks_cmp_from(x, y, i + 1)
    }
}

/// The order of two version fragments (upstream versions or revisions).
pub open spec fn version_cmp(a: Seq<char>, b: Seq<char>) -> Ordering {
    blocks_cmp_from(blocks(a), blocks(b), 0)
}

/// `prefix_cmp` of two character vectors.
fn prefix_cmp_exec(a: &Vec<char>, b: &Vec<char>) -> (r: Ordering)
    ensures
        r == prefix_cmp(a@, b@),
{
    let mut i: usize = 0;
    assert(a@.skip(0) =~= a@);
    assert(b@.skip(0) =~= b@);
    loop
        invariant
            i <= a.len(),
            i <= b.len(),
            prefix_cmp(a@, b@) == prefix_cmp(a@.skip(i as int), b@.skip(i as int)),
        decreases a.len() - i,
    {
        let ghost sa = a@.skip(i as int);
        let ghost sb = b@.skip(i as int);
        if i == a.len() && i == b.len() {
            return Ordering::Equal;
        }
        let wa: i64 = if i < a.len() {
            if a[i] == '~' { -1 } else { a[i] as u32 as i64 + 1 }
        } else {
            0
        };
        let wb: i64 = if i < b.len() {
            if b[i] == '~' { -1 } else { b[i] as u32 as i64 + 1 }
        } else {
            0
        };
        assert(wa == head_weight(sa));
        assert(wb == head_weight(sb));
        if wa < wb {
            return Ordering::Less;
        } else if wa > wb {
            return Ordering::Greater;
        }
        assert(sa.drop_first() =~= a@.skip(i + 1));
        assert(sb.drop_first() =~= b@.skip(i + 1));
        i = i + 1;
    }
}

/// The order of two `u64` values.
fn cmp_u64(a: u64, b: u64) -> (r: Ordering)
    ensures
        r == cmp_int(a as int, b as int),
{
    if a < b {
        Ordering::Less
    } else if a > b {
        Ordering::Greater
    } else {
        Ordering::Equal
    }
}

/// `block_cmp` of two blocks.
fn block_cmp_exec(x: &VersionBlock, y: &VersionBlock) -> (r: Ordering)
    ensures
        r == block_cmp(x.model(), y.model()),
{
    let xp = chars_of(x.prefix.as_str());
    let yp = chars_of(y.prefix.as_str());
    let c = prefix_cmp_exec(&xp, &yp);
    match c {
        Ordering::Equal => cmp_u64(x.number, y.number),
        _ => c,
    }
}

impl PartialEq for VersionBlock {
    fn eq(&self, other: &VersionBlock) -> (r: bool) {
        self.prefix == other.prefix && self.number == other.number
    }
}

impl vstd::std_specs::cmp::PartialEqSpecImpl for VersionBlock {
    open spec fn obeys_eq_spec() -> bool {
        true
    }

    open spec fn eq_spec(&self, other: &VersionBlock) -> bool {
        self.model() == other.model()
    }
}

impl PartialOrd for VersionBlock {
    fn partial_cmp(&self, other: &VersionBlock) -> (r: Option<Ordering>) {
        Some(block_cmp_exec(self, other))
    }
}

impl vstd::std_specs::cmp::PartialOrdSpecImpl for VersionBlock {
    open spec fn obeys_partial_cmp_spec() -> bool {
        true
    }

    open spec fn partial_cmp_spec(&self, other: &VersionBlock) -> Option<Ordering> {
        Some(block_cmp(self.model(), other.model()))
    }
}


/// `blocks_cmp_from(.., 0)` of two block vectors.
fn blocks_cmp_exec(x: &Vec<VersionBlock>, y: &Vec<VersionBlock>) -> (r: Ordering)
    ensures
        r == blocks_cmp_from(block_models(x@), block_models(y@), 0),
{
    let ghost xm = block_models(x@);
    let ghost ym = block_models(y@);
    let pad = VersionBlock::new();
    let mut i: usize = 0;
    loop
        invariant
            xm == block_models(x@),
            ym == block_models(y@),
            pad.model() == zero_block(),
            blocks_cmp_from(xm, ym, 0) == blocks_cmp_from(xm, ym, i as int),
        decreases x.len() + y.len() - i,
    {
        if i >= x.len() && i >= y.len() {
            return Ordering::Equal;
        }
        let bx = if i < x.len() { &x[i] } else { &pad };
        let by = if i < y.len() { &y[i] } else { &pad };
        assert(bx.model() == block_at(xm, i as int));
        assert(by.model() == block_at(ym, i as int));
        let c = block_cmp_exec(bx, by);
        match c {
            Ordering::Equal => {},
            _ => {
                return c;
            },
        }
        i = i + 1;
    }
}

/// The order of two version fragments where both decompose, `None` otherwise.
pub open spec fn version_partial_cmp(a: Seq<char>, b: Seq<char>) -> Option<Ordering> {
    if fits(a) && fits(b) {
        Some(version_cmp(a, b))
    } else {
        None
    }
}

/// One fragment of a package version: the upstream version or the Debian revision.
#[derive(Debug, Clone)]
pub struct Version {
    pub version: String,
}

impl Version {
    /// A fragment holding `version`.
    pub fn new(version: &str) -> (r: Version)
        ensures
            r.version@ == version@,
    {
        Version { version: version.to_owned() }
    }
}

impl PartialEq for Version {
    fn eq(&self, other: &Version) -> (r: bool) {
        self.version == other.version
    }
}

impl vstd::std_specs::cmp::PartialEqSpecImpl for Version {
    open spec fn obeys_eq_spec() -> bool {
        true
    }

    open spec fn eq_spec(&self, other: &Version) -> bool {
        self.version@ == other.version@
    }
}

impl PartialOrd for Version {
    fn partial_cmp(&self, other: &Version) -> (r: Option<Ordering>) {
        let sl = VersionBlock::from(self.version.as_str());
        let ol = VersionBlock::from(other.version.as_str());
        match (sl, ol) {
            (Ok(sl), Ok(ol)) => Some(blocks_cmp_exec(&sl, &ol)),
            _ => None,
        }
    }
}

impl vstd::std_specs::cmp::PartialOrdSpecImpl for Version {
    open spec fn obeys_partial_cmp_spec() -> bool {
        true
    }

    open spec fn partial_cmp_spec(&self, other: &Version) -> Option<Ordering> {
        version_partial_cmp(self.version@, other.version@)
    }
}

/// The parts of a version string: the epoch before the first `:` (0 without
/// one), then the upstream version before the last `-` and the Debian revision
/// after it (empty without one). `None` where the epoch is not a `u64` or a
/// digit run of either fragment does not fit in one.
pub open spec fn parse_version(s: Seq<char>) -> Option<(u64, Seq<char>, Seq<char>)> {
    let epoch = match first_index(s, ':') {
        Some(k) => decimal_u64(s.take(k)),
        None => Some(0u64),
    };
    let tail = match first_index(s, ':') {
        Some(k) => s.skip(k + 1),
        None => s,
    };
    let upstream = match last_index(tail, '-') {
        Some(k) => tail.take(k),
        None => tail,
    };
    let revision = match last_index(tail, '-') {
        Some(k) => tail.skip(k + 1),
        None => Seq::empty(),
    };
    if epoch is Some && fits(upstream) && fits(revision) {
        Some((epoch->0, upstream, revision))
    } else {
        None
    }
}

/// A full package version: epoch, upstream version and Debian revision.
#[derive(Debug, Clone)]
pub struct PackageVersion {
    pub epoch: u64,
    pub upstream_version: Version,
    pub debian_revision: Version,
}

impl PackageVersion {
    /// The parts in specifications.
    pub open spec fn model(&self) -> (u64, Seq<char>, Seq<char>) {
        (self.epoch, self.upstream_version.version@, self.debian_revision.version@)
    }

    /// The version of field `key`: `MissingField` where it is absent, else as
    /// `new` on its value.
    pub fn parse(key: &str, stanza: &Stanza) -> (r: Result<PackageVersion, RaptoboError>)
        ensures
            match field_value(stanza@, key@) {
                None => r matches Err(e) && e.spec_kind() == ErrorKind::MissingField,
                Some(v) => match parse_version(v) {
                    Some(m) => r matches Ok(pv) && pv.model() == m,
                    None => r matches Err(e) && e.spec_kind() == ErrorKind::InvalidVersion,
                },
            },
    {
        let value = stanza_value(key, stanza)?;
        PackageVersion::new(value.as_str())
    }

    /// Parses a version string; an error of kind `InvalidVersion` exactly
    /// where `parse_version` gives `None`.
    pub fn new(version: &str) -> (r: Result<PackageVersion, RaptoboError>)
        ensures
            r.is_ok() <==> parse_version(version@) is Some,
            r matches Ok(v) ==> parse_version(version@) == Some(v.model()),
            r matches Err(e) ==> e.spec_kind() == ErrorKind::InvalidVersion,
    {
        let cs = chars_of(version);
        let (epoch, start) = match find_first(&cs, ':') {
            Some(k) => {
                match parse_u64_range(&cs, 0, k) {
                    Some(e) => (e, k + 1),
                    None => {
                        assert(cs@.subrange(0, k as int) =~= cs@.take(k as int));
                        return Err(
                            RaptoboError::with_kind(
                                ErrorKind::InvalidVersion,
                                "version has an epoch that is not a number",
                            ),
                        );
                    },
                }
            },
            None => (0u64, 0usize),
        };
        proof {
            if start > 0 {
                assert(cs@.subrange(0, start - 1) =~= cs@.take(start - 1));
            } else {
                assert(cs@.skip(0) =~= cs@);
            }
        }
        let ghost tail = cs@.skip(start as int);
        let (up_end, rev_start) = match find_last(&cs, start, '-') {
            Some(k) => (k, k + 1),
            None => (cs.len(), cs.len()),
        };
        let upstream = substring(version, start, up_end);
        let revision = substring(version, rev_start, cs.len());
        proof {
            assert(upstream@ =~= (match last_index(tail, '-') {
                Some(k) => tail.take(k),
                None => tail,
            }));
            assert(revision@ =~= (match last_index(tail, '-') {
                Some(k) => tail.skip(k + 1),
                None => Seq::<char>::empty(),
            }));
        }
        let up_ok = VersionBlock::from(upstream.as_str()).is_ok();
        let rev_ok = VersionBlock::from(revision.as_str()).is_ok();
        if !up_ok || !rev_ok {
            return Err(
                RaptoboError::with_kind(
                    ErrorKind::InvalidVersion,
                    "version has a number that does not fit in 64 bits",
                ),
            );
        }
        Ok(
            PackageVersion {
                epoch,
                upstream_version: Version { version: upstream },
                debian_revision: Version { version: revision },
            },
        )
    }
}

/// Whether a version with parts `v` is written as `s`: the epoch before the
/// first `:` (0 where absent or not a number), the upstream version before the
/// last `-`, and the revision after it, which is compared only where `s` has one.
pub open spec fn written_as(v: (u64, Seq<char>, Seq<char>), s: Seq<char>) -> bool {
    let epoch = match first_index(s, ':') {
        Some(k) => match decimal_u64(s.take(k)) {
            Some(e) => e,
            None => 0u64,
        },
        None => 0u64,
    };
    let tail = match first_index(s, ':') {
        Some(k) => s.skip(k + 1),
        None => s,
    };
    match last_index(tail, '-') {
        Some(k) => v.0 == epoch && v.1 == tail.take(k) && v.2 == tail.skip(k + 1),
        None => v.0 == epoch && v.1 == tail,
    }
}

impl PartialEq<str> for PackageVersion {
    fn eq(&self, version: &str) -> (r: bool) {
        let cs = chars_of(version);
        let (epoch, start) = match find_first(&cs, ':') {
            Some(k) => {
                assert(cs@.subrange(0, k as int) =~= cs@.take(k as int));
                match parse_u64_range(&cs, 0, k) {
                    Some(e) => (e, k + 1),
                    None => (0u64, k + 1),
                }
            },
            None => (0u64, 0usize),
        };
        proof {
            if start == 0 {
                assert(cs@.skip(0) =~= cs@);
            }
        }
        let ghost tail = cs@.skip(start as int);
        let same = match find_last(&cs, start, '-') {
            Some(k) => {
                let up = substring(version, start, k);
                let rev = substring(version, k + 1, cs.len());
                assert(up@ =~= tail.take(k - start));
                assert(rev@ =~= tail.skip(k - start + 1));
                epoch == self.epoch && up == self.upstream_version.version && rev
                    == self.debian_revision.version
            },
            None => {
                let up = substring(version, start, cs.len());
                assert(up@ =~= tail);
                epoch == self.epoch && up == self.upstream_version.version
            },
        };
        same
    }
}

impl vstd::std_specs::cmp::PartialEqSpecImpl<str> for PackageVersion {
    open spec fn obeys_eq_spec() -> bool {
        true
    }

    open spec fn eq_spec(&self, other: &str) -> bool {
        written_as(self.model(), other@)
    }
}

/// The order of two package versions: epoch, then upstream version, then
/// revision. `None` where a fragment does not decompose.
pub open spec fn package_version_cmp(
    a: (u64, Seq<char>, Seq<char>),
    b: (u64, Seq<char>, Seq<char>),
) -> Option<Ordering> {
    if !(fits(a.1) && fits(a.2) && fits(b.1) && fits(b.2)) {
        None
    } else if a.0 != b.0 {
        Some(cmp_int(a.0 as int, b.0 as int))
    } else if version_cmp(a.1, b.1) != Ordering::Equal {
        Some(version_cmp(a.1, b.1))
    } else {
        Some(version_cmp(a.2, b.2))
    }
}

impl PartialEq for PackageVersion {
    fn eq(&self, other: &PackageVersion) -> (r: bool) {
        self.epoch == other.epoch && self.upstream_version == other.upstream_version
            && self.debian_revision == other.debian_revision
    }
}

impl vstd::std_specs::cmp::PartialEqSpecImpl for PackageVersion {
    open spec fn obeys_eq_spec() -> bool {
        true
    }

    open spec fn eq_spec(&self, other: &PackageVersion) -> bool {
        self.model() == other.model()
    }
}

impl PartialOrd for PackageVersion {
    fn partial_cmp(&self, other: &PackageVersion) -> (r: Option<Ordering>) {
        let up = self.upstream_version.partial_cmp(&other.upstream_version);
        let rev = self.debian_revision.partial_cmp(&other.debian_revision);
        match (up, rev) {
            (Some(u), Some(v)) => {
                if self.epoch != other.epoch {
                    Some(cmp_u64(self.epoch, other.epoch))
                } else {
                    match u {
                        Ordering::Equal => Some(v),
                        _ => Some(u),
                    }
                }
            },
            _ => None,
        }
    }
}

impl vstd::std_specs::cmp::PartialOrdSpecImpl for PackageVersion {
    open spec fn obeys_partial_cmp_spec() -> bool {
        true
    }

    open spec fn partial_cmp_spec(&self, other: &PackageVersion) -> Option<Ordering> {
        package_version_cmp(self.model(), other.model())
    }
}


/// The reverse of an ordering.
pub open spec fn flip(o: Ordering) -> Ordering {
    match o {
        Ordering::Less => Ordering::Greater,
        Ordering::Equal => Ordering::Equal,
        Ordering::Greater => Ordering::Less,
    }
}

proof fn lemma_char_weight_injective(c: char, d: char)
    ensures
        char_weight(c) == char_weight(d) ==> c == d,
        char_weight(c) != 0,
{
}

proof fn lemma_prefix_refl(a: Seq<char>)
    ensures
        prefix_cmp(a, a) == Ordering::Equal,
    decreases a.len(),
{
    if a.len() > 0 {
        lemma_prefix_refl(a.drop_first());
    }
}

proof fn lemma_prefix_dual(a: Seq<char>, b: Seq<char>)
    ensures
        prefix_cmp(b, a) == flip(prefix_cmp(a, b)),
    decreases a.len() + b.len(),
{
    if a.len() > 0 && b.len() > 0 && head_weight(a) == head_weight(b) {
        lemma_prefix_dual(a.drop_first(), b.drop_first());
    }
}

proof fn lemma_prefix_equal(a: Seq<char>, b: Seq<char>)
    requires
        prefix_cmp(a, b) == Ordering::Equal,
    ensures
        a == b,
    decreases a.len() + b.len(),
{
    if a.len() > 0 && b.len() > 0 {
        lemma_char_weight_injective(a[0], b[0]);
        lemma_prefix_equal(a.drop_first(), b.drop_first());
        assert(a =~= seq![a[0]] + a.drop_first());
        assert(b =~= seq![b[0]] + b.drop_first());
    } else if a.len() > 0 {
        lemma_char_weight_injective(a[0], a[0]);
    } else if b.len() > 0 {
        lemma_char_weight_injective(b[0], b[0]);
    } else {
        assert(a =~= b);
    }
}

proof fn lemma_prefix_trans(a: Seq<char>, b: Seq<char>, c: Seq<char>)
    requires
        prefix_cmp(a, b) == Ordering::Less,
        prefix_cmp(b, c) == Ordering::Less,
    ensures
        prefix_cmp(a, c) == Ordering::Less,
    decreases a.len() + b.len() + c.len(),
{
    if a.len() > 0 {
        lemma_char_weight_injective(a[0], a[0]);
    }
    if b.len() > 0 {
        lemma_char_weight_injective(b[0], b[0]);
    }
    if c.len() > 0 {
        lemma_char_weight_injective(c[0], c[0]);
    }
    if head_weight(a) == head_weight(b) && head_weight(b) == head_weight(c) {
        lemma_prefix_trans(a.drop_first(), b.drop_first(), c.drop_first());
    }
}

proof fn lemma_block_refl(x: BlockModel)
    ensures
        block_cmp(x, x) == Ordering::Equal,
{
    lemma_prefix_refl(x.0);
}

proof fn lemma_block_dual(x: BlockModel, y: BlockModel)
    ensures
        block_cmp(y, x) == flip(block_cmp(x, y)),
{
    lemma_prefix_dual(x.0, y.0);
}

proof fn lemma_block_trans(x: BlockModel, y: BlockModel, z: BlockModel)
    requires
        block_cmp(x, y) != Ordering::Greater,
        block_cmp(y, z) != Ordering::Greater,
    ensures
        block_cmp(x, z) != Ordering::Greater,
        block_cmp(x, z) == Ordering::Equal ==> block_cmp(x, y) == Ordering::Equal && block_cmp(
            y,
            z,
        ) == Ordering::Equal,
{
    lemma_prefix_dual(x.0, y.0);
    lemma_prefix_dual(y.0, z.0);
    lemma_prefix_dual(x.0, z.0);
    if prefix_cmp(x.0, y.0) == Ordering::Equal {
        lemma_prefix_equal(x.0, y.0);
    }
    if prefix_cmp(y.0, z.0) == Ordering::Equal {
        lemma_prefix_equal(y.0, z.0);
    }
    if prefix_cmp(x.0, z.0) == Ordering::Equal {
        lemma_prefix_equal(x.0, z.0);
    }
    if prefix_cmp(x.0, y.0) == Ordering::Less && prefix_cmp(y.0, z.0) == Ordering::Less {
        lemma_prefix_trans(x.0, y.0, z.0);
    }
    lemma_prefix_refl(x.0);
}

/// One step of `blocks_cmp_from`, also past the end of both sequences.
proof fn lemma_blocks_step(x: Seq<BlockModel>, y: Seq<BlockModel>, i: int)
    requires
        i >= 0,
    ensures
        blocks_cmp_from(x, y, i) == (if block_cmp(block_at(x, i), block_at(y, i))
            != Ordering::Equal {
            block_cmp(block_at(x, i), block_at(y, i))
        } else {
            blocks_cmp_from(x, y, i + 1)
        }),
{
    if i >= x.len() && i >= y.len() {
        lemma_block_refl(zero_block());
    }
}

proof fn lemma_blocks_refl(x: Seq<BlockModel>, i: int)
    requires
        i >= 0,
    ensures
        blocks_cmp_from(x, x, i) == Ordering::Equal,
    decreases x.len() + x.len() - i,
{
    lemma_block_refl(block_at(x, i));
    if i < x.len() {
        lemma_blocks_refl(x, i + 1);
    }
}

proof fn lemma_blocks_dual(x: Seq<BlockModel>, y: Seq<BlockModel>, i: int)
    requires
        i >= 0,
    ensures
        blocks_cmp_from(y, x, i) == flip(blocks_cmp_from(x, y, i)),
    decreases x.len() + y.len() - i,
{
    lemma_block_dual(block_at(x, i), block_at(y, i));
    if i < x.len() || i < y.len() {
        lemma_blocks_dual(x, y, i + 1);
    }
}

proof fn lemma_blocks_trans(x: Seq<BlockModel>, y: Seq<BlockModel>, z: Seq<BlockModel>, i: int)
    requires
        i >= 0,
        blocks_cmp_from(x, y, i) != Ordering::Greater,
        blocks_cmp_from(y, z, i) != Ordering::Greater,
    ensures
        blocks_cmp_from(x, z, i) != Ordering::Greater,
        blocks_cmp_from(x, z, i) == Ordering::Equal ==> blocks_cmp_from(x, y, i)
            == Ordering::Equal && blocks_cmp_from(y, z, i) == Ordering::Equal,
    decreases x.len() + y.len() + z.len() - i,
{
    lemma_blocks_step(x, y, i);
    lemma_blocks_step(y, z, i);
    lemma_blocks_step(x, z, i);
    if i >= x.len() && i >= y.len() && i >= z.len() {
        return;
    }
    let bx = block_at(x, i);
    let by = block_at(y, i);
    let bz = block_at(z, i);
    lemma_block_trans(bx, by, bz);
    if block_cmp(bx, by) == Ordering::Equal && block_cmp(by, bz) == Ordering::Equal {
        lemma_blocks_trans(x, y, z, i + 1);
    }
}

/// Version order is reflexive: every version string is equivalent to itself.
pub proof fn lemma_version_order_reflexive(a: Seq<char>)
    requires
        parse_version(a) is Some,
    ensures
        package_version_cmp(parse_version(a)->0, parse_version(a)->0) == Some(Ordering::Equal),
{
    let v = parse_version(a)->0;
    lemma_blocks_refl(blocks(v.1), 0);
    lemma_blocks_refl(blocks(v.2), 0);
}

/// Version order is antisymmetric: any two version strings compare, swapping
/// them reverses the result, so `a <= b` and `b <= a` make them equivalent.
pub proof fn lemma_version_order_antisymmetric(a: Seq<char>, b: Seq<char>)
    requires
        parse_version(a) is Some,
        parse_version(b) is Some,
    ensures
        package_version_cmp(parse_version(a)->0, parse_version(b)->0) is Some,
        package_version_cmp(parse_version(b)->0, parse_version(a)->0) == Some(
            flip(package_version_cmp(parse_version(a)->0, parse_version(b)->0)->0),
        ),
        package_version_cmp(parse_version(a)->0, parse_version(b)->0) != Some(Ordering::Greater)
            && package_version_cmp(parse_version(b)->0, parse_version(a)->0) != Some(
            Ordering::Greater,
        ) ==> package_version_cmp(parse_version(a)->0, parse_version(b)->0) == Some(
            Ordering::Equal,
        ),
{
    let va = parse_version(a)->0;
    let vb = parse_version(b)->0;
    lemma_blocks_dual(blocks(va.1), blocks(vb.1), 0);
    lemma_blocks_dual(blocks(va.2), blocks(vb.2), 0);
}

/// Version order is transitive, for `<=` and for equivalence.
pub proof fn lemma_version_order_transitive(a: Seq<char>, b: Seq<char>, c: Seq<char>)
    requires
        parse_version(a) is Some,
        parse_version(b) is Some,
        parse_version(c) is Some,
        package_version_cmp(parse_version(a)->0, parse_version(b)->0) != Some(Ordering::Greater),
        package_version_cmp(parse_version(b)->0, parse_version(c)->0) != Some(Ordering::Greater),
    ensures
        package_version_cmp(parse_version(a)->0, parse_version(c)->0) != Some(Ordering::Greater),
        package_version_cmp(parse_version(a)->0, parse_version(c)->0) == Some(Ordering::Equal)
            ==> package_version_cmp(parse_version(a)->0, parse_version(b)->0) == Some(
            Ordering::Equal,
        ) && package_version_cmp(parse_version(b)->0, parse_version(c)->0) == Some(
            Ordering::Equal,
        ),
{
    let va = parse_version(a)->0;
    let vb = parse_version(b)->0;
    let vc = parse_version(c)->0;
    let (ua, ub, uc) = (blocks(va.1), blocks(vb.1), blocks(vc.1));
    let (ra, rb, rc) = (blocks(va.2), blocks(vb.2), blocks(vc.2));
    lemma_blocks_dual(ua, ub, 0);
    lemma_blocks_dual(ub, uc, 0);
    lemma_blocks_dual(ua, uc, 0);
    if va.0 == vb.0 && vb.0 == vc.0 {
        lemma_blocks_trans(ua, ub, uc, 0);
        if blocks_cmp_from(ua, ub, 0) == Ordering::Equal && blocks_cmp_from(ub, uc, 0)
            == Ordering::Equal {
            lemma_blocks_trans(ra, rb, rc, 0);
        }
    }
}

/// A larger epoch makes a larger version, whatever the other parts hold.
pub proof fn lemma_epoch_dominates(a: Seq<char>, b: Seq<char>)
    requires
        parse_version(a) is Some,
        parse_version(b) is Some,
        (parse_version(a)->0).0 < (parse_version(b)->0).0,
    ensures
        package_version_cmp(parse_version(a)->0, parse_version(b)->0) == Some(Ordering::Less),
{
}


proof fn lemma_prefix_tilde_less(p: Seq<char>)
    ensures
        prefix_cmp(seq!['~'] + p, p) == Ordering::Less,
    decreases p.len(),
{
    let t = seq!['~'] + p;
    assert(t[0] == '~');
    if p.len() > 0 {
        lemma_char_weight_injective(p[0], '~');
        if p[0] == '~' {
            assert(t.drop_first() =~= p);
            assert(p =~= seq!['~'] + p.drop_first());
            lemma_prefix_tilde_less(p.drop_first());
        }
    }
}

proof fn lemma_blocks_tilde(v: Seq<char>)
    ensures
        v.len() == 0 ==> blocks(seq!['~'] + v) == seq![(seq!['~'], 0nat)],
        v.len() > 0 ==> blocks(v).len() > 0 && blocks(seq!['~'] + v) == blocks(v).update(
            0,
            (seq!['~'] + blocks(v)[0].0, blocks(v)[0].1),
        ),
{
    let t = seq!['~'] + v;
    assert(t[0] == '~');
    assert(t.drop_first() =~= v);
    let p = run_len(v, false);
    assert(run_len(t, false) == 1 + p);
    lemma_run_len_bound(v, false);
    assert(t.skip(1 + p as int) =~= v.skip(p as int));
    assert(t.take(1 + p as int) =~= seq!['~'] + v.take(p as int));
    if v.len() == 0 {
        assert(v.skip(0) =~= Seq::<char>::empty());
        assert(t.skip(1) =~= Seq::<char>::empty());
        let e = Seq::<char>::empty();
        assert(e.take(0) =~= e);
        assert(e.skip(0) =~= e);
        assert(t.take(1) =~= seq!['~']);
        assert(run_len(e, true) == 0);
        assert(digits_value(e) == 0);
        assert(blocks(e) =~= Seq::<BlockModel>::empty());
        assert(blocks(t) =~= seq![(seq!['~'], 0nat)]);
    } else {
        assert(blocks(t) =~= blocks(v).update(0, (seq!['~'] + blocks(v)[0].0, blocks(v)[0].1)));
    }
}

/// A tilde in front makes a version fragment smaller: `"~" + v < v`.
pub proof fn lemma_tilde_sorts_first(v: Seq<char>)
    requires
        fits(v),
    ensures
        fits(seq!['~'] + v),
        version_partial_cmp(seq!['~'] + v, v) == Some(Ordering::Less),
{
    let t = seq!['~'] + v;
    lemma_blocks_tilde(v);
    lemma_blocks_step(blocks(t), blocks(v), 0);
    if v.len() == 0 {
        lemma_prefix_tilde_less(Seq::empty());
        assert(seq!['~'] + Seq::<char>::empty() =~= seq!['~']);
    } else {
        lemma_prefix_tilde_less(blocks(v)[0].0);
        assert forall|i: int| 0 <= i < blocks(t).len() implies (#[trigger] blocks(t)[i]).1
            <= u64::MAX by {
            assert(blocks(t)[i].1 == blocks(v)[i].1);
        }
    }
}


proof fn lemma_run_len_concat(s: Seq<char>, t: Seq<char>, d: bool)
    ensures
        run_len(s, d) < s.len() ==> run_len(s + t, d) == run_len(s, d),
        run_len(s, d) >= s.len() ==> run_len(s + t, d) == s.len() + run_len(t, d),
    decreases s.len(),
{
    lemma_run_len_bound(s, d);
    if s.len() == 0 {
        assert(s + t =~= t);
    } else {
        assert((s + t)[0] == s[0]);
        if is_digit(s[0]) == d {
            assert((s + t).drop_first() =~= s.drop_first() + t);
            lemma_run_len_concat(s.drop_first(), t, d);
        }
    }
}

proof fn lemma_run_len_stops(s: Seq<char>, d: bool)
    ensures
        forall|j: int| 0 <= j < run_len(s, d) ==> is_digit(#[trigger] s[j]) == d,
        run_len(s, d) < s.len() ==> is_digit(s[run_len(s, d) as int]) != d,
    decreases s.len(),
{
    lemma_run_len_bound(s, d);
    if s.len() > 0 && is_digit(s[0]) == d {
        lemma_run_len_stops(s.drop_first(), d);
        assert forall|j: int| 0 <= j < run_len(s, d) implies is_digit(#[trigger] s[j]) == d by {
            if j > 0 {
                assert(s[j] == s.drop_first()[j - 1]);
            }
        }
        if run_len(s, d) < s.len() {
            assert(s[run_len(s, d) as int] == s.drop_first()[run_len(s.drop_first(), d) as int]);
        }
    }
}

proof fn lemma_digits_value_append(a: Seq<char>, b: Seq<char>)
    ensures
        digits_value(a + b) >= digits_value(a),
        b.len() > 0 ==> digits_value(a + b) >= 10 * digits_value(a),
        digits_value(a) == 0 ==> digits_value(a + b) == digits_value(b),
    decreases b.len(),
{
    if b.len() == 0 {
        assert(a + b =~= a);
    } else {
        let b0 = b.drop_last();
        lemma_digits_value_append(a, b0);
        assert((a + b).drop_last() =~= a + b0);
        assert((a + b).last() == b.last());
    }
}

/// Equal first blocks leave the order to the rest.
proof fn lemma_blocks_shift(b: BlockModel, x: Seq<BlockModel>, y: Seq<BlockModel>, i: int)
    requires
        i >= 0,
    ensures
        blocks_cmp_from(seq![b] + x, seq![b] + y, i + 1) == blocks_cmp_from(x, y, i),
    decreases x.len() + y.len() - i,
{
    let bx = seq![b] + x;
    let by = seq![b] + y;
    lemma_blocks_step(bx, by, i + 1);
    lemma_blocks_step(x, y, i);
    assert(block_at(bx, i + 1) == block_at(x, i));
    assert(block_at(by, i + 1) == block_at(y, i));
    if i < x.len() || i < y.len() {
        lemma_blocks_shift(b, x, y, i + 1);
    }
}

/// The first block of text that starts with a non-digit has a prefix that
/// starts with that character.
proof fn lemma_first_block(s: Seq<char>)
    requires
        s.len() > 0,
        !is_digit(s[0]),
    ensures
        blocks(s).len() > 0,
        blocks(s)[0].0.len() > 0,
        blocks(s)[0].0[0] == s[0],
{
    lemma_run_len_bound(s, false);
    assert(blocks(s)[0].0 == s.take(run_len(s, false) as int));
}

/// The padding block sorts before a block whose prefix starts with anything
/// but a tilde.
proof fn lemma_zero_before(x: BlockModel)
    requires
        x.0.len() > 0,
        x.0[0] != '~',
    ensures
        block_cmp(zero_block(), x) == Ordering::Less,
{
}

proof fn lemma_prefix_extend_less(p: Seq<char>, x: Seq<char>)
    requires
        x.len() > 0,
        x[0] != '~',
    ensures
        prefix_cmp(p, p + x) == Ordering::Less,
    decreases p.len(),
{
    if p.len() == 0 {
        assert(p + x =~= x);
    } else {
        assert((p + x)[0] == p[0]);
        assert((p + x).drop_first() =~= p.drop_first() + x);
        lemma_prefix_extend_less(p.drop_first(), x);
    }
}

/// Whether `w` only adds zeros to a final number of `v` that is zero, then
/// ends or goes on with a tilde.
pub open spec fn zero_extension(v: Seq<char>, w: Seq<char>) -> bool {
    let k = run_len(w, true);
    &&& blocks(v).len() > 0
    &&& blocks(v).last().1 == 0
    &&& k > 0
    &&& digits_value(w.take(k as int)) == 0
    &&& (w.skip(k as int).len() == 0 || w.skip(k as int)[0] == '~')
}


proof fn lemma_append_less(v: Seq<char>, w: Seq<char>)
    requires
        v.len() > 0,
        w.len() > 0,
        w[0] != '~',
        !zero_extension(v, w),
    ensures
        version_cmp(v, v + w) == Ordering::Less,
    decreases v.len(),
{
    let s = v + w;
    let p = run_len(v, false);
    let rest = v.skip(p as int);
    let q = run_len(rest, true);
    let rest2 = rest.skip(q as int);
    lemma_run_len_bound(v, false);
    lemma_run_len_bound(rest, true);
    lemma_run_len_bound(w, true);
    lemma_run_len_bound(w, false);
    let b0 = (v.take(p as int), digits_value(rest.take(q as int)));
    assert(blocks(v) == seq![b0] + blocks(rest2));
    assert(s[0] == v[0]);
    if rest2.len() > 0 {
        lemma_run_len_concat(v, w, false);
        assert(s.skip(p as int) =~= rest + w);
        assert(s.take(p as int) =~= v.take(p as int));
        lemma_run_len_concat(rest, w, true);
        assert((rest + w).take(q as int) =~= rest.take(q as int));
        assert((rest + w).skip(q as int) =~= rest2 + w);
        assert(blocks(s) == seq![b0] + blocks(rest2 + w));
        assert(blocks(rest2).len() > 0);
        assert(blocks(v).last() == blocks(rest2).last());
        lemma_append_less(rest2, w);
        lemma_blocks_shift(b0, blocks(rest2), blocks(rest2 + w), 0);
        lemma_blocks_step(blocks(v), blocks(s), 0);
        lemma_block_refl(b0);
    } else if q > 0 {
        lemma_run_len_concat(v, w, false);
        assert(s.skip(p as int) =~= rest + w);
        assert(s.take(p as int) =~= v.take(p as int));
        lemma_run_len_concat(rest, w, true);
        let k = run_len(w, true);
        assert((rest + w).take((q + k) as int) =~= rest + w.take(k as int));
        assert((rest + w).skip((q + k) as int) =~= w.skip(k as int));
        assert(rest.take(q as int) =~= rest);
        let n1 = digits_value(rest);
        let n2 = digits_value(rest + w.take(k as int));
        let b1 = (v.take(p as int), n2);
        let tail = w.skip(k as int);
        assert(blocks(s) == seq![b1] + blocks(tail));
        assert(blocks(v) =~= seq![b0]);
        lemma_digits_value_append(rest, w.take(k as int));
        lemma_prefix_refl(v.take(p as int));
        lemma_blocks_step(blocks(v), blocks(s), 0);
        if n2 == n1 {
            lemma_run_len_stops(w, true);
            if k > 0 {
                assert(w.take(k as int).len() > 0);
            }
            assert(tail.len() > 0 && tail[0] != '~') by {
                if k == 0 {
                    assert(tail =~= w);
                }
            }
            assert(tail[0] == w[k as int]);
            lemma_first_block(tail);
            lemma_zero_before(blocks(tail)[0]);
            lemma_blocks_step(blocks(v), blocks(s), 1);
        }
    } else {
        assert(rest.len() == 0);
        lemma_run_len_concat(v, w, false);
        let m = run_len(w, false);
        assert(s.take((p + m) as int) =~= v + w.take(m as int));
        assert(s.skip((p + m) as int) =~= w.skip(m as int));
        let ws = w.skip(m as int);
        let k = run_len(ws, true);
        lemma_run_len_bound(ws, true);
        let b1 = (v + w.take(m as int), digits_value(ws.take(k as int)));
        let tail = ws.skip(k as int);
        assert(blocks(s) == seq![b1] + blocks(tail));
        assert(rest.take(0) =~= Seq::<char>::empty());
        assert(v.take(p as int) =~= v);
        assert(blocks(rest2) =~= Seq::<BlockModel>::empty());
        assert(blocks(v) =~= seq![(v, 0nat)]);
        lemma_blocks_step(blocks(v), blocks(s), 0);
        if m > 0 {
            assert(w.take(m as int)[0] == w[0]);
            lemma_prefix_extend_less(v, w.take(m as int));
        } else {
            assert(ws =~= w);
            lemma_prefix_refl(v);
            lemma_run_len_stops(w, false);
            assert(k >= 1);
            if digits_value(w.take(k as int)) == 0 {
                lemma_run_len_stops(w, true);
                assert(tail.len() > 0 && tail[0] != '~');
                assert(tail[0] == w[k as int]);
                lemma_first_block(tail);
                lemma_zero_before(blocks(tail)[0]);
                lemma_blocks_step(blocks(v), blocks(s), 1);
            }
        }
    }
}

/// Appending a tail that does not start with a tilde makes a non-empty
/// version fragment larger, `v < v + w`, unless the tail only adds zeros to a
/// final number of zero and then ends or goes on with a tilde (`"1.0"` and
/// `"1.00"` are equal, `"1.00~"` is smaller).
pub proof fn lemma_tail_sorts_last(v: Seq<char>, w: Seq<char>)
    requires
        v.len() > 0,
        w.len() > 0,
        w[0] != '~',
        fits(v),
        fits(v + w),
        !zero_extension(v, w),
    ensures
        version_partial_cmp(v, v + w) == Some(Ordering::Less),
{
    lemma_append_less(v, w);
}

} // verus!
