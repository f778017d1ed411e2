//! Package records and their compound fields: relations with alternatives,
//! version-control references, update urgency and package lists.
use vstd::prelude::*;
use std::cmp::Ordering;
use crate::error::{ErrorKind, RaptoboError};
use crate::text::{
    chars_of, find_first, first_index, join_with, lemma_split_by_nonempty, lemma_split_join,
    split_by, split_str, substring, trim, trim_str, views, Separator,
};
use crate::utils::{
    field_date, field_lines, lex, parse_metadata, stanza_views, field_text, field_value, nonempty_files,
    nonempty_list, opt_file_models, opt_view, opt_views, stanza_date, stanza_lines,
    stanza_opt_files, stanza_opt_list, stanza_opt_text, stanza_opt_value, stanza_value, DateStamp,
    FieldModel, File, Stanza,
};
use crate::version::{package_version_cmp, parse_version};
pub use crate::version::{PackageVersion, Version, VersionBlock};

verus! {

/// The operator of a versioned relation; `ANY` where no version is given.
#[derive(Debug, Clone, Copy, PartialEq, Eq, Structural)]
pub enum PackageVersionRelation {
    LT,
    LTE,
    EQ,
    GTE,
    GT,
    ANY,
}

/// The operator that `s` spells: `<<`, `<=`, `=`, `>=` or `>>`.
pub open spec fn relation_of(s: Seq<char>) -> Option<PackageVersionRelation> {
    if s == seq!['<', '<'] {
        Some(PackageVersionRelation::LT)
    } else if s == seq!['<', '='] {
        Some(PackageVersionRelation::LTE)
    } else if s == seq!['='] {
        Some(PackageVersionRelation::EQ)
    } else if s == seq!['>', '='] {
        Some(PackageVersionRelation::GTE)
    } else if s == seq!['>', '>'] {
        Some(PackageVersionRelation::GT)
    } else {
        None
    }
}

/// Whether a candidate that compares as `o` with the relation's version
/// satisfies the operator.
pub open spec fn relation_holds(rel: PackageVersionRelation, o: Ordering) -> bool {
    match rel {
        PackageVersionRelation::LT => o == Ordering::Less,
        PackageVersionRelation::LTE => o != Ordering::Greater,
        PackageVersionRelation::EQ => o == Ordering::Equal,
        PackageVersionRelation::GTE => o != Ordering::Less,
        PackageVersionRelation::GT => o == Ordering::Greater,
        PackageVersionRelation::ANY => true,
    }
}

/// The two-character operator `ab`, if it is one.
fn two_char_relation(a: char, b: char) -> (r: Option<PackageVersionRelation>)
    ensures
        r == relation_of(seq![a, b]),
{
    let ghost s = seq![a, b];
    assert(s.len() != seq!['='].len());
    if a == '<' && b == '<' {
        assert(s =~= seq!['<', '<']);
        Some(PackageVersionRelation::LT)
    } else if a == '<' && b == '=' {
        assert(s =~= seq!['<', '=']);
        Some(PackageVersionRelation::LTE)
    } else if a == '>' && b == '=' {
        assert(s =~= seq!['>', '=']);
        Some(PackageVersionRelation::GTE)
    } else if a == '>' && b == '>' {
        assert(s =~= seq!['>', '>']);
        Some(PackageVersionRelation::GT)
    } else {
        assert(s[0] == a && s[1] == b);
        assert(seq!['<', '<'][0] == '<' && seq!['<', '<'][1] == '<');
        assert(seq!['<', '='][0] == '<' && seq!['<', '='][1] == '=');
        assert(seq!['>', '='][0] == '>' && seq!['>', '='][1] == '=');
        assert(seq!['>', '>'][0] == '>' && seq!['>', '>'][1] == '>');
        None
    }
}

impl PackageVersionRelation {
    /// The operator spelt by `rel`; `InvalidRelation` for anything else.
    pub fn new(rel: &str) -> (r: Result<PackageVersionRelation, RaptoboError>)
        ensures
            match relation_of(rel@) {
                Some(o) => r == Ok::<PackageVersionRelation, RaptoboError>(o),
                None => r matches Err(e) && e.spec_kind() == ErrorKind::InvalidRelation,
            },
    {
        let cs = chars_of(rel);
        let res = if cs.len() == 2 {
            two_char_relation(cs[0], cs[1])
        } else if cs.len() == 1 && cs[0] == '=' {
            Some(PackageVersionRelation::EQ)
        } else {
            None
        };
        proof {
            if cs.len() == 2 {
                assert(cs@ =~= seq![cs@[0], cs@[1]]);
            } else if cs.len() == 1 && cs@[0] == '=' {
                assert(cs@ =~= seq!['=']);
            } else {
                assert(cs@.len() != 2 && !(cs@ =~= seq!['=']));
                assert(cs@ != seq!['='] ==> relation_of(cs@) is None);
            }
        }
        match res {
            Some(o) => Ok(o),
            None => Err(
                RaptoboError::with_kind(ErrorKind::InvalidRelation, "unknown version relation"),
            ),
        }
    }

    /// Whether a candidate that compares as `o` with the relation's version
    /// satisfies this operator.
    pub fn is(&self, o: Ordering) -> (r: bool)
        ensures
            r == relation_holds(*self, o),
    {
        match (self, o) {
            (PackageVersionRelation::ANY, _) => true,
            (PackageVersionRelation::LT, Ordering::Less) => true,
            (PackageVersionRelation::LTE, Ordering::Less) => true,
            (PackageVersionRelation::LTE, Ordering::Equal) => true,
            (PackageVersionRelation::EQ, Ordering::Equal) => true,
            (PackageVersionRelation::GTE, Ordering::Equal) => true,
            (PackageVersionRelation::GTE, Ordering::Greater) => true,
            (PackageVersionRelation::GT, Ordering::Greater) => true,
            _ => false,
        }
    }
}


/// A relation atom in specifications: package name, operator and version.
pub type AtomModel = (Seq<char>, PackageVersionRelation, Option<(u64, Seq<char>, Seq<char>)>);

/// The operator at the start of `s` and its length: a two-character operator
/// where there is one, else a lone `=`.
pub open spec fn op_prefix(s: Seq<char>) -> Option<(PackageVersionRelation, int)> {
    if s.len() >= 2 && relation_of(s.take(2)) is Some {
        Some((relation_of(s.take(2))->0, 2))
    } else if s.len() >= 1 && s[0] == '=' {
        Some((PackageVersionRelation::EQ, 1))
    } else {
        None
    }
}

/// One atom, `name` or `name (op version)`, whitespace around its parts
/// ignored. `None` where the name is empty, the parenthesis is not closed
/// at the end, the operator is unknown, or the version is empty or invalid.
pub open spec fn parse_atom(s: Seq<char>) -> Option<AtomModel> {
    let t = trim(s);
    match first_index(t, '(') {
        None => if t.len() > 0 {
            Some((t, PackageVersionRelation::ANY, None))
        } else {
            None
        },
        Some(k) => {
            let name = trim(t.take(k));
            let rest = t.skip(k + 1);
            if name.len() == 0 || rest.len() == 0 || rest.last() != ')' {
                None
            } else {
                let inner = trim(rest.drop_last());
                match op_prefix(inner) {
                    None => None,
                    Some((op, n)) => {
                        let ver = trim(inner.skip(n));
                        if ver.len() == 0 {
                            None
                        } else {
                            match parse_version(ver) {
                                Some(v) => Some((name, op, Some(v))),
                                None => None,
                            }
                        }
                    },
                }
            }
        },
    }
}

/// The atoms of the pieces, `None` where one does not parse.
pub open spec fn atoms_of(ps: Seq<Seq<char>>) -> Option<Seq<AtomModel>>
    decreases ps.len(),
{
    if ps.len() == 0 {
        Some(Seq::empty())
    } else {
        match (atoms_of(ps.drop_last()), parse_atom(ps.last())) {
            (Some(a), Some(x)) => Some(a.push(x)),
            _ => None,
        }
    }
}

/// A relation with its alternatives: the atoms between `|`, in order.
pub open spec fn parse_relation(s: Seq<char>) -> Option<Seq<AtomModel>> {
    atoms_of(split_by(s, Separator::Char('|')))
}

/// A dependency relation: a package, optionally with a version constraint,
/// and the alternative that may stand in for it.
#[derive(Debug)]
pub struct PackageRelation {
    pub package: String,
    pub relation: PackageVersionRelation,
    pub version: Option<PackageVersion>,
    pub alternative: Option<Box<PackageRelation>>,
}

impl PackageRelation {
    /// This node alone, in specifications.
    pub open spec fn atom(&self) -> AtomModel {
        (
            self.package@,
            self.relation,
            match self.version {
                Some(v) => Some(v.model()),
                None => None,
            },
        )
    }

    /// This node and its alternatives, in order.
    pub open spec fn chain(&self) -> Seq<AtomModel>
        decreases self,
    {
        match &self.alternative {
            Some(b) => seq![self.atom()] + b.chain(),
            None => seq![self.atom()],
        }
    }
}

fn invalid_relation() -> (e: RaptoboError)
    ensures
        e.spec_kind() == ErrorKind::InvalidRelation,
{
    RaptoboError::with_kind(ErrorKind::InvalidRelation, "invalid relation")
}

/// One atom without alternative.
fn parse_atom_exec(piece: &str) -> (r: Result<PackageRelation, RaptoboError>)
    ensures
        r.is_ok() <==> parse_atom(piece@) is Some,
        r matches Ok(a) ==> parse_atom(piece@) == Some(a.atom()) && a.alternative is None,
        r matches Err(e) ==> e.spec_kind() == ErrorKind::InvalidRelation,
{
    let t = trim_str(piece);
    let cs = chars_of(t.as_str());
    match find_first(&cs, '(') {
        None => {
            if cs.len() == 0 {
                return Err(invalid_relation());
            }
            Ok(
                PackageRelation {
                    package: t,
                    relation: PackageVersionRelation::ANY,
                    version: None,
                    alternative: None,
                },
            )
        },
        Some(k) => {
            let head = substring(t.as_str(), 0, k);
            let name = trim_str(head.as_str());
            assert(head@ =~= cs@.take(k as int));
            let n = cs.len();
            assert(cs@.skip(k + 1).len() == n - k - 1);
            if name.as_str().is_empty() || k + 1 >= n || cs[n - 1] != ')' {
                proof {
                    if k + 1 < n {
                        assert(cs@.skip(k + 1).last() == cs@[n - 1]);
                    }
                }
                return Err(invalid_relation());
            }
            let body = substring(t.as_str(), k + 1, n - 1);
            assert(body@ =~= cs@.skip(k + 1).drop_last());
            let inner = trim_str(body.as_str());
            let ic = chars_of(inner.as_str());
            let op = if ic.len() >= 2 {
                match two_char_relation(ic[0], ic[1]) {
                    Some(o) => Some((o, 2usize)),
                    None => if ic[0] == '=' {
                        Some((PackageVersionRelation::EQ, 1usize))
                    } else {
                        None
                    },
                }
            } else if ic.len() == 1 && ic[0] == '=' {
                Some((PackageVersionRelation::EQ, 1usize))
            } else {
                None
            };
            proof {
                if ic.len() >= 2 {
                    assert(ic@.take(2) =~= seq![ic@[0], ic@[1]]);
                }
            }
            match op {
                None => Err(invalid_relation()),
                Some((rel, len)) => {
                    let tail = substring(inner.as_str(), len, ic.len());
                    assert(tail@ =~= ic@.skip(len as int));
                    let ver = trim_str(tail.as_str());
                    if ver.as_str().is_empty() {
                        return Err(invalid_relation());
                    }
                    match PackageVersion::new(ver.as_str()) {
                        Ok(v) => Ok(
                            PackageRelation {
                                package: name,
                                relation: rel,
                                version: Some(v),
                                alternative: None,
                            },
                        ),
                        Err(_) => Err(invalid_relation()),
                    }
                },
            }
        },
    }
}

impl PackageRelation {
    /// Parses a relation with its alternatives, `a | b (>= 1) | c`, into a
    /// chain in the same order; `InvalidRelation` where an atom does not parse.
    pub fn new(relation: &str) -> (r: Result<PackageRelation, RaptoboError>)
        ensures
            r.is_ok() <==> parse_relation(relation@) is Some,
            r matches Ok(p) ==> parse_relation(relation@) == Some(p.chain()),
            r matches Err(e) ==> e.spec_kind() == ErrorKind::InvalidRelation,
    {
        let pieces = split_str(relation, Separator::Char('|'));
        let ghost ps = views(pieces@);
        proof {
            lemma_split_by_nonempty(relation@, Separator::Char('|'));
        }
        let mut atoms: Vec<PackageRelation> = Vec::new();
        let mut i: usize = 0;
        assert(ps.take(0) =~= Seq::<Seq<char>>::empty());
        while i < pieces.len()
            invariant
                i <= pieces.len(),
                ps == views(pieces@),
                ps == split_by(relation@, Separator::Char('|')),
                atoms@.len() == i,
                atoms_of(ps.take(i as int)) == Some(atoms@.map_values(|a: PackageRelation| a.atom())),
                forall|j: int| 0 <= j < i ==> (#[trigger] atoms@[j]).alternative is None,
            decreases pieces.len() - i,
        {
            assert(ps.take(i + 1).drop_last() =~= ps.take(i as int));
            match parse_atom_exec(pieces[i].as_str()) {
                Ok(a) => {
                    let ghost before = atoms@.map_values(|a: PackageRelation| a.atom());
                    atoms.push(a);
                    assert(atoms@.map_values(|a: PackageRelation| a.atom()) =~= before.push(
                        a.atom(),
                    ));
                },
                Err(e) => {
                    proof {
                        lemma_atoms_prefix(ps, i + 1);
                    }
                    return Err(e);
                },
            }
            i = i + 1;
        }
        assert(ps.take(i as int) =~= ps);
        let ghost all = atoms@.map_values(|a: PackageRelation| a.atom());
        let mut acc: Option<PackageRelation> = None;
        while atoms.len() > 0
            invariant
                all.len() == pieces.len(),
                all.len() > 0,
                atoms@.len() <= all.len(),
                forall|j: int| 0 <= j < atoms@.len() ==> (#[trigger] atoms@[j]).atom() == all[j],
                forall|j: int| 0 <= j < atoms@.len() ==> (#[trigger] atoms@[j]).alternative is None,
                match acc {
                    Some(x) => x.chain() == all.skip(atoms@.len() as int),
                    None => atoms@.len() == all.len(),
                },
            decreases atoms@.len(),
        {
            let ghost k = atoms@.len() - 1;
            let mut a = atoms.pop().unwrap();
            assert(a.atom() == all[k]);
            let alt = match acc {
                Some(x) => Some(Box::new(x)),
                None => None,
            };
            a.alternative = alt;
            proof {
                if k + 1 < all.len() {
                    assert(all.skip(k) =~= seq![all[k]] + all.skip(k + 1));
                } else {
                    assert(all.skip(k) =~= seq![all[k]]);
                }
            }
            acc = Some(a);
        }
        assert(all.skip(0) =~= all);
        Ok(acc.unwrap())
    }
}

/// A failing atom makes every longer list of pieces fail.
proof fn lemma_atoms_prefix(ps: Seq<Seq<char>>, k: int)
    requires
        0 <= k <= ps.len(),
        atoms_of(ps.take(k)) is None,
    ensures
        atoms_of(ps) is None,
    decreases ps.len() - k,
{
    if k < ps.len() {
        assert(ps.take(k + 1).drop_last() =~= ps.take(k));
        lemma_atoms_prefix(ps, k + 1);
    } else {
        assert(ps.take(k) =~= ps);
    }
}

/// Parsing alternatives joined by `|` gives the chain of their atoms, in the
/// order written: `a | b | c` is `a` with alternative `b` with alternative `c`.
pub proof fn lemma_alternatives_chain(ps: Seq<Seq<char>>)
    requires
        ps.len() > 0,
        forall|i: int, j: int| 0 <= i < ps.len() && 0 <= j < ps[i].len() ==> #[trigger] ps[i][j] != '|',
        forall|i: int| 0 <= i < ps.len() ==> (#[trigger] parse_atom(ps[i])) is Some,
    ensures
        parse_relation(join_with(ps, '|')) == Some(ps.map_values(|p: Seq<char>| parse_atom(p)->0)),
    decreases ps.len(),
{
    lemma_split_join(ps, '|');
    lemma_atoms_all(ps);
}

proof fn lemma_atoms_all(ps: Seq<Seq<char>>)
    requires
        forall|i: int| 0 <= i < ps.len() ==> (#[trigger] parse_atom(ps[i])) is Some,
    ensures
        atoms_of(ps) == Some(ps.map_values(|p: Seq<char>| parse_atom(p)->0)),
    decreases ps.len(),
{
    if ps.len() > 0 {
        let rest = ps.drop_last();
        assert forall|i: int| 0 <= i < rest.len() implies (#[trigger] parse_atom(rest[i])) is Some by {
            assert(rest[i] == ps[i]);
        }
        lemma_atoms_all(rest);
        assert(parse_atom(ps[ps.len() - 1]) is Some);
        assert(ps.map_values(|p: Seq<char>| parse_atom(p)->0) =~= rest.map_values(
            |p: Seq<char>| parse_atom(p)->0,
        ).push(parse_atom(ps.last())->0));
    } else {
        assert(ps.map_values(|p: Seq<char>| parse_atom(p)->0) =~= Seq::<AtomModel>::empty());
    }
}


/// The relations of a comma-separated list, those that do not parse left out.
pub open spec fn relations_of(pieces: Seq<Seq<char>>) -> Seq<Seq<AtomModel>>
    decreases pieces.len(),
{
    if pieces.len() == 0 {
        Seq::empty()
    } else {
        let rest = relations_of(pieces.drop_last());
        match parse_relation(pieces.last()) {
            Some(c) => rest.push(c),
            None => rest,
        }
    }
}

/// The relations of field `key`, where it is there and at least one parses.
pub open spec fn field_relations(s: Seq<FieldModel>, key: Seq<char>) -> Option<
    Seq<Seq<AtomModel>>,
> {
    match field_value(s, key) {
        None => None,
        Some(v) => {
            let r = relations_of(split_by(v, Separator::Char(',')));
            if r.len() > 0 {
                Some(r)
            } else {
                None
            }
        },
    }
}

/// The chains of a sequence of relations.
pub open spec fn chains(v: Seq<PackageRelation>) -> Seq<Seq<AtomModel>> {
    v.map_values(|p: PackageRelation| p.chain())
}

/// Whether one atom accepts a package of that name and version.
pub open spec fn atom_satisfied(
    a: AtomModel,
    name: Seq<char>,
    version: (u64, Seq<char>, Seq<char>),
) -> bool {
    a.0 == name && match a.2 {
        None => true,
        Some(rv) => match package_version_cmp(version, rv) {
            Some(o) => relation_holds(a.1, o),
            None => false,
        },
    }
}

/// Whether some alternative of a chain accepts the package.
pub open spec fn chain_satisfied(
    c: Seq<AtomModel>,
    name: Seq<char>,
    version: (u64, Seq<char>, Seq<char>),
) -> bool {
    exists|i: int| 0 <= i < c.len() && atom_satisfied(#[trigger] c[i], name, version)
}

impl PackageRelation {
    /// The relations of field `key`, split at commas; those that do not parse
    /// are left out, and none at all gives `None`.
    pub fn parse(key: &str, stanza: &Stanza) -> (r: Option<Vec<PackageRelation>>)
        ensures
            match r {
                Some(v) => field_relations(stanza@, key@) == Some(chains(v@)),
                None => field_relations(stanza@, key@) is None,
            },
    {
        let value = match stanza_value(key, stanza) {
            Ok(v) => v,
            Err(_) => return None,
        };
        let pieces = split_str(value.as_str(), Separator::Char(','));
        let ghost ps = views(pieces@);
        let mut list: Vec<PackageRelation> = Vec::new();
        let mut i: usize = 0;
        assert(ps.take(0) =~= Seq::<Seq<char>>::empty());
        assert(chains(list@) =~= Seq::<Seq<AtomModel>>::empty());
        while i < pieces.len()
            invariant
                i <= pieces.len(),
                ps == views(pieces@),
                chains(list@) == relations_of(ps.take(i as int)),
            decreases pieces.len() - i,
        {
            assert(ps.take(i + 1).drop_last() =~= ps.take(i as int));
            match PackageRelation::new(pieces[i].as_str()) {
                Ok(rel) => {
                    let ghost before = chains(list@);
                    list.push(rel);
                    assert(chains(list@) =~= before.push(rel.chain()));
                },
                Err(_) => {},
            }
            i = i + 1;
        }
        assert(ps.take(i as int) =~= ps);
        if list.len() == 0 {
            None
        } else {
            Some(list)
        }
    }

    fn satisfied_by(&self, name: &String, version: &PackageVersion) -> (r: bool)
        ensures
            r == chain_satisfied(self.chain(), name@, version.model()),
        decreases self,
    {
        let here = if self.package == *name {
            match &self.version {
                None => true,
                Some(v) => match version.partial_cmp(v) {
                    Some(o) => self.relation.is(o),
                    None => false,
                },
            }
        } else {
            false
        };
        assert(here == atom_satisfied(self.atom(), name@, version.model()));
        assert(self.chain()[0int] == self.atom());
        if here {
            return true;
        }
        match &self.alternative {
            None => {
                assert(self.chain() =~= seq![self.atom()]);
                false
            },
            Some(b) => {
                let rest = b.satisfied_by(name, version);
                let ghost c = self.chain();
                assert(c =~= seq![self.atom()] + b.chain());
                if rest {
                    proof {
                        let i = choose|i: int| 0 <= i < b.chain().len() && atom_satisfied(
                            #[trigger] b.chain()[i],
                            name@,
                            version.model(),
                        );
                        assert(c[i + 1] == b.chain()[i]);
                    }
                } else {
                    assert forall|i: int| 0 <= i < c.len() implies !atom_satisfied(
                        #[trigger] c[i],
                        name@,
                        version.model(),
                    ) by {
                        if i > 0 {
                            assert(c[i] == b.chain()[i - 1]);
                        }
                    }
                }
                rest
            },
        }
    }
}


/// Whether `c` is the lower-case ASCII letter `lower`, in either case.
pub open spec fn same_letter(c: char, lower: char) -> bool {
    c == lower || ('A' <= c <= 'Z' && (c as u32) + 32 == (lower as u32))
}

/// Whether `s` spells `word`, a lower-case ASCII word, ignoring ASCII case.
pub open spec fn spells(s: Seq<char>, word: Seq<char>) -> bool {
    s.len() == word.len() && forall|i: int| 0 <= i < s.len() ==> same_letter(s[i], word[i])
}

/// Whether `cs` spells `word`, ignoring ASCII case.
fn spells_exec(cs: &Vec<char>, word: &str) -> (r: bool)
    ensures
        r == spells(cs@, word@),
{
    let w = chars_of(word);
    if cs.len() != w.len() {
        return false;
    }
    let mut i: usize = 0;
    while i < cs.len()
        invariant
            i <= cs.len(),
            cs.len() == w.len(),
            w@ == word@,
            forall|j: int| 0 <= j < i ==> same_letter(cs@[j], w@[j]),
        decreases cs.len() - i,
    {
        let c = cs[i];
        let l = w[i];
        let same = c == l || ('A' <= c && c <= 'Z' && (c as u32) + 32 == (l as u32));
        if !same {
            return false;
        }
        i = i + 1;
    }
    true
}

/// How important it is to install a new version.
#[derive(Debug, Clone, Copy, PartialEq, Eq, Structural)]
pub enum PackageUpdateUrgency {
    Low,
    Medium,
    High,
    Emergency,
    Critical,
}

/// The urgency a value names, ignoring ASCII case.
pub open spec fn urgency_of(v: Seq<char>) -> Option<PackageUpdateUrgency> {
    if spells(v, "low"@) {
        Some(PackageUpdateUrgency::Low)
    } else if spells(v, "medium"@) {
        Some(PackageUpdateUrgency::Medium)
    } else if spells(v, "high"@) {
        Some(PackageUpdateUrgency::High)
    } else if spells(v, "emergency"@) {
        Some(PackageUpdateUrgency::Emergency)
    } else if spells(v, "critical"@) {
        Some(PackageUpdateUrgency::Critical)
    } else {
        None
    }
}

impl PackageUpdateUrgency {
    /// The urgency of field `key`; `None` where it is absent or unknown.
    pub fn parse(key: &str, stanza: &Stanza) -> (r: Option<PackageUpdateUrgency>)
        ensures
            r == match field_value(stanza@, key@) {
                Some(v) => urgency_of(v),
                None => None,
            },
    {
        let value = match stanza_value(key, stanza) {
            Ok(v) => v,
            Err(_) => return None,
        };
        let cs = chars_of(value.as_str());
        if spells_exec(&cs, "low") {
            Some(PackageUpdateUrgency::Low)
        } else if spells_exec(&cs, "medium") {
            Some(PackageUpdateUrgency::Medium)
        } else if spells_exec(&cs, "high") {
            Some(PackageUpdateUrgency::High)
        } else if spells_exec(&cs, "emergency") {
            Some(PackageUpdateUrgency::Emergency)
        } else if spells_exec(&cs, "critical") {
            Some(PackageUpdateUrgency::Critical)
        } else {
            None
        }
    }
}

/// A version control system.
#[derive(Debug, Clone, Copy, PartialEq, Eq, Structural)]
pub enum VcsType {
    Arch,
    Bzr,
    Cvs,
    Darcs,
    Git,
    Hg,
    Mtn,
    Svn,
}

/// The source repository of a package: its system and URL.
#[derive(Debug, Clone)]
pub struct PackageVcs {
    pub vcs_type: VcsType,
    pub url: String,
}

/// The first of the `Vcs-*` fields, probed in a fixed order, with its value.
pub open spec fn vcs_of(s: Seq<FieldModel>) -> Option<(VcsType, Seq<char>)> {
    if field_value(s, "Vcs-Arch"@) is Some {
        Some((VcsType::Arch, field_value(s, "Vcs-Arch"@)->0))
    } else if field_value(s, "Vcs-Bzr"@) is Some {
        Some((VcsType::Bzr, field_value(s, "Vcs-Bzr"@)->0))
    } else if field_value(s, "Vcs-Cvs"@) is Some {
        Some((VcsType::Cvs, field_value(s, "Vcs-Cvs"@)->0))
    } else if field_value(s, "Vcs-Darcs"@) is Some {
        Some((VcsType::Darcs, field_value(s, "Vcs-Darcs"@)->0))
    } else if field_value(s, "Vcs-Git"@) is Some {
        Some((VcsType::Git, field_value(s, "Vcs-Git"@)->0))
    } else if field_value(s, "Vcs-Hg"@) is Some {
        Some((VcsType::Hg, field_value(s, "Vcs-Hg"@)->0))
    } else if field_value(s, "Vcs-Mtn"@) is Some {
        Some((VcsType::Mtn, field_value(s, "Vcs-Mtn"@)->0))
    } else if field_value(s, "Vcs-Svn"@) is Some {
        Some((VcsType::Svn, field_value(s, "Vcs-Svn"@)->0))
    } else {
        None
    }
}

impl PackageVcs {
    /// The model of a reference.
    pub open spec fn model(&self) -> (VcsType, Seq<char>) {
        (self.vcs_type, self.url@)
    }

    /// The first `Vcs-*` field of the stanza, in the order Arch, Bzr, Cvs,
    /// Darcs, Git, Hg, Mtn, Svn.
    pub fn parse(stanza: &Stanza) -> (r: Option<PackageVcs>)
        ensures
            match r {
                Some(v) => vcs_of(stanza@) == Some(v.model()),
                None => vcs_of(stanza@) is None,
            },
    {
        if let Ok(url) = stanza_value("Vcs-Arch", stanza) {
            return Some(PackageVcs { vcs_type: VcsType::Arch, url });
        }
        if let Ok(url) = stanza_value("Vcs-Bzr", stanza) {
            return Some(PackageVcs { vcs_type: VcsType::Bzr, url });
        }
        if let Ok(url) = stanza_value("Vcs-Cvs", stanza) {
            return Some(PackageVcs { vcs_type: VcsType::Cvs, url });
        }
        if let Ok(url) = stanza_value("Vcs-Darcs", stanza) {
            return Some(PackageVcs { vcs_type: VcsType::Darcs, url });
        }
        if let Ok(url) = stanza_value("Vcs-Git", stanza) {
            return Some(PackageVcs { vcs_type: VcsType::Git, url });
        }
        if let Ok(url) = stanza_value("Vcs-Hg", stanza) {
            return Some(PackageVcs { vcs_type: VcsType::Hg, url });
        }
        if let Ok(url) = stanza_value("Vcs-Mtn", stanza) {
            return Some(PackageVcs { vcs_type: VcsType::Mtn, url });
        }
        if let Ok(url) = stanza_value("Vcs-Svn", stanza) {
            return Some(PackageVcs { vcs_type: VcsType::Svn, url });
        }
        None
    }
}

/// An entry of a package list in specifications: name, type, section, priority.
pub type ListItemModel = (Seq<char>, Seq<char>, Seq<char>, Seq<char>);

/// The entry of one line, split at single spaces: fields 0, 1, 3 and 4,
/// trimmed; `None` where there are fewer than five.
pub open spec fn list_item_of(l: Seq<char>) -> Option<ListItemModel> {
    let parts = split_by(l, Separator::Char(' '));
    if parts.len() >= 5 {
        Some((trim(parts[0]), trim(parts[1]), trim(parts[3]), trim(parts[4])))
    } else {
        None
    }
}

/// The entries of all lines, `None` where one line is short.
pub open spec fn list_items_of(ls: Seq<Seq<char>>) -> Option<Seq<ListItemModel>>
    decreases ls.len(),
{
    if ls.len() == 0 {
        Some(Seq::empty())
    } else {
        match (list_items_of(ls.drop_last()), list_item_of(ls.last())) {
            (Some(a), Some(x)) => Some(a.push(x)),
            _ => None,
        }
    }
}

/// The package list of field `key`: its non-empty lines as entries, where
/// the field is there, every line is long enough and there is at least one.
pub open spec fn field_package_list(s: Seq<FieldModel>, key: Seq<char>) -> Option<
    Seq<ListItemModel>,
> {
    match field_lines(s, key, true) {
        None => None,
        Some(ls) => match list_items_of(ls) {
            Some(items) => if items.len() > 0 {
                Some(items)
            } else {
                None
            },
            None => None,
        },
    }
}

proof fn lemma_list_items_prefix(ls: Seq<Seq<char>>, k: int)
    requires
        0 <= k <= ls.len(),
        list_items_of(ls.take(k)) is None,
    ensures
        list_items_of(ls) is None,
    decreases ls.len() - k,
{
    if k < ls.len() {
        assert(ls.take(k + 1).drop_last() =~= ls.take(k));
        lemma_list_items_prefix(ls, k + 1);
    } else {
        assert(ls.take(k) =~= ls);
    }
}

/// One entry of a source package's list of binary packages.
#[derive(Debug, Clone)]
pub struct PackageListItem {
    pub name: String,
    pub kind: String,
    pub section: String,
    pub priority: String,
}

impl PackageListItem {
    pub open spec fn model(&self) -> ListItemModel {
        (self.name@, self.kind@, self.section@, self.priority@)
    }

    /// The entry of one line; `MalformedPackageList` where it has fewer than
    /// five space-separated fields.
    pub fn from_line(line: &str) -> (r: Result<PackageListItem, RaptoboError>)
        ensures
            match list_item_of(line@) {
                Some(m) => r matches Ok(item) && item.model() == m,
                None => r matches Err(e) && e.spec_kind() == ErrorKind::MalformedPackageList,
            },
    {
        let parts = split_str(line, Separator::Char(' '));
        if parts.len() < 5 {
            return Err(
                RaptoboError::with_kind(
                    ErrorKind::MalformedPackageList,
                    "package list entry has fewer than five fields",
                ),
            );
        }
        assert(views(parts@)[0] == parts@[0]@);
        assert(views(parts@)[1] == parts@[1]@);
        assert(views(parts@)[3] == parts@[3]@);
        assert(views(parts@)[4] == parts@[4]@);
        Ok(
            PackageListItem {
                name: trim_str(parts[0].as_str()),
                kind: trim_str(parts[1].as_str()),
                section: trim_str(parts[3].as_str()),
                priority: trim_str(parts[4].as_str()),
            },
        )
    }

    /// The entries of field `key`, as `field_package_list` says.
    pub fn parse(key: &str, stanza: &Stanza) -> (r: Option<Vec<PackageListItem>>)
        ensures
            match r {
                Some(v) => field_package_list(stanza@, key@) == Some(
                    v@.map_values(|i: PackageListItem| i.model()),
                ),
                None => field_package_list(stanza@, key@) is None,
            },
    {
        let lines = match stanza_lines(key, stanza, true) {
            Ok(v) => v,
            Err(_) => return None,
        };
        let ghost ls = views(lines@);
        let mut items: Vec<PackageListItem> = Vec::new();
        let mut i: usize = 0;
        assert(ls.take(0) =~= Seq::<Seq<char>>::empty());
        assert(items@.map_values(|i: PackageListItem| i.model()) =~= Seq::<ListItemModel>::empty());
        while i < lines.len()
            invariant
                i <= lines.len(),
                ls == views(lines@),
                field_lines(stanza@, key@, true) == Some(ls),
                list_items_of(ls.take(i as int)) == Some(
                    items@.map_values(|i: PackageListItem| i.model()),
                ),
            decreases lines.len() - i,
        {
            assert(ls.take(i + 1).drop_last() =~= ls.take(i as int));
            match PackageListItem::from_line(lines[i].as_str()) {
                Ok(item) => {
                    let ghost before = items@.map_values(|i: PackageListItem| i.model());
                    items.push(item);
                    assert(items@.map_values(|i: PackageListItem| i.model()) =~= before.push(
                        item.model(),
                    ));
                },
                Err(_) => {
                    proof {
                        lemma_list_items_prefix(ls, i + 1);
                    }
                    return None;
                },
            }
            i = i + 1;
        }
        assert(ls.take(i as int) =~= ls);
        if items.len() == 0 {
            None
        } else {
            Some(items)
        }
    }
}

/// One package record, from a stanza of a `Packages` index or a source
/// control file. Only `package`, `architecture` and `version` are required.
#[derive(Debug)]
pub struct PackageMetadata {
    /// Source package name.
    pub source: Option<String>,
    /// Maintainer's name and email address.
    pub maintainer: Option<String>,
    /// Co-maintainers.
    pub uploaders: Option<Vec<String>>,
    /// Who prepared this version.
    pub changed_by: Option<String>,
    /// Section.
    pub section: Option<String>,
    /// Priority.
    pub priority: Option<String>,
    /// Package name.
    pub package: String,
    /// Architecture.
    pub architecture: String,
    /// Whether the package cannot be removed.
    pub essential: Option<String>,
    /// Absolute dependencies.
    pub depends: Option<Vec<PackageRelation>>,
    /// Dependencies installed before unpacking.
    pub pre_depends: Option<Vec<PackageRelation>>,
    /// Strong but not absolute dependencies.
    pub recommends: Option<Vec<PackageRelation>>,
    /// Packages that may be more useful with this one.
    pub suggests: Option<Vec<PackageRelation>>,
    /// Packages this one is more useful with.
    pub enhances: Option<Vec<PackageRelation>>,
    /// Packages this one breaks.
    pub breaks: Option<Vec<PackageRelation>>,
    /// Packages this one conflicts with.
    pub conflicts: Option<Vec<PackageRelation>>,
    /// Virtual packages this one provides.
    pub provides: Option<Vec<PackageRelation>>,
    /// Packages whose files this one overwrites.
    pub replaces: Option<Vec<PackageRelation>>,
    /// Policy version the package complies with.
    pub standards_version: Option<String>,
    /// Version.
    pub version: PackageVersion,
    /// Description, continuation lines joined by newlines.
    pub description: Option<String>,
    /// Distributions holding this package.
    pub distribution: Option<Vec<String>>,
    /// When the package was last built.
    pub date: Option<DateStamp>,
    /// Package format.
    pub format: Option<String>,
    /// How important it is to install this version.
    pub urgency: Option<PackageUpdateUrgency>,
    /// Description of the changes.
    pub changes: Option<String>,
    /// Binary packages built from this source.
    pub binary: Option<Vec<String>>,
    /// Estimated installed size.
    pub installed_size: Option<String>,
    /// Files of the source package with their MD5 sums.
    pub files: Option<Vec<File>>,
    /// Bugs closed by this version.
    pub closes: Option<Vec<String>>,
    /// Project homepage.
    pub homepage: Option<String>,
    /// Files with their SHA-1 sums.
    pub checksums_sha1: Option<Vec<File>>,
    /// Files with their SHA-256 sums.
    pub checksums_sha256: Option<Vec<File>>,
    /// Web interface of the source repository.
    pub vcs_browser: Option<String>,
    /// Source repository.
    pub vcs: Option<PackageVcs>,
    /// Packages built by this source package.
    pub package_list: Option<Vec<PackageListItem>>,
    /// Package type, deb or udeb.
    pub package_type: Option<String>,
    /// Git commit of the package.
    pub dgit: Option<String>,
    /// Test suites.
    pub testsuite: Option<Vec<String>>,
    /// Whether building needs root.
    pub rules_requires_root: Option<String>,
    /// Origin of the package.
    pub origin: Option<String>,
    /// Maintainer of the original package.
    pub original_maintainer: Option<String>,
    /// Bug tracker.
    pub bugs: Option<String>,
    /// Tasks.
    pub task: Option<Vec<String>>,
    /// Path of the package file, relative to the repository root.
    pub filename: Option<String>,
    /// Compressed size in bytes.
    pub size: Option<String>,
    /// MD5 sum of the package file.
    pub md5sum: Option<String>,
    /// SHA-1 sum of the package file.
    pub sha1: Option<String>,
    /// SHA-256 sum of the package file.
    pub sha256: Option<String>,
    /// SHA-512 sum of the package file.
    pub sha512: Option<String>,
    /// Key for description translations.
    pub description_md5: Option<String>,
}

/// The chains of an optional list of relations.
pub open spec fn opt_chains(o: Option<Vec<PackageRelation>>) -> Option<Seq<Seq<AtomModel>>> {
    match o {
        Some(v) => Some(chains(v@)),
        None => None,
    }
}

/// The model of an optional reference.
pub open spec fn opt_vcs(o: Option<PackageVcs>) -> Option<(VcsType, Seq<char>)> {
    match o {
        Some(v) => Some(v.model()),
        None => None,
    }
}

/// The models of an optional package list.
pub open spec fn opt_items(o: Option<Vec<PackageListItem>>) -> Option<Seq<ListItemModel>> {
    match o {
        Some(v) => Some(v@.map_values(|i: PackageListItem| i.model())),
        None => None,
    }
}

/// The urgency of field `key`, where it is there and known.
pub open spec fn field_urgency(s: Seq<FieldModel>, key: Seq<char>) -> Option<PackageUpdateUrgency> {
    match field_value(s, key) {
        Some(v) => urgency_of(v),
        None => None,
    }
}

/// Whether a stanza makes a package record: `Package`, `Architecture` and
/// `Version` are there, and the version parses.
pub open spec fn metadata_ok(s: Seq<FieldModel>) -> bool {
    &&& field_value(s, "Package"@) is Some
    &&& field_value(s, "Architecture"@) is Some
    &&& field_value(s, "Version"@) is Some
    &&& parse_version(field_value(s, "Version"@)->0) is Some
}

/// Whether every field of `m` is what the stanza `s` gives for it.
pub open spec fn metadata_matches(m: PackageMetadata, s: Seq<FieldModel>) -> bool {
    &&& opt_view(m.source) == field_value(s, "Source"@)
    &&& opt_view(m.maintainer) == field_value(s, "Maintainer"@)
    &&& opt_views(m.uploaders) == nonempty_list(s, "Uploaders"@)
    &&& opt_view(m.changed_by) == field_value(s, "Changed-By"@)
    &&& opt_view(m.section) == field_value(s, "Section"@)
    &&& opt_view(m.priority) == field_value(s, "Priority"@)
    &&& Some(m.package@) == field_value(s, "Package"@)
    &&& Some(m.architecture@) == field_value(s, "Architecture"@)
    &&& opt_view(m.essential) == field_value(s, "Essential"@)
    &&& opt_chains(m.depends) == field_relations(s, "Depends"@)
    &&& opt_chains(m.pre_depends) == field_relations(s, "Pre-Depends"@)
    &&& opt_chains(m.recommends) == field_relations(s, "Recommends"@)
    &&& opt_chains(m.suggests) == field_relations(s, "Suggests"@)
    &&& opt_chains(m.enhances) == field_relations(s, "Enhances"@)
    &&& opt_chains(m.breaks) == field_relations(s, "Breaks"@)
    &&& opt_chains(m.conflicts) == field_relations(s, "Conflicts"@)
    &&& opt_chains(m.provides) == field_relations(s, "Provides"@)
    &&& opt_chains(m.replaces) == field_relations(s, "Replaces"@)
    &&& opt_view(m.standards_version) == field_value(s, "Standards-Version"@)
    &&& Some(m.version.model()) == parse_version(field_value(s, "Version"@)->0)
    &&& opt_view(m.description) == field_text(s, "Description"@)
    &&& opt_views(m.distribution) == nonempty_list(s, "Distribution"@)
    &&& m.date == field_date(s, "Date"@)
    &&& opt_view(m.format) == field_value(s, "Format"@)
    &&& m.urgency == field_urgency(s, "Urgency"@)
    &&& opt_view(m.changes) == field_value(s, "Changes"@)
    &&& opt_views(m.binary) == nonempty_list(s, "Binary"@)
    &&& opt_view(m.installed_size) == field_value(s, "Installed-Size"@)
    &&& opt_file_models(m.files) == nonempty_files(s, "Files"@)
    &&& opt_views(m.closes) == nonempty_list(s, "Closes"@)
    &&& opt_view(m.homepage) == field_value(s, "Homepage"@)
    &&& opt_file_models(m.checksums_sha1) == nonempty_files(s, "Checksums-Sha1"@)
    &&& opt_file_models(m.checksums_sha256) == nonempty_files(s, "Checksums-Sha256"@)
    &&& opt_view(m.vcs_browser) == field_value(s, "Vcs-Browser"@)
    &&& opt_vcs(m.vcs) == vcs_of(s)
    &&& opt_items(m.package_list) == field_package_list(s, "Package-List"@)
    &&& opt_view(m.package_type) == field_value(s, "Package-Type"@)
    &&& opt_view(m.dgit) == field_value(s, "Dgit"@)
    &&& opt_views(m.testsuite) == nonempty_list(s, "Testsuite"@)
    &&& opt_view(m.rules_requires_root) == field_value(s, "Rules-Requires-Root"@)
    &&& opt_view(m.origin) == field_value(s, "Origin"@)
    &&& opt_view(m.original_maintainer) == field_value(s, "Original-Maintainer"@)
    &&& opt_view(m.bugs) == field_value(s, "Bugs"@)
    &&& opt_views(m.task) == nonempty_list(s, "Task"@)
    &&& opt_view(m.filename) == field_value(s, "Filename"@)
    &&& opt_view(m.size) == field_value(s, "Size"@)
    &&& opt_view(m.md5sum) == field_value(s, "MD5sum"@)
    &&& opt_view(m.sha1) == field_value(s, "SHA1"@)
    &&& opt_view(m.sha256) == field_value(s, "SHA256"@)
    &&& opt_view(m.sha512) == field_value(s, "SHA512"@)
    &&& opt_view(m.description_md5) == field_value(s, "Description-md5"@)
}

impl PackageMetadata {
    /// The record of one stanza. `MissingField` where `Package`,
    /// `Architecture` or `Version` is absent, `InvalidVersion` where the
    /// version does not parse; every other field is optional.
    pub fn new(stanza: Stanza) -> (r: Result<PackageMetadata, RaptoboError>)
        ensures
            r.is_ok() <==> metadata_ok(stanza@),
            r matches Ok(m) ==> metadata_matches(m, stanza@),
            r matches Err(e) ==> if field_value(stanza@, "Package"@) is None || field_value(
                stanza@,
                "Architecture"@,
            ) is None || field_value(stanza@, "Version"@) is None {
                e.spec_kind() == ErrorKind::MissingField
            } else {
                e.spec_kind() == ErrorKind::InvalidVersion
            },
    {
        let package = stanza_value("Package", &stanza)?;
        let architecture = stanza_value("Architecture", &stanza)?;
        let version = PackageVersion::parse("Version", &stanza)?;
        Ok(
            PackageMetadata {
                source: stanza_opt_value("Source", &stanza),
                maintainer: stanza_opt_value("Maintainer", &stanza),
                uploaders: stanza_opt_list("Uploaders", &stanza),
                changed_by: stanza_opt_value("Changed-By", &stanza),
                section: stanza_opt_value("Section", &stanza),
                priority: stanza_opt_value("Priority", &stanza),
                package,
                architecture,
                essential: stanza_opt_value("Essential", &stanza),
                depends: PackageRelation::parse("Depends", &stanza),
                pre_depends: PackageRelation::parse("Pre-Depends", &stanza),
                recommends: PackageRelation::parse("Recommends", &stanza),
                suggests: PackageRelation::parse("Suggests", &stanza),
                enhances: PackageRelation::parse("Enhances", &stanza),
                breaks: PackageRelation::parse("Breaks", &stanza),
                conflicts: PackageRelation::parse("Conflicts", &stanza),
                provides: PackageRelation::parse("Provides", &stanza),
                replaces: PackageRelation::parse("Replaces", &stanza),
                standards_version: stanza_opt_value("Standards-Version", &stanza),
                version,
                description: stanza_opt_text("Description", &stanza),
                distribution: stanza_opt_list("Distribution", &stanza),
                date: stanza_date("Date", &stanza),
                format: stanza_opt_value("Format", &stanza),
                urgency: PackageUpdateUrgency::parse("Urgency", &stanza),
                changes: stanza_opt_value("Changes", &stanza),
                binary: stanza_opt_list("Binary", &stanza),
                installed_size: stanza_opt_value("Installed-Size", &stanza),
                files: stanza_opt_files("Files", &stanza),
                closes: stanza_opt_list("Closes", &stanza),
                homepage: stanza_opt_value("Homepage", &stanza),
                checksums_sha1: stanza_opt_files("Checksums-Sha1", &stanza),
                checksums_sha256: stanza_opt_files("Checksums-Sha256", &stanza),
                vcs_browser: stanza_opt_value("Vcs-Browser", &stanza),
                vcs: PackageVcs::parse(&stanza),
                package_list: PackageListItem::parse("Package-List", &stanza),
                package_type: stanza_opt_value("Package-Type", &stanza),
                dgit: stanza_opt_value("Dgit", &stanza),
                testsuite: stanza_opt_list("Testsuite", &stanza),
                rules_requires_root: stanza_opt_value("Rules-Requires-Root", &stanza),
                origin: stanza_opt_value("Origin", &stanza),
                original_maintainer: stanza_opt_value("Original-Maintainer", &stanza),
                bugs: stanza_opt_value("Bugs", &stanza),
                task: stanza_opt_list("Task", &stanza),
                filename: stanza_opt_value("Filename", &stanza),
                size: stanza_opt_value("Size", &stanza),
                md5sum: stanza_opt_value("MD5sum", &stanza),
                sha1: stanza_opt_value("SHA1", &stanza),
                sha256: stanza_opt_value("SHA256", &stanza),
                sha512: stanza_opt_value("SHA512", &stanza),
                description_md5: stanza_opt_value("Description-md5", &stanza),
            },
        )
    }
}


/// The stanzas that make package records, in order.
pub open spec fn accepted(ss: Seq<Seq<FieldModel>>) -> Seq<Seq<FieldModel>>
    decreases ss.len(),
{
    if ss.len() == 0 {
        Seq::empty()
    } else if metadata_ok(ss.last()) {
        accepted(ss.drop_last()).push(ss.last())
    } else {
        accepted(ss.drop_last())
    }
}

impl PackageMetadata {
    /// The records of a `Packages` index: one per stanza that makes one, in
    /// order; stanzas that do not are left out. It never fails.
    pub fn parse(content: Vec<String>) -> (r: Result<Vec<PackageMetadata>, RaptoboError>)
        ensures
            r matches Ok(v) && v@.len() == accepted(lex(views(content@))).len() && forall|i: int|
                0 <= i < v@.len() ==> metadata_matches(
                    #[trigger] v@[i],
                    accepted(lex(views(content@)))[i],
                ),
    {
        let ghost doc = lex(views(content@));
        let stanzas = parse_metadata(content).unwrap();
        let ghost ss = stanza_views(stanzas@);
        let mut out: Vec<PackageMetadata> = Vec::new();
        let mut stanzas = stanzas;
        let mut rest: Vec<Stanza> = Vec::new();
        let mut done: usize = 0;
        let ghost n = ss.len();
        let total = stanzas.len();
        assert(n == total);
        assert forall|j: int| 0 <= j < stanzas@.len() implies (#[trigger] stanzas@[j])@ == ss[j] by {
            assert(ss[j] == stanzas@[j]@);
        }
        while stanzas.len() > 0
            invariant
                n == ss.len(),
                n <= usize::MAX,
                stanzas@.len() + rest@.len() == n,
                forall|j: int| 0 <= j < stanzas@.len() ==> (#[trigger] stanzas@[j])@ == ss[j],
                forall|j: int| 0 <= j < rest@.len() ==> (#[trigger] rest@[j])@ == ss[n - 1 - j],
            decreases stanzas@.len(),
        {
            let st = stanzas.pop().unwrap();
            rest.push(st);
        }
        assert(ss.take(0) =~= Seq::<Seq<FieldModel>>::empty());
        while rest.len() > 0
            invariant
                ss == doc,
                n <= usize::MAX,
                done + rest@.len() == n,
                n == ss.len(),
                forall|j: int| 0 <= j < rest@.len() ==> (#[trigger] rest@[j])@ == ss[n - 1 - j],
                out@.len() == accepted(ss.take(done as int)).len(),
                forall|i: int| 0 <= i < out@.len() ==> metadata_matches(
                    #[trigger] out@[i],
                    accepted(ss.take(done as int))[i],
                ),
            decreases rest@.len(),
        {
            let st = rest.pop().unwrap();
            assert(st@ == ss[done as int]);
            assert(ss.take(done + 1).drop_last() =~= ss.take(done as int));
            let ghost prev = accepted(ss.take(done as int));
            let ghost before = out@;
            match PackageMetadata::new(st) {
                Ok(m) => {
                    out.push(m);
                    assert forall|i: int| 0 <= i < out@.len() implies metadata_matches(
                        #[trigger] out@[i],
                        accepted(ss.take(done + 1))[i],
                    ) by {
                        if i < prev.len() {
                            assert(out@[i] == before[i]);
                        }
                    }
                },
                Err(_) => {},
            }
            done = done + 1;
        }
        assert(ss.take(n as int) =~= ss);
        Ok(out)
    }
}

impl PackageRelation {
    /// Whether some alternative of this relation names the package and,
    /// where it has a version, the package's version satisfies its operator.
    pub fn is(&self, package: &PackageMetadata) -> (r: bool)
        ensures
            r == chain_satisfied(self.chain(), package.package@, package.version.model()),
    {
        self.satisfied_by(&package.package, &package.version)
    }
}

} // verus!
