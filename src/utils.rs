//! The stanza format: a document of `Name: value` fields with continuation
//! lines, split into stanzas by blank lines, and typed accessors over a stanza.
use vstd::prelude::*;
use crate::error::{ErrorKind, RaptoboError};
use crate::text::{
    chars_of, decimal_u64, find_first, first_index, is_white, join_lines, lemma_first_index,
    lemma_whitespace_tokens, parse_u64_range, substring, tokens, tokens_of, trim,
    trim_end, trim_start, trim_str, trimmed_lines, views, Separator,
};

verus! {

/// A field in specifications: its name and its raw value lines.
pub type FieldModel = (Seq<char>, Seq<Seq<char>>);

/// One field of a stanza: its name and its value lines. The first line is the
/// text after the colon; further lines are continuation lines, kept verbatim.
#[derive(Debug, Clone)]
pub struct Field {
    pub name: String,
    pub lines: Vec<String>,
}

impl Field {
    pub open spec fn model(&self) -> FieldModel {
        (self.name@, views(self.lines@))
    }
}

/// An ordered mapping from field names to value lines, in insertion order,
/// with each name at most once.
#[derive(Debug, Clone)]
pub struct Stanza {
    fields: Vec<Field>,
}

/// The position of the field named `key`.
pub open spec fn field_index(s: Seq<FieldModel>, key: Seq<char>) -> Option<int>
    decreases s.len(),
{
    if s.len() == 0 {
        None
    } else {
        match field_index(s.drop_last(), key) {
            Some(i) => Some(i),
            None => if s.last().0 == key {
                Some(s.len() - 1)
            } else {
                None
            },
        }
    }
}

/// The value lines of the field named `key`.
pub open spec fn lookup(s: Seq<FieldModel>, key: Seq<char>) -> Option<Seq<Seq<char>>> {
    match field_index(s, key) {
        Some(i) => Some(s[i].1),
        None => None,
    }
}

/// `s` with the field `name` set to `lines`: in its place where it is there
/// already, at the end otherwise.
pub open spec fn insert_field(s: Seq<FieldModel>, name: Seq<char>, lines: Seq<Seq<char>>) -> Seq<
    FieldModel,
> {
    match field_index(s, name) {
        Some(i) => s.update(i, (name, lines)),
        None => s.push((name, lines)),
    }
}

/// Each name at most once.
pub open spec fn unique_names(s: Seq<FieldModel>) -> bool {
    forall|i: int, j: int| 0 <= i < j < s.len() ==> s[i].0 != s[j].0
}

/// `field_index` is the first position holding `key`, or `None` where there is none.
pub proof fn lemma_field_index(s: Seq<FieldModel>, key: Seq<char>)
    ensures
        match field_index(s, key) {
            Some(i) => 0 <= i < s.len() && s[i].0 == key && forall|j: int|
                0 <= j < i ==> s[j].0 != key,
            None => forall|j: int| 0 <= j < s.len() ==> s[j].0 != key,
        },
    decreases s.len(),
{
    if s.len() > 0 {
        lemma_field_index(s.drop_last(), key);
        assert(forall|j: int| 0 <= j < s.len() - 1 ==> s.drop_last()[j] == s[j]);
    }
}

/// The first position holding `key` is what `field_index` gives.
pub proof fn lemma_field_index_unique(s: Seq<FieldModel>, key: Seq<char>, i: int)
    requires
        0 <= i < s.len(),
        s[i].0 == key,
        forall|j: int| 0 <= j < i ==> s[j].0 != key,
    ensures
        field_index(s, key) == Some(i),
{
    lemma_field_index(s, key);
    match field_index(s, key) {
        Some(k) => {
            if k < i {
            } else if k > i {
            }
        },
        None => {},
    }
}

impl View for Stanza {
    type V = Seq<FieldModel>;

    closed spec fn view(&self) -> Seq<FieldModel> {
        self.fields@.map_values(|f: Field| f.model())
    }
}

impl Stanza {
    /// An empty stanza.
    pub fn new() -> (r: Stanza)
        ensures
            r@ == Seq::<FieldModel>::empty(),
            unique_names(r@),
    {
        let r = Stanza { fields: Vec::new() };
        assert(r@ =~= Seq::<FieldModel>::empty());
        r
    }

    /// The number of fields.
    pub fn len(&self) -> (r: usize)
        ensures
            r == self@.len(),
    {
        self.fields.len()
    }

    /// Whether there is no field.
    pub fn is_empty(&self) -> (r: bool)
        ensures
            r == (self@.len() == 0),
    {
        self.fields.len() == 0
    }

    /// The fields, in order.
    pub fn fields(&self) -> (r: &Vec<Field>)
        ensures
            r@.map_values(|f: Field| f.model()) == self@,
    {
        &self.fields
    }

    /// The position of the field named `key`.
    pub fn position(&self, key: &str) -> (r: Option<usize>)
        ensures
            match r {
                Some(i) => field_index(self@, key@) == Some(i as int) && i < self@.len(),
                None => field_index(self@, key@) is None,
            },
    {
        let k = key.to_owned();
        let mut i: usize = 0;
        while i < self.fields.len()
            invariant
                i <= self.fields.len(),
                k@ == key@,
                forall|j: int| 0 <= j < i ==> self@[j].0 != key@,
            decreases self.fields.len() - i,
        {
            assert(self@[i as int] == self.fields@[i as int].model());
            if self.fields[i].name == k {
                proof {
                    lemma_field_index_unique(self@, key@, i as int);
                }
                return Some(i);
            }
            i = i + 1;
        }
        proof {
            lemma_field_index(self@, key@);
            if let Some(k) = field_index(self@, key@) {
                assert(self@[k].0 == key@);
            }
        }
        None
    }

    /// The value lines of the field named `key`.
    pub fn get(&self, key: &str) -> (r: Option<&Vec<String>>)
        ensures
            match r {
                Some(v) => lookup(self@, key@) == Some(views(v@)),
                None => lookup(self@, key@) is None,
            },
    {
        match self.position(key) {
            Some(i) => {
                assert(self@[i as int] == self.fields@[i as int].model());
                Some(&self.fields[i].lines)
            },
            None => None,
        }
    }

    /// Whether a field named `key` is there.
    pub fn contains_key(&self, key: &str) -> (r: bool)
        ensures
            r == (field_index(self@, key@) is Some),
    {
        self.position(key).is_some()
    }

    /// Sets the field `name` to `lines`, in its place where it is there
    /// already, at the end otherwise; returns the field's position.
    pub fn insert(&mut self, name: String, lines: Vec<String>) -> (r: usize)
        ensures
            final(self)@ == insert_field(old(self)@, name@, views(lines@)),
            field_index(final(self)@, name@) == Some(r as int),
            r < final(self)@.len(),
            unique_names(old(self)@) ==> unique_names(final(self)@),
    {
        let ghost old_view = self@;
        let ghost nm = name@;
        let ghost lv = views(lines@);
        let pos = self.position(name.as_str());
        proof {
            lemma_field_index(old_view, nm);
        }
        match pos {
            Some(i) => {
                self.fields.set(i, Field { name, lines });
                assert(self@ =~= old_view.update(i as int, (nm, lv)));
                proof {
                    lemma_field_index_unique(self@, nm, i as int);
                }
                i
            },
            None => {
                let n = self.fields.len();
                self.fields.push(Field { name, lines });
                assert(self@ =~= old_view.push((nm, lv)));
                proof {
                    lemma_field_index_unique(self@, nm, n as int);
                }
                n
            },
        }
    }

    /// Appends a continuation line to the field at position `i`.
    fn push_line(&mut self, i: usize, line: String)
        requires
            i < old(self)@.len(),
        ensures
            final(self)@ == old(self)@.update(
                i as int,
                (old(self)@[i as int].0, old(self)@[i as int].1.push(line@)),
            ),
            unique_names(old(self)@) ==> unique_names(final(self)@),
    {
        let ghost old_view = self@;
        let mut f = self.fields.remove(i);
        assert(f.model() == old_view[i as int]);
        let ghost old_lines = f.lines@;
        f.lines.push(line);
        assert(views(f.lines@) =~= views(old_lines).push(line@));
        self.fields.insert(i, f);
        assert(self@ =~= old_view.update(
            i as int,
            (old_view[i as int].0, old_view[i as int].1.push(line@)),
        ));
    }
}


/// The lexer's state in specifications: the stanzas finished so far, the
/// stanza being read, and the position of the field that continuation lines
/// extend (none after a blank or malformed line).
pub type LexState = (Seq<Seq<FieldModel>>, Seq<FieldModel>, Option<int>);

/// A line that is empty after trimming.
pub open spec fn is_blank(line: Seq<char>) -> bool {
    trim(line).len() == 0
}

/// A line that continues the current field's value.
pub open spec fn is_continuation(line: Seq<char>) -> bool {
    line.len() > 0 && (line[0] == ' ' || line[0] == '\t')
}

/// The first value line of a header: the text after the colon, without one
/// leading space.
pub open spec fn header_value(rest: Seq<char>) -> Seq<char> {
    if rest.len() > 0 && rest[0] == ' ' {
        rest.drop_first()
    } else {
        rest
    }
}

/// The lexer's state after one more line.
pub open spec fn lex_step(st: LexState, line: Seq<char>) -> LexState {
    let (done, cur, field) = st;
    if is_blank(line) {
        (if cur.len() > 0 { done.push(cur) } else { done }, Seq::empty(), None)
    } else if is_continuation(line) {
        match field {
            Some(i) => if 0 <= i < cur.len() {
                (done, cur.update(i, (cur[i].0, cur[i].1.push(line))), field)
            } else {
                st
            },
            None => st,
        }
    } else {
        match first_index(line, ':') {
            None => (done, cur, None),
            Some(k) => {
                let name = line.take(k);
                let cur2 = insert_field(cur, name, seq![header_value(line.skip(k + 1))]);
                (done, cur2, field_index(cur2, name))
            },
        }
    }
}

/// The lexer's state after `lines`.
pub open spec fn lex_all(lines: Seq<Seq<char>>) -> LexState
    decreases lines.len(),
{
    if lines.len() == 0 {
        (Seq::empty(), Seq::empty(), None)
    } else {
        lex_step(lex_all(lines.drop_last()), lines.last())
    }
}

/// The stanzas of a document: blank lines end a stanza, a line starting with
/// a space or tab continues the current field, any other line starts a field
/// at its first colon (or is dropped without one).
pub open spec fn lex(lines: Seq<Seq<char>>) -> Seq<Seq<FieldModel>> {
    let st = lex_all(lines);
    if st.1.len() > 0 {
        st.0.push(st.1)
    } else {
        st.0
    }
}

/// The models of a sequence of stanzas.
pub open spec fn stanza_views(v: Seq<Stanza>) -> Seq<Seq<FieldModel>> {
    v.map_values(|s: Stanza| s@)
}

/// Splits a document into stanzas, as `lex` says. It never fails.
pub fn parse_metadata(content: Vec<String>) -> (r: Result<Vec<Stanza>, RaptoboError>)
    ensures
        r matches Ok(v) && stanza_views(v@) == lex(views(content@)),
        r matches Ok(v) ==> forall|i: int| 0 <= i < v@.len() ==> unique_names(#[trigger] v@[i]@),
{
    let ghost lines = views(content@);
    let mut data: Vec<Stanza> = Vec::new();
    let mut stanza = Stanza::new();
    let mut field: Option<usize> = None;
    let mut i: usize = 0;
    assert(lines.take(0) =~= Seq::<Seq<char>>::empty());
    assert(stanza_views(data@) =~= Seq::<Seq<FieldModel>>::empty());
    while i < content.len()
        invariant
            lines == views(content@),
            i <= content.len(),
            lex_all(lines.take(i as int)) == (stanza_views(data@), stanza@, match field {
                Some(f) => Some(f as int),
                None => None,
            }),
            match field {
                Some(f) => f < stanza@.len(),
                None => true,
            },
            unique_names(stanza@),
            forall|j: int| 0 <= j < data@.len() ==> unique_names(#[trigger] data@[j]@),
        decreases content.len() - i,
    {
        let line = &content[i];
        let ghost l = line@;
        assert(lines.take(i + 1).drop_last() =~= lines.take(i as int));
        assert(lines.take(i + 1).last() == l);
        let cs = chars_of(line.as_str());
        let t = trim_str(line.as_str());
        if t.as_str().is_empty() {
            if !stanza.is_empty() {
                let ghost before = stanza_views(data@);
                data.push(stanza);
                assert(stanza_views(data@) =~= before.push(lex_all(lines.take(i as int)).1));
            }
            stanza = Stanza::new();
            field = None;
        } else if cs.len() > 0 && (cs[0] == ' ' || cs[0] == '\t') {
            match field {
                Some(f) => {
                    stanza.push_line(f, line.clone());
                },
                None => {},
            }
        } else {
            match find_first(&cs, ':') {
                None => {
                    field = None;
                },
                Some(k) => {
                    let name = substring(line.as_str(), 0, k);
                    let start = if k + 1 < cs.len() && cs[k + 1] == ' ' {
                        k + 2
                    } else {
                        k + 1
                    };
                    let value = substring(line.as_str(), start, cs.len());
                    proof {
                        let rest = l.skip(k + 1);
                        assert(name@ =~= l.take(k as int));
                        assert(value@ =~= header_value(rest));
                    }
                    let mut values: Vec<String> = Vec::new();
                    values.push(value);
                    assert(views(values@) =~= seq![header_value(l.skip(k + 1))]);
                    let f = stanza.insert(name, values);
                    field = Some(f);
                },
            }
        }
        i = i + 1;
    }
    assert(lines.take(i as int) =~= lines);
    if !stanza.is_empty() {
        let ghost before = stanza_views(data@);
        data.push(stanza);
        assert(stanza_views(data@) =~= before.push(lex_all(lines).1));
    }
    Ok(data)
}


proof fn lemma_trim_end_keeps(s: Seq<char>, k: int)
    requires
        0 <= k < s.len(),
        !is_white(s[k]),
    ensures
        trim_end(s).len() > k,
    decreases s.len(),
{
    if s.len() > 0 && is_white(s.last()) {
        lemma_trim_end_keeps(s.drop_last(), k);
    }
}

proof fn lemma_trim_start_keeps(s: Seq<char>, k: int)
    requires
        0 <= k < s.len(),
        !is_white(s[k]),
    ensures
        exists|j: int| 0 <= j < trim_start(s).len() && !is_white(#[trigger] trim_start(s)[j]),
    decreases s.len(),
{
    if s.len() > 0 && is_white(s[0]) {
        assert(s.drop_first()[k - 1] == s[k]);
        lemma_trim_start_keeps(s.drop_first(), k - 1);
        let t = trim_start(s.drop_first());
        let j = choose|j: int| 0 <= j < t.len() && !is_white(#[trigger] t[j]);
        assert(trim_start(s) == t);
        assert(!is_white(trim_start(s)[j]));
    } else {
        assert(trim_start(s) == s);
        assert(!is_white(trim_start(s)[k]));
    }
}

/// A line with a character that is not whitespace is not blank.
proof fn lemma_not_blank(s: Seq<char>, k: int)
    requires
        0 <= k < s.len(),
        !is_white(s[k]),
    ensures
        !is_blank(s),
{
    lemma_trim_start_keeps(s, k);
    let j = choose|j: int| 0 <= j < trim_start(s).len() && !is_white(#[trigger] trim_start(s)[j]);
    lemma_trim_end_keeps(trim_start(s), j);
}

/// The `Name: value` line of a field with one value line.
pub open spec fn header_line(f: FieldModel) -> Seq<char> {
    f.0 + seq![':', ' '] + f.1[0]
}

/// A stanza written out as one `Name: value` line per field.
pub open spec fn serialize(s: Seq<FieldModel>) -> Seq<Seq<char>> {
    s.map_values(|f: FieldModel| header_line(f))
}

/// A field name that a header line can carry: no colon, and no leading space
/// or tab.
pub open spec fn valid_name(name: Seq<char>) -> bool {
    &&& forall|j: int| 0 <= j < name.len() ==> name[j] != ':'
    &&& !(name.len() > 0 && (name[0] == ' ' || name[0] == '\t'))
}

proof fn lemma_round_trip_prefix(s: Seq<FieldModel>, k: int)
    requires
        0 <= k <= s.len(),
        unique_names(s),
        forall|i: int| 0 <= i < s.len() ==> (#[trigger] s[i]).1.len() == 1 && valid_name(s[i].0),
    ensures
        lex_all(serialize(s).take(k)) == (Seq::<Seq<FieldModel>>::empty(), s.take(k), if k > 0 {
            Some(k - 1)
        } else {
            None::<int>
        }),
    decreases k,
{
    let lines = serialize(s);
    if k == 0 {
        assert(lines.take(0) =~= Seq::<Seq<char>>::empty());
        assert(s.take(0) =~= Seq::<FieldModel>::empty());
    } else {
        let k0 = k - 1;
        lemma_round_trip_prefix(s, k0);
        let f = s[k0];
        let name = f.0;
        let value = f.1[0];
        let line = header_line(f);
        assert(lines[k0] == line);
        assert(lines.take(k).drop_last() =~= lines.take(k0));
        assert(line[name.len() as int] == ':');
        lemma_not_blank(line, name.len() as int);
        assert(!is_continuation(line)) by {
            if name.len() > 0 {
                assert(line[0] == name[0]);
            }
        }
        assert forall|j: int| 0 <= j < name.len() implies line[j] != ':' by {
            assert(line[j] == name[j]);
        }
        lemma_first_index(line, ':', name.len() as int);
        assert(line.take(name.len() as int) =~= name);
        assert(line.skip(name.len() as int + 1) =~= seq![' '] + value);
        assert(header_value(line.skip(name.len() as int + 1)) =~= value);
        let cur = s.take(k0);
        lemma_field_index(cur, name);
        assert(field_index(cur, name) is None) by {
            if let Some(i) = field_index(cur, name) {
                assert(cur[i] == s[i]);
            }
        }
        assert(f.1 =~= seq![value]);
        assert(cur.push((name, seq![value])) =~= s.take(k));
        assert forall|j: int| 0 <= j < k0 implies s.take(k)[j].0 != name by {
            assert(s.take(k)[j] == s[j]);
        }
        lemma_field_index_unique(s.take(k), name, k0);
    }
}

/// Writing a non-empty stanza of one-line fields with distinct names as
/// `Name: value` lines and lexing those lines gives back the stanza.
pub proof fn lemma_stanza_round_trip(s: Seq<FieldModel>)
    requires
        s.len() > 0,
        unique_names(s),
        forall|i: int| 0 <= i < s.len() ==> (#[trigger] s[i]).1.len() == 1 && valid_name(s[i].0),
    ensures
        lex(serialize(s)) == seq![s],
{
    lemma_round_trip_prefix(s, s.len() as int);
    assert(serialize(s).take(s.len() as int) =~= serialize(s));
    assert(s.take(s.len() as int) =~= s);
}


/// The view of an optional string.
pub open spec fn opt_view(o: Option<String>) -> Option<Seq<char>> {
    match o {
        Some(v) => Some(v@),
        None => None,
    }
}

/// The views of an optional list of strings.
pub open spec fn opt_views(o: Option<Vec<String>>) -> Option<Seq<Seq<char>>> {
    match o {
        Some(v) => Some(views(v@)),
        None => None,
    }
}

/// The list value of field `key` where it is there and not empty.
pub open spec fn nonempty_list(s: Seq<FieldModel>, key: Seq<char>) -> Option<Seq<Seq<char>>> {
    match field_list(s, key) {
        Some(l) => if l.len() > 0 {
            Some(l)
        } else {
            None
        },
        None => None,
    }
}

/// The first line of a value, empty where there is none.
pub open spec fn first_line(lines: Seq<Seq<char>>) -> Seq<char> {
    if lines.len() > 0 {
        lines[0]
    } else {
        Seq::empty()
    }
}

/// The single value of field `key`: its first line, trimmed.
pub open spec fn field_value(s: Seq<FieldModel>, key: Seq<char>) -> Option<Seq<char>> {
    match lookup(s, key) {
        Some(ls) => Some(trim(first_line(ls))),
        None => None,
    }
}

/// The list value of field `key`: its first line split at spaces, each part
/// trimmed, the empty ones left out.
pub open spec fn field_list(s: Seq<FieldModel>, key: Seq<char>) -> Option<Seq<Seq<char>>> {
    match lookup(s, key) {
        Some(ls) => Some(tokens(first_line(ls), Separator::Char(' '))),
        None => None,
    }
}

/// The text value of field `key`: its lines trimmed and joined with `\n`.
pub open spec fn field_text(s: Seq<FieldModel>, key: Seq<char>) -> Option<Seq<char>> {
    match lookup(s, key) {
        Some(ls) => Some(join_lines(trimmed_lines(ls, false))),
        None => None,
    }
}

/// The lines of field `key`, trimmed, the empty ones left out where
/// `filter_empty` holds.
pub open spec fn field_lines(s: Seq<FieldModel>, key: Seq<char>, filter_empty: bool) -> Option<
    Seq<Seq<char>>,
> {
    match lookup(s, key) {
        Some(ls) => Some(trimmed_lines(ls, filter_empty)),
        None => None,
    }
}

/// The error for an absent required field.
fn missing(key: &str) -> (e: RaptoboError)
    ensures
        e.spec_kind() == ErrorKind::MissingField,
{
    let mut msg = String::from_str("field not found: ");
    msg.append(key);
    RaptoboError::with_kind(ErrorKind::MissingField, msg.as_str())
}

/// The first value line, empty where there is none.
fn first_line_of(lines: &Vec<String>) -> (r: &str)
    ensures
        r@ == first_line(views(lines@)),
{
    if lines.len() > 0 {
        lines[0].as_str()
    } else {
        proof {
            reveal_strlit("");
        }
        ""
    }
}

/// The value of field `key`, trimmed; `MissingField` where it is absent.
pub fn stanza_value(key: &str, stanza: &Stanza) -> (r: Result<String, RaptoboError>)
    ensures
        r.is_ok() <==> field_value(stanza@, key@) is Some,
        r matches Ok(v) ==> field_value(stanza@, key@) == Some(v@),
        r matches Err(e) ==> e.spec_kind() == ErrorKind::MissingField,
{
    match stanza.get(key) {
        Some(lines) => Ok(trim_str(first_line_of(lines))),
        None => Err(missing(key)),
    }
}

/// The value of field `key`, trimmed, where it is there.
pub fn stanza_opt_value(key: &str, stanza: &Stanza) -> (r: Option<String>)
    ensures
        opt_view(r) == field_value(stanza@, key@),
{
    match stanza_value(key, stanza) {
        Ok(value) => Some(value),
        Err(_) => None,
    }
}

/// The list value of field `key`; `MissingField` where it is absent.
pub fn stanza_list(key: &str, stanza: &Stanza) -> (r: Result<Vec<String>, RaptoboError>)
    ensures
        r.is_ok() <==> field_list(stanza@, key@) is Some,
        r matches Ok(v) ==> field_list(stanza@, key@) == Some(views(v@)),
        r matches Err(e) ==> e.spec_kind() == ErrorKind::MissingField,
{
    match stanza.get(key) {
        Some(lines) => Ok(tokens_of(first_line_of(lines), Separator::Char(' '))),
        None => Err(missing(key)),
    }
}

/// The list value of field `key`, where it is there and not empty.
pub fn stanza_opt_list(key: &str, stanza: &Stanza) -> (r: Option<Vec<String>>)
    ensures
        opt_views(r) == nonempty_list(stanza@, key@),
{
    let list = match stanza_list(key, stanza) {
        Ok(list) => list,
        Err(_) => return None,
    };
    if list.len() == 0 {
        None
    } else {
        Some(list)
    }
}

/// The lines of field `key`, trimmed, as `field_lines` says; `MissingField`
/// where it is absent.
pub fn stanza_lines(key: &str, stanza: &Stanza, filter_empty: bool) -> (r: Result<
    Vec<String>,
    RaptoboError,
>)
    ensures
        r.is_ok() <==> field_lines(stanza@, key@, filter_empty) is Some,
        r matches Ok(v) ==> field_lines(stanza@, key@, filter_empty) == Some(views(v@)),
        r matches Err(e) ==> e.spec_kind() == ErrorKind::MissingField,
{
    let values = match stanza.get(key) {
        Some(v) => v,
        None => return Err(missing(key)),
    };
    let ghost ls = views(values@);
    let mut out: Vec<String> = Vec::new();
    let mut i: usize = 0;
    assert(ls.take(0) =~= Seq::<Seq<char>>::empty());
    while i < values.len()
        invariant
            i <= values.len(),
            ls == views(values@),
            views(out@) == trimmed_lines(ls.take(i as int), filter_empty),
        decreases values.len() - i,
    {
        assert(ls.take(i + 1).drop_last() =~= ls.take(i as int));
        let t = trim_str(values[i].as_str());
        if !(filter_empty && t.as_str().is_empty()) {
            out.push(t);
        }
        i = i + 1;
        assert(views(out@) =~= trimmed_lines(ls.take(i as int), filter_empty));
    }
    assert(ls.take(i as int) =~= ls);
    Ok(out)
}

/// The text value of field `key`; `MissingField` where it is absent.
pub fn stanza_text(key: &str, stanza: &Stanza) -> (r: Result<String, RaptoboError>)
    ensures
        r.is_ok() <==> field_text(stanza@, key@) is Some,
        r matches Ok(v) ==> field_text(stanza@, key@) == Some(v@),
        r matches Err(e) ==> e.spec_kind() == ErrorKind::MissingField,
{
    let lines = stanza_lines(key, stanza, false)?;
    let ghost ls = views(lines@);
    let mut text = String::new();
    let mut i: usize = 0;
    assert(ls.take(0) =~= Seq::<Seq<char>>::empty());
    while i < lines.len()
        invariant
            i <= lines.len(),
            ls == views(lines@),
            text@ == join_lines(ls.take(i as int)),
        decreases lines.len() - i,
    {
        assert(ls.take(i + 1).drop_last() =~= ls.take(i as int));
        if i > 0 {
            text.append("\n");
            proof {
                reveal_strlit("\n");
            }
        }
        text.append(lines[i].as_str());
        i = i + 1;
        assert(text@ =~= join_lines(ls.take(i as int)));
    }
    assert(ls.take(i as int) =~= ls);
    Ok(text)
}

/// The text value of field `key`, where it is there.
pub fn stanza_opt_text(key: &str, stanza: &Stanza) -> (r: Option<String>)
    ensures
        opt_view(r) == field_text(stanza@, key@),
{
    match stanza_text(key, stanza) {
        Ok(text) => Some(text),
        Err(_) => None,
    }
}


/// A file entry in specifications: hash, size and path.
pub type FileModel = (Seq<char>, u64, Seq<char>);

/// One entry of a checksum field: `<hash> <size> <path>`.
#[derive(Debug, Clone)]
pub struct File {
    pub hash: String,
    pub size: u64,
    pub path: String,
}

impl File {
    pub open spec fn model(&self) -> FileModel {
        (self.hash@, self.size, self.path@)
    }
}

/// The models of a sequence of file entries.
pub open spec fn file_models(v: Seq<File>) -> Seq<FileModel> {
    v.map_values(|f: File| f.model())
}

/// The entry of one line: exactly three whitespace-separated tokens, the
/// second a decimal `u64`.
pub open spec fn file_of_line(l: Seq<char>) -> Option<FileModel> {
    let t = tokens(l, Separator::Whitespace);
    if t.len() == 3 && decimal_u64(t[1]) is Some {
        Some((t[0], decimal_u64(t[1])->0, t[2]))
    } else {
        None
    }
}

/// The entries of all lines, `None` where one line is malformed.
pub open spec fn files_of_lines(ls: Seq<Seq<char>>) -> Option<Seq<FileModel>>
    decreases ls.len(),
{
    if ls.len() == 0 {
        Some(Seq::empty())
    } else {
        match (files_of_lines(ls.drop_last()), file_of_line(ls.last())) {
            (Some(fs), Some(f)) => Some(fs.push(f)),
            _ => None,
        }
    }
}

/// The entries of field `key`, `None` where it is absent or malformed.
pub open spec fn field_files(s: Seq<FieldModel>, key: Seq<char>) -> Option<Seq<FileModel>> {
    match lookup(s, key) {
        Some(ls) => files_of_lines(trimmed_lines(ls, true)),
        None => None,
    }
}

/// The entries of field `key` where there is at least one.
pub open spec fn nonempty_files(s: Seq<FieldModel>, key: Seq<char>) -> Option<Seq<FileModel>> {
    match field_files(s, key) {
        Some(fs) => if fs.len() > 0 {
            Some(fs)
        } else {
            None
        },
        None => None,
    }
}

/// The models of an optional list of entries.
pub open spec fn opt_file_models(o: Option<Vec<File>>) -> Option<Seq<FileModel>> {
    match o {
        Some(v) => Some(file_models(v@)),
        None => None,
    }
}

/// A malformed line makes every longer list of lines malformed.
proof fn lemma_files_of_lines_prefix(ls: Seq<Seq<char>>, k: int)
    requires
        0 <= k <= ls.len(),
        files_of_lines(ls.take(k)) is None,
    ensures
        files_of_lines(ls) is None,
    decreases ls.len() - k,
{
    if k < ls.len() {
        assert(ls.take(k + 1).drop_last() =~= ls.take(k));
        lemma_files_of_lines_prefix(ls, k + 1);
    } else {
        assert(ls.take(k) =~= ls);
    }
}

/// The entries of field `key`, one per non-empty line. `MissingField` where
/// the field is absent, `MalformedFiles` where a line does not hold exactly
/// three tokens or its size is no decimal `u64`. Every path holds no whitespace.
pub fn stanza_files(key: &str, stanza: &Stanza) -> (r: Result<Vec<File>, RaptoboError>)
    ensures
        match lookup(stanza@, key@) {
            None => r matches Err(e) && e.spec_kind() == ErrorKind::MissingField,
            Some(ls) => match files_of_lines(trimmed_lines(ls, true)) {
                Some(fs) => r matches Ok(v) && file_models(v@) == fs,
                None => r matches Err(e) && e.spec_kind() == ErrorKind::MalformedFiles,
            },
        },
        r matches Ok(v) ==> forall|i: int, j: int|
            0 <= i < v@.len() && 0 <= j < v@[i].path@.len() ==> !is_white(
                #[trigger] v@[i].path@[j],
            ),
{
    let lines = stanza_lines(key, stanza, true)?;
    let ghost ls = views(lines@);
    let mut files: Vec<File> = Vec::new();
    let mut i: usize = 0;
    assert(ls.take(0) =~= Seq::<Seq<char>>::empty());
    assert(file_models(files@) =~= Seq::<FileModel>::empty());
    while i < lines.len()
        invariant
            i <= lines.len(),
            ls == views(lines@),
            field_lines(stanza@, key@, true) == Some(ls),
            files_of_lines(ls.take(i as int)) == Some(file_models(files@)),
            forall|a: int, b: int|
                0 <= a < files@.len() && 0 <= b < files@[a].path@.len() ==> !is_white(
                    #[trigger] files@[a].path@[b],
                ),
        decreases lines.len() - i,
    {
        assert(ls.take(i + 1).drop_last() =~= ls.take(i as int));
        let line = lines[i].as_str();
        let parts = tokens_of(line, Separator::Whitespace);
        proof {
            lemma_whitespace_tokens(line@);
        }
        if parts.len() != 3 {
            proof {
                lemma_files_of_lines_prefix(ls, i + 1);
            }
            return Err(
                RaptoboError::with_kind(
                    ErrorKind::MalformedFiles,
                    "file entry does not have three parts",
                ),
            );
        }
        let size_chars = chars_of(parts[1].as_str());
        assert(size_chars@.subrange(0, size_chars@.len() as int) =~= size_chars@);
        let size = match parse_u64_range(&size_chars, 0, size_chars.len()) {
            Some(n) => n,
            None => {
                proof {
                    lemma_files_of_lines_prefix(ls, i + 1);
                }
                return Err(
                    RaptoboError::with_kind(
                        ErrorKind::MalformedFiles,
                        "file entry has a size that is not a number",
                    ),
                );
            },
        };
        let hash = parts[0].clone();
        let path = parts[2].clone();
        let ghost before = file_models(files@);
        files.push(File { hash, size, path });
        assert(file_models(files@) =~= before.push(file_of_line(ls[i as int])->0));
        i = i + 1;
    }
    assert(ls.take(i as int) =~= ls);
    Ok(files)
}

/// The entries of field `key`, where `stanza_files` succeeds with at least one.
pub fn stanza_opt_files(key: &str, stanza: &Stanza) -> (r: Option<Vec<File>>)
    ensures
        opt_file_models(r) == nonempty_files(stanza@, key@),
{
    match stanza_files(key, stanza) {
        Ok(files) => {
            if files.len() == 0 {
                None
            } else {
                Some(files)
            }
        },
        Err(_) => None,
    }
}

/// A point in time as plain values: seconds since the Unix epoch and the
/// offset east of UTC, in seconds, that it was written with.
#[derive(Debug, Clone, Copy, PartialEq, Eq, Structural)]
pub struct DateStamp {
    pub timestamp: i64,
    pub utc_offset: i32,
}

/// What an RFC 2822 date text denotes, as seconds since the epoch and the
/// offset in seconds; `None` where the text is no such date.
pub uninterp spec fn rfc2822_of(s: Seq<char>) -> Option<(i64, i32)>;

/// The date of field `key`, where it is there and reads as RFC 2822.
pub open spec fn field_date(s: Seq<FieldModel>, key: Seq<char>) -> Option<DateStamp> {
    match field_value(s, key) {
        None => None,
        Some(v) => match rfc2822_of(v) {
            None => None,
            Some(p) => Some(DateStamp { timestamp: p.0, utc_offset: p.1 }),
        },
    }
}

/// Relies on chrono's `DateTime::parse_from_rfc2822`, whose result depends on
/// the text alone, and on `DateTime::timestamp` and
/// `FixedOffset::local_minus_utc` to read it out; chrono keeps an offset
/// strictly within one day.
#[verifier::external_body]
fn parse_rfc2822(s: &str) -> (r: Option<(i64, i32)>)
    ensures
        r == rfc2822_of(s@),
        r matches Some(p) ==> -86400 < p.1 < 86400,
{
    match chrono::DateTime::parse_from_rfc2822(s) {
        Ok(d) => Some((d.timestamp(), d.offset().local_minus_utc())),
        Err(_) => None,
    }
}

/// The date of field `key` read as RFC 2822, where the field is there and
/// parses.
pub fn stanza_date(key: &str, stanza: &Stanza) -> (r: Option<DateStamp>)
    ensures
        r == field_date(stanza@, key@),
        r matches Some(d) ==> -86400 < d.utc_offset < 86400,
{
    let value = match stanza_value(key, stanza) {
        Ok(v) => v,
        Err(_) => return None,
    };
    match parse_rfc2822(value.as_str()) {
        Some((timestamp, utc_offset)) => Some(DateStamp { timestamp, utc_offset }),
        None => None,
    }
}

} // verus!
