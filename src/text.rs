//! Character-level helpers: whitespace, trimming, splitting and decimal numbers,
//! each stated over `Seq<char>`.
use vstd::prelude::*;

verus! {

/// Unicode `White_Space`, the set that `char::is_whitespace` and `str::trim` use.
pub open spec fn is_white(c: char) -> bool {
    ('\u{9}' <= c <= '\u{d}') || c == ' ' || c == '\u{85}' || c == '\u{a0}' || c == '\u{1680}'
        || ('\u{2000}' <= c <= '\u{200a}') || c == '\u{2028}' || c == '\u{2029}'
        || c == '\u{202f}' || c == '\u{205f}' || c == '\u{3000}'
}

/// Executable form of `is_white`.
pub fn is_white_char(c: char) -> (r: bool)
    ensures
        r == is_white(c),
{
    ('\u{9}' <= c && c <= '\u{d}') || c == ' ' || c == '\u{85}' || c == '\u{a0}' || c == '\u{1680}'
        || ('\u{2000}' <= c && c <= '\u{200a}') || c == '\u{2028}' || c == '\u{2029}'
        || c == '\u{202f}' || c == '\u{205f}' || c == '\u{3000}'
}

/// `s` without its leading whitespace.
pub open spec fn trim_start(s: Seq<char>) -> Seq<char>
    decreases s.len(),
{
    if s.len() > 0 && is_white(s[0]) {
        trim_start(s.drop_first())
    } else {
        s
    }
}

/// `s` without its trailing whitespace.
pub open spec fn trim_end(s: Seq<char>) -> Seq<char>
    decreases s.len(),
{
    if s.len() > 0 && is_white(s.last()) {
        trim_end(s.drop_last())
    } else {
        s
    }
}

/// `s` without surrounding whitespace.
pub open spec fn trim(s: Seq<char>) -> Seq<char> {
    trim_end(trim_start(s))
}

/// The characters of `s`, in order.
pub fn chars_of(s: &str) -> (r: Vec<char>)
    ensures
        r@ == s@,
{
    let mut r: Vec<char> = Vec::new();
    for c in it: s.chars()
        invariant
            r@ == it.seq().take(it.index() as int),
            it.seq() == s@,
    {
        r.push(c);
    }
    r
}


/// The views of a sequence of strings.
pub open spec fn views(v: Seq<String>) -> Seq<Seq<char>> {
    v.map_values(|x: String| x@)
}

/// Where a string is cut when it is split.
#[derive(Debug, Clone, Copy, PartialEq, Eq, Structural)]
pub enum Separator {
    /// At every occurrence of this character.
    Char(char),
    /// At every whitespace character.
    Whitespace,
}

/// Whether `c` separates pieces under `sep`.
pub open spec fn is_sep(sep: Separator, c: char) -> bool {
    match sep {
        Separator::Char(d) => c == d,
        Separator::Whitespace => is_white(c),
    }
}

/// The pieces of `s` between separators, empty pieces included, as `str::split`
/// gives them: `n` separators give `n + 1` pieces.
pub open spec fn split_by(s: Seq<char>, sep: Separator) -> Seq<Seq<char>>
    decreases s.len(),
{
    if s.len() == 0 {
        seq![Seq::empty()]
    } else {
        let prev = split_by(s.drop_last(), sep);
        if is_sep(sep, s.last()) {
            prev.push(Seq::empty())
        } else {
            prev.drop_last().push(prev.last().push(s.last()))
        }
    }
}

/// Each piece trimmed, the empty ones left out.
pub open spec fn trimmed_nonempty(pieces: Seq<Seq<char>>) -> Seq<Seq<char>>
    decreases pieces.len(),
{
    if pieces.len() == 0 {
        Seq::empty()
    } else {
        let rest = trimmed_nonempty(pieces.drop_last());
        let t = trim(pieces.last());
        if t.len() > 0 {
            rest.push(t)
        } else {
            rest
        }
    }
}

/// The non-empty trimmed pieces of `s` under `sep`.
pub open spec fn tokens(s: Seq<char>, sep: Separator) -> Seq<Seq<char>> {
    trimmed_nonempty(split_by(s, sep))
}

/// A split has at least one piece.
pub proof fn lemma_split_by_nonempty(s: Seq<char>, sep: Separator)
    ensures
        split_by(s, sep).len() >= 1,
    decreases s.len(),
{
    if s.len() > 0 {
        lemma_split_by_nonempty(s.drop_last(), sep);
    }
}

/// Executable form of `is_sep`.
fn is_sep_char(sep: Separator, c: char) -> (r: bool)
    ensures
        r == is_sep(sep, c),
{
    match sep {
        Separator::Char(d) => c == d,
        Separator::Whitespace => is_white_char(c),
    }
}

/// The part of `s` between character positions `from` and `to`, as a `String`.
pub fn substring(s: &str, from: usize, to: usize) -> (r: String)
    requires
        from <= to <= s@.len(),
    ensures
        r@ == s@.subrange(from as int, to as int),
{
    s.substring_char(from, to).to_owned()
}

/// The bounds of `trim(cs[lo..hi])` within `cs`.
fn trim_range(cs: &Vec<char>, lo: usize, hi: usize) -> (r: (usize, usize))
    requires
        lo <= hi <= cs.len(),
    ensures
        lo <= r.0 <= r.1 <= hi,
        cs@.subrange(r.0 as int, r.1 as int) == trim(cs@.subrange(lo as int, hi as int)),
{
    let mut a = lo;
    while a < hi && is_white_char(cs[a])
        invariant
            lo <= a <= hi <= cs.len(),
            trim_start(cs@.subrange(lo as int, hi as int)) == trim_start(
                cs@.subrange(a as int, hi as int),
            ),
        decreases hi - a,
    {
        assert(cs@.subrange(a as int, hi as int).drop_first() =~= cs@.subrange(
            a + 1,
            hi as int,
        ));
        a = a + 1;
    }
    let mut b = hi;
    while b > a && is_white_char(cs[b - 1])
        invariant
            lo <= a <= b <= hi <= cs.len(),
            trim_end(cs@.subrange(a as int, hi as int)) == trim_end(
                cs@.subrange(a as int, b as int),
            ),
        decreases b - a,
    {
        assert(cs@.subrange(a as int, b as int).drop_last() =~= cs@.subrange(
            a as int,
            b - 1,
        ));
        b = b - 1;
    }
    (a, b)
}

/// `s` without surrounding whitespace.
pub fn trim_str(s: &str) -> (r: String)
    ensures
        r@ == trim(s@),
{
    let cs = chars_of(s);
    let (a, b) = trim_range(&cs, 0, cs.len());
    assert(cs@.subrange(0, cs@.len() as int) =~= cs@);
    substring(s, a, b)
}

/// The pieces of `s` under `sep`.
pub fn split_str(s: &str, sep: Separator) -> (r: Vec<String>)
    ensures
        views(r@) == split_by(s@, sep),
{
    let cs = chars_of(s);
    let mut pieces: Vec<String> = Vec::new();
    let mut start: usize = 0;
    let mut i: usize = 0;
    assert(cs@.take(0) =~= Seq::<char>::empty());
    assert(views(pieces@).push(cs@.subrange(0, 0)) =~~= seq![Seq::<char>::empty()]);
    while i < cs.len()
        invariant
            cs@ == s@,
            start <= i <= cs.len(),
            split_by(cs@.take(i as int), sep) == views(pieces@).push(
                cs@.subrange(start as int, i as int),
            ),
        decreases cs.len() - i,
    {
        let ghost prev = split_by(cs@.take(i as int), sep);
        let ghost old_views = views(pieces@);
        assert(cs@.take(i + 1).drop_last() =~= cs@.take(i as int));
        assert(cs@.take(i + 1).last() == cs@[i as int]);
        let ghost next = split_by(cs@.take(i + 1), sep);
        if is_sep_char(sep, cs[i]) {
            let piece = substring(s, start, i);
            pieces.push(piece);
            start = i + 1;
            assert(views(pieces@) =~~= old_views.push(piece@));
            assert(next =~~= views(pieces@).push(cs@.subrange(start as int, i + 1)));
        } else {
            assert(cs@.subrange(start as int, i + 1) =~= cs@.subrange(start as int, i as int).push(
                cs@[i as int],
            ));
            assert(prev.drop_last() =~~= old_views);
            assert(next =~~= views(pieces@).push(cs@.subrange(start as int, i + 1)));
        }
        i = i + 1;
    }
    let last = substring(s, start, i);
    pieces.push(last);
    assert(cs@.take(i as int) =~= cs@);
    assert(views(pieces@) =~~= split_by(s@, sep));
    pieces
}

/// The non-empty trimmed pieces of `s` under `sep`.
pub fn tokens_of(s: &str, sep: Separator) -> (r: Vec<String>)
    ensures
        views(r@) == tokens(s@, sep),
{
    let pieces = split_str(s, sep);
    let mut out: Vec<String> = Vec::new();
    let mut i: usize = 0;
    while i < pieces.len()
        invariant
            i <= pieces.len(),
            views(pieces@) == split_by(s@, sep),
            views(out@) == trimmed_nonempty(views(pieces@).take(i as int)),
        decreases pieces.len() - i,
    {
        assert(views(pieces@).take(i + 1).drop_last() =~= views(pieces@).take(i as int));
        let t = trim_str(pieces[i].as_str());
        if !t.as_str().is_empty() {
            out.push(t);
        }
        i = i + 1;
        assert(views(out@) =~= trimmed_nonempty(views(pieces@).take(i as int)));
    }
    assert(views(pieces@).take(i as int) =~= views(pieces@));
    out
}


/// An ASCII decimal digit.
pub open spec fn is_digit(c: char) -> bool {
    '0' <= c <= '9'
}

/// The value of a digit character.
pub open spec fn digit_value(c: char) -> nat {
    ((c as u32) - ('0' as u32)) as nat
}

/// Whether every character of `s` is a digit.
pub open spec fn all_digits(s: Seq<char>) -> bool {
    forall|i: int| 0 <= i < s.len() ==> is_digit(#[trigger] s[i])
}

/// The value of a run of digits, read in base 10.
pub open spec fn digits_value(s: Seq<char>) -> nat
    decreases s.len(),
{
    if s.len() == 0 {
        0
    } else {
        digits_value(s.drop_last()) * 10 + digit_value(s.last())
    }
}

/// `s` without one leading `+`.
pub open spec fn unsigned_part(s: Seq<char>) -> Seq<char> {
    if s.len() > 0 && s[0] == '+' {
        s.drop_first()
    } else {
        s
    }
}

/// What `str::parse::<u64>` gives: an optional `+`, then one or more digits
/// whose value fits.
pub open spec fn decimal_u64(s: Seq<char>) -> Option<u64> {
    let d = unsigned_part(s);
    if d.len() > 0 && all_digits(d) && digits_value(d) <= u64::MAX {
        Some(digits_value(d) as u64)
    } else {
        None
    }
}

/// A longer run of digits is worth at least as much as its prefixes.
pub proof fn lemma_digits_value_prefix(s: Seq<char>, k: int)
    requires
        0 <= k <= s.len(),
        all_digits(s),
    ensures
        digits_value(s.take(k)) <= digits_value(s),
    decreases s.len(),
{
    if k < s.len() {
        assert(s.drop_last().take(k) =~= s.take(k));
        assert(all_digits(s.drop_last()));
        lemma_digits_value_prefix(s.drop_last(), k);
    } else {
        assert(s.take(k) =~= s);
    }
}

/// Executable form of `is_digit`.
pub fn is_digit_char(c: char) -> (r: bool)
    ensures
        r == is_digit(c),
{
    '0' <= c && c <= '9'
}

/// `decimal_u64` of `cs[lo..hi]`.
pub fn parse_u64_range(cs: &Vec<char>, lo: usize, hi: usize) -> (r: Option<u64>)
    requires
        lo <= hi <= cs.len(),
    ensures
        r == decimal_u64(cs@.subrange(lo as int, hi as int)),
{
    let ghost s = cs@.subrange(lo as int, hi as int);
    let mut i = lo;
    if i < hi && cs[i] == '+' {
        i = i + 1;
    }
    let ghost d = cs@.subrange(i as int, hi as int);
    assert(unsigned_part(s) =~= d);
    if i == hi {
        return None;
    }
    let mut v: u64 = 0;
    let mut j = i;
    assert(cs@.subrange(i as int, i as int) =~= Seq::<char>::empty());
    while j < hi
        invariant
            lo <= i <= j <= hi <= cs.len(),
            d == cs@.subrange(i as int, hi as int),
            unsigned_part(s) == d,
            s == cs@.subrange(lo as int, hi as int),
            v == digits_value(cs@.subrange(i as int, j as int)),
            all_digits(cs@.subrange(i as int, j as int)),
        decreases hi - j,
    {
        let c = cs[j];
        let ghost next = cs@.subrange(i as int, j + 1);
        assert(next.drop_last() =~= cs@.subrange(i as int, j as int));
        assert(d[j - i] == c);
        if !is_digit_char(c) {
            return None;
        }
        let dv = ((c as u32) - ('0' as u32)) as u64;
        assert(d.take(j + 1 - i) =~= next);
        let m = v.checked_mul(10);
        if m.is_none() {
            proof {
                if all_digits(d) {
                    lemma_digits_value_prefix(d, j + 1 - i);
                }
            }
            return None;
        }
        let n = m.unwrap().checked_add(dv);
        if n.is_none() {
            proof {
                if all_digits(d) {
                    lemma_digits_value_prefix(d, j + 1 - i);
                }
            }
            return None;
        }
        v = n.unwrap();
        j = j + 1;
    }
    assert(cs@.subrange(i as int, j as int) =~= d);
    Some(v)
}

/// The position of the first `c` in `s`.
pub open spec fn first_index(s: Seq<char>, c: char) -> Option<int>
    decreases s.len(),
{
    if s.len() == 0 {
        None
    } else if s[0] == c {
        Some(0)
    } else {
        match first_index(s.drop_first(), c) {
            Some(k) => Some(k + 1),
            None => None,
        }
    }
}

/// The position of the last `c` in `s`.
pub open spec fn last_index(s: Seq<char>, c: char) -> Option<int>
    decreases s.len(),
{
    if s.len() == 0 {
        None
    } else if s.last() == c {
        Some(s.len() - 1)
    } else {
        last_index(s.drop_last(), c)
    }
}

/// `first_index` is the first position holding `c`, or `None` where there is none.
pub proof fn lemma_first_index(s: Seq<char>, c: char, k: int)
    requires
        0 <= k <= s.len(),
        forall|j: int| 0 <= j < k ==> s[j] != c,
    ensures
        k < s.len() && s[k] == c ==> first_index(s, c) == Some(k),
        k == s.len() ==> first_index(s, c) is None,
    decreases k,
{
    if k > 0 {
        lemma_first_index(s.drop_first(), c, k - 1);
    }
}

/// `last_index` is the last position holding `c`, or `None` where there is none.
pub proof fn lemma_last_index(s: Seq<char>, c: char, k: int)
    requires
        -1 <= k < s.len(),
        forall|j: int| k < j < s.len() ==> s[j] != c,
    ensures
        k >= 0 && s[k] == c ==> last_index(s, c) == Some(k),
        k == -1 ==> last_index(s, c) is None,
    decreases s.len(),
{
    if s.len() > 0 && k < s.len() - 1 {
        lemma_last_index(s.drop_last(), c, k);
    }
}

/// The position of the first `c` in `cs`.
pub fn find_first(cs: &Vec<char>, c: char) -> (r: Option<usize>)
    ensures
        match r {
            Some(k) => first_index(cs@, c) == Some(k as int) && k < cs.len(),
            None => first_index(cs@, c) is None,
        },
{
    let mut i: usize = 0;
    while i < cs.len()
        invariant
            i <= cs.len(),
            forall|j: int| 0 <= j < i ==> cs@[j] != c,
        decreases cs.len() - i,
    {
        if cs[i] == c {
            proof {
                lemma_first_index(cs@, c, i as int);
            }
            return Some(i);
        }
        i = i + 1;
    }
    proof {
        lemma_first_index(cs@, c, i as int);
    }
    None
}

/// The position of the last `c` in `cs` at or after `lo`.
pub fn find_last(cs: &Vec<char>, lo: usize, c: char) -> (r: Option<usize>)
    requires
        lo <= cs.len(),
    ensures
        match r {
            Some(k) => last_index(cs@.skip(lo as int), c) == Some(k - lo) && lo <= k < cs.len(),
            None => last_index(cs@.skip(lo as int), c) is None,
        },
{
    let ghost s = cs@.skip(lo as int);
    let mut i: usize = cs.len();
    while i > lo
        invariant
            lo <= i <= cs.len(),
            s == cs@.skip(lo as int),
            forall|j: int| i - lo <= j < s.len() ==> s[j] != c,
        decreases i,
    {
        if cs[i - 1] == c {
            proof {
                lemma_last_index(s, c, i - 1 - lo);
            }
            return Some(i - 1);
        }
        i = i - 1;
    }
    proof {
        lemma_last_index(s, c, -1);
    }
    None
}


/// Every piece of a split holds no separator.
pub proof fn lemma_split_by_pieces(s: Seq<char>, sep: Separator)
    ensures
        forall|i: int, j: int|
            0 <= i < split_by(s, sep).len() && 0 <= j < split_by(s, sep)[i].len() ==> !is_sep(
                sep,
                #[trigger] split_by(s, sep)[i][j],
            ),
    decreases s.len(),
{
    lemma_split_by_nonempty(s, sep);
    if s.len() > 0 {
        let prev = split_by(s.drop_last(), sep);
        lemma_split_by_pieces(s.drop_last(), sep);
        lemma_split_by_nonempty(s.drop_last(), sep);
        let cur = split_by(s, sep);
        assert forall|i: int, j: int| 0 <= i < cur.len() && 0 <= j < cur[i].len() implies !is_sep(
            sep,
            #[trigger] cur[i][j],
        ) by {
            if i < prev.len() - 1 {
                assert(cur[i] == prev[i]);
            } else if !is_sep(sep, s.last()) && i == prev.len() - 1 {
                assert(cur[i] == prev.last().push(s.last()));
                if j < prev.last().len() {
                    assert(cur[i][j] == prev[i][j]);
                }
            }
        }
    }
}

/// A string without whitespace is its own trim.
pub proof fn lemma_trim_no_white(p: Seq<char>)
    requires
        forall|j: int| 0 <= j < p.len() ==> !is_white(#[trigger] p[j]),
    ensures
        trim(p) == p,
{
    assert(trim_start(p) == p);
}

/// Where no piece holds whitespace, no token does.
pub proof fn lemma_trimmed_nonempty_no_white(pieces: Seq<Seq<char>>)
    requires
        forall|i: int, j: int|
            0 <= i < pieces.len() && 0 <= j < pieces[i].len() ==> !is_white(#[trigger] pieces[i][j]),
    ensures
        forall|i: int, j: int|
            0 <= i < trimmed_nonempty(pieces).len() && 0 <= j < trimmed_nonempty(pieces)[i].len()
                ==> !is_white(#[trigger] trimmed_nonempty(pieces)[i][j]),
    decreases pieces.len(),
{
    if pieces.len() > 0 {
        let rest = pieces.drop_last();
        assert forall|i: int, j: int| 0 <= i < rest.len() && 0 <= j < rest[i].len() implies !is_white(
            #[trigger] rest[i][j],
        ) by {
            assert(rest[i] == pieces[i]);
        }
        lemma_trimmed_nonempty_no_white(rest);
        let last = pieces.last();
        assert forall|j: int| 0 <= j < last.len() implies !is_white(#[trigger] last[j]) by {
            assert(last[j] == pieces[pieces.len() - 1][j]);
        }
        lemma_trim_no_white(last);
        let r = trimmed_nonempty(pieces);
        assert forall|i: int, j: int| 0 <= i < r.len() && 0 <= j < r[i].len() implies !is_white(
            #[trigger] r[i][j],
        ) by {
            if i < trimmed_nonempty(rest).len() {
                assert(r[i] == trimmed_nonempty(rest)[i]);
            }
        }
    }
}

/// Whitespace tokens hold no whitespace.
pub proof fn lemma_whitespace_tokens(s: Seq<char>)
    ensures
        forall|i: int, j: int|
            0 <= i < tokens(s, Separator::Whitespace).len() && 0 <= j < tokens(
                s,
                Separator::Whitespace,
            )[i].len() ==> !is_white(#[trigger] tokens(s, Separator::Whitespace)[i][j]),
{
    lemma_split_by_pieces(s, Separator::Whitespace);
    lemma_trimmed_nonempty_no_white(split_by(s, Separator::Whitespace));
}

/// `ls` joined with `\n` between lines.
pub open spec fn join_lines(ls: Seq<Seq<char>>) -> Seq<char>
    decreases ls.len(),
{
    if ls.len() == 0 {
        Seq::empty()
    } else if ls.len() == 1 {
        ls[0]
    } else {
        join_lines(ls.drop_last()) + seq!['\n'] + ls.last()
    }
}

/// Each line trimmed, the empty ones left out where `filter_empty` holds.
pub open spec fn trimmed_lines(ls: Seq<Seq<char>>, filter_empty: bool) -> Seq<Seq<char>>
    decreases ls.len(),
{
    if ls.len() == 0 {
        Seq::empty()
    } else {
        let rest = trimmed_lines(ls.drop_last(), filter_empty);
        let t = trim(ls.last());
        if filter_empty && t.len() == 0 {
            rest
        } else {
            rest.push(t)
        }
    }
}


/// `ps` joined with `sep` between pieces.
pub open spec fn join_with(ps: Seq<Seq<char>>, sep: char) -> Seq<char>
    decreases ps.len(),
{
    if ps.len() == 0 {
        Seq::empty()
    } else if ps.len() == 1 {
        ps[0]
    } else {
        join_with(ps.drop_last(), sep) + seq![sep] + ps.last()
    }
}

proof fn lemma_split_append(x: Seq<char>, y: Seq<char>, c: char)
    requires
        forall|j: int| 0 <= j < y.len() ==> y[j] != c,
    ensures
        split_by(x + seq![c] + y, Separator::Char(c)) == split_by(x, Separator::Char(c)).push(y),
    decreases y.len(),
{
    let sep = Separator::Char(c);
    if y.len() == 0 {
        assert(x + seq![c] + y =~= x.push(c));
        assert((x + seq![c] + y).drop_last() =~= x);
        assert((x + seq![c] + y).last() == c);
        assert(y =~= Seq::<char>::empty());
    } else {
        let y0 = y.drop_last();
        assert(y[y.len() - 1] != c);
        assert((x + seq![c] + y).last() == y.last());
        lemma_split_append(x, y0, c);
        assert((x + seq![c] + y).drop_last() =~= x + seq![c] + y0);
        assert(split_by(x + seq![c] + y, sep) =~~= split_by(x, sep).push(y0).drop_last().push(
            y0.push(y.last()),
        ));
        assert(y0.push(y.last()) =~= y);
        assert(split_by(x, sep).push(y0).drop_last() =~= split_by(x, sep));
    }
}

proof fn lemma_split_single(y: Seq<char>, c: char)
    requires
        forall|j: int| 0 <= j < y.len() ==> y[j] != c,
    ensures
        split_by(y, Separator::Char(c)) == seq![y],
    decreases y.len(),
{
    if y.len() == 0 {
        assert(split_by(y, Separator::Char(c)) =~~= seq![y]);
    } else {
        lemma_split_single(y.drop_last(), c);
        assert(y.drop_last().push(y.last()) =~= y);
        assert(split_by(y, Separator::Char(c)) =~~= seq![y]);
    }
}

/// Splitting pieces joined by `c`, none holding `c`, gives back the pieces.
pub proof fn lemma_split_join(ps: Seq<Seq<char>>, c: char)
    requires
        ps.len() > 0,
        forall|i: int, j: int| 0 <= i < ps.len() && 0 <= j < ps[i].len() ==> #[trigger] ps[i][j] != c,
    ensures
        split_by(join_with(ps, c), Separator::Char(c)) == ps,
    decreases ps.len(),
{
    if ps.len() == 1 {
        assert forall|j: int| 0 <= j < ps[0].len() implies ps[0][j] != c by {
            assert(ps[0][j] != c);
        }
        lemma_split_single(ps[0], c);
        assert(seq![ps[0]] =~= ps);
    } else {
        let rest = ps.drop_last();
        assert forall|i: int, j: int| 0 <= i < rest.len() && 0 <= j < rest[i].len() implies #[trigger] rest[i][j] != c by {
            assert(rest[i] == ps[i]);
        }
        lemma_split_join(rest, c);
        let last = ps.last();
        assert forall|j: int| 0 <= j < last.len() implies last[j] != c by {
            assert(last[j] == ps[ps.len() - 1][j]);
        }
        lemma_split_append(join_with(rest, c), last, c);
        assert(rest.push(last) =~= ps);
    }
}

} // verus!
