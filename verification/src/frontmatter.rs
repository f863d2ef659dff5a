//! The frontmatter layer of a post file: splitting the raw text on the
//! `---` delimiter into frontmatter block and body, and parsing the
//! block as a line-oriented `key: value` document into the post
//! metadata fields.

use vstd::prelude::*;

use crate::date::{parse_date_spec, Date};
use crate::text::{append_range, chars_eq_str, subrange_chars};

verus! {

// ---------------------------------------------------------------------
// Finding the `---` delimiter and single characters.
// ---------------------------------------------------------------------
/// The three-character delimiter `---` starts at position `i`.
pub open spec fn delim_at(s: Seq<char>, i: int) -> bool {
    &&& 0 <= i
    &&& i + 3 <= s.len()
    &&& s[i] == '-'
    &&& s[i + 1] == '-'
    &&& s[i + 2] == '-'
}

pub open spec fn no_delim_in(s: Seq<char>, lo: int, hi: int) -> bool {
    forall|k: int| lo <= k < hi ==> !delim_at(s, k)
}

/// The position of the first delimiter at or after `from`.
pub open spec fn first_delim_from(s: Seq<char>, from: int) -> Option<int>
    decreases s.len() - from,
{
    if from + 3 > s.len() {
        None
    } else if delim_at(s, from) {
        Some(from)
    } else {
        first_delim_from(s, from + 1)
    }
}

proof fn lemma_first_delim_some(s: Seq<char>, from: int, i: int)
    requires
        0 <= from <= i,
        delim_at(s, i),
        no_delim_in(s, from, i),
    ensures
        first_delim_from(s, from) == Some(i),
    decreases i - from,
{
    if from < i {
        lemma_first_delim_some(s, from + 1, i);
    }
}

proof fn lemma_first_delim_none(s: Seq<char>, from: int)
    requires
        0 <= from,
        no_delim_in(s, from, s.len() as int),
    ensures
        first_delim_from(s, from) is None,
    decreases s.len() - from,
{
    if from + 3 <= s.len() {
        lemma_first_delim_none(s, from + 1);
    }
}

/// Find the first `---` at or after `from`.
pub fn find_delim(v: &Vec<char>, from: usize) -> (r: Option<usize>)
    requires
        from <= v@.len(),
    ensures
        match r {
            Some(i) => from <= i && i + 3 <= v@.len() && first_delim_from(v@, from as int)
                == Some(i as int),
            None => first_delim_from(v@, from as int) is None,
        },
{
    let n = v.len();
    let mut i: usize = from;
    loop
        invariant
            from <= i <= n == v@.len(),
            no_delim_in(v@, from as int, i as int),
        decreases n - i,
    {
        if n - i < 3 {
            proof {
                assert(no_delim_in(v@, from as int, v@.len() as int));
                lemma_first_delim_none(v@, from as int);
            }
            return None;
        }
        if v[i] == '-' && v[i + 1] == '-' && v[i + 2] == '-' {
            proof {
                lemma_first_delim_some(v@, from as int, i as int);
            }
            return Some(i);
        }
        i += 1;
    }
}

/// The position of the first occurrence of `c` at or after `from`.
pub open spec fn first_char_from(s: Seq<char>, from: int, c: char) -> Option<int>
    decreases s.len() - from,
{
    if from + 1 > s.len() {
        None
    } else if s[from] == c {
        Some(from)
    } else {
        first_char_from(s, from + 1, c)
    }
}

pub open spec fn no_char_in(s: Seq<char>, lo: int, hi: int, c: char) -> bool {
    forall|k: int| lo <= k < hi ==> s[k] != c
}

proof fn lemma_first_char_some(s: Seq<char>, from: int, c: char, i: int)
    requires
        0 <= from <= i < s.len(),
        s[i] == c,
        no_char_in(s, from, i, c),
    ensures
        first_char_from(s, from, c) == Some(i),
    decreases i - from,
{
    if from < i {
        lemma_first_char_some(s, from + 1, c, i);
    }
}

proof fn lemma_first_char_none(s: Seq<char>, from: int, c: char)
    requires
        0 <= from,
        no_char_in(s, from, s.len() as int, c),
    ensures
        first_char_from(s, from, c) is None,
    decreases s.len() - from,
{
    if from + 1 <= s.len() {
        lemma_first_char_none(s, from + 1, c);
    }
}

/// Find the first occurrence of `c` at or after `from`.
pub fn find_char(v: &Vec<char>, from: usize, c: char) -> (r: Option<usize>)
    requires
        from <= v@.len(),
    ensures
        match r {
            Some(i) => from <= i && i < v@.len() && first_char_from(v@, from as int, c) == Some(
                i as int,
            ),
            None => first_char_from(v@, from as int, c) is None,
        },
{
    let n = v.len();
    let mut i: usize = from;
    while i < n
        invariant
            from <= i <= n == v@.len(),
            no_char_in(v@, from as int, i as int, c),
        decreases n - i,
    {
        if v[i] == c {
            proof {
                lemma_first_char_some(v@, from as int, c, i as int);
            }
            return Some(i);
        }
        i += 1;
    }
    proof {
        lemma_first_char_none(v@, from as int, c);
    }
    None
}

// ---------------------------------------------------------------------
// Body reassembly: everything after the second delimiter, with any
// further delimiter occurrences removed.
// ---------------------------------------------------------------------
/// The text from `from` on, with every later `---` occurrence (found
/// left to right, non-overlapping) removed.
pub open spec fn strip_delims_from(s: Seq<char>, from: int) -> Seq<char>
    decreases s.len() - from,
{
    match first_delim_from(s, from) {
        Option::None => s.skip(from),
        Option::Some(i) => if from <= i && i + 3 <= s.len() {
            s.subrange(from, i) + strip_delims_from(s, i + 3)
        } else {
            s.skip(from)
        },
    }
}

/// Collect the text from `from` on, dropping delimiter occurrences.
pub fn strip_delims(v: &Vec<char>, from: usize) -> (r: Vec<char>)
    requires
        from <= v@.len(),
    ensures
        r@ == strip_delims_from(v@, from as int),
{
    let n = v.len();
    let mut acc: Vec<char> = Vec::new();
    let mut p: usize = from;
    loop
        invariant
            from <= p <= n == v@.len(),
            acc@ + strip_delims_from(v@, p as int) == strip_delims_from(v@, from as int),
        decreases v@.len() - p,
    {
        match find_delim(v, p) {
            Option::Some(k) => {
                append_range(&mut acc, v, p, k);
                proof {
                    assert(acc@ + strip_delims_from(v@, k + 3) == strip_delims_from(
                        v@,
                        from as int,
                    ));
                }
                p = k + 3;
            },
            Option::None => {
                append_range(&mut acc, v, p, v.len());
                proof {
                    assert(v@.subrange(p as int, v@.len() as int) =~= v@.skip(p as int));
                    assert(acc@ =~= strip_delims_from(v@, from as int));
                }
                return acc;
            },
        }
    }
}

// ---------------------------------------------------------------------
// Line splitting.
// ---------------------------------------------------------------------
/// The lines of the text from `from` on, split on `\n`.
pub open spec fn split_lines_from(s: Seq<char>, from: int) -> Seq<Seq<char>>
    decreases s.len() - from,
{
    match first_char_from(s, from, '\n') {
        Option::None => seq![s.skip(from)],
        Option::Some(k) => if from <= k && k < s.len() {
            seq![s.subrange(from, k)] + split_lines_from(s, k + 1)
        } else {
            seq![s.skip(from)]
        },
    }
}

/// Split the text into its lines.
pub fn split_lines(v: &Vec<char>) -> (r: Vec<Vec<char>>)
    ensures
        r.deep_view() == split_lines_from(v@, 0),
{
    let n = v.len();
    let mut acc: Vec<Vec<char>> = Vec::new();
    let mut p: usize = 0;
    loop
        invariant
            p <= n == v@.len(),
            acc.deep_view() + split_lines_from(v@, p as int) == split_lines_from(v@, 0),
        decreases v@.len() - p,
    {
        let ghost dv0 = acc.deep_view();
        match find_char(v, p, '\n') {
            Option::Some(k) => {
                let line = subrange_chars(v, p, k);
                acc.push(line);
                proof {
                    assert(acc.deep_view() =~~= dv0.push(v@.subrange(p as int, k as int)));
                    assert(acc.deep_view() + split_lines_from(v@, k + 1) =~~= split_lines_from(
                        v@,
                        0,
                    ));
                }
                p = k + 1;
            },
            Option::None => {
                let line = subrange_chars(v, p, v.len());
                acc.push(line);
                proof {
                    assert(v@.subrange(p as int, v@.len() as int) =~= v@.skip(p as int));
                    assert(acc.deep_view() =~~= dv0.push(v@.skip(p as int)));
                    assert(acc.deep_view() =~~= split_lines_from(v@, 0));
                }
                return acc;
            },
        }
    }
}

// ---------------------------------------------------------------------
// Trimming and unquoting.
// ---------------------------------------------------------------------
pub open spec fn is_space(c: char) -> bool {
    c == ' ' || c == '\t' || c == '\r'
}

pub open spec fn trim_front(s: Seq<char>) -> Seq<char>
    decreases s.len(),
{
    if s.len() > 0 && is_space(s[0]) {
        trim_front(s.drop_first())
    } else {
        s
    }
}

pub open spec fn trim_back(s: Seq<char>) -> Seq<char>
    decreases s.len(),
{
    if s.len() > 0 && is_space(s.last()) {
        trim_back(s.drop_last())
    } else {
        s
    }
}

/// The text with leading and trailing blanks removed.
pub open spec fn trim(s: Seq<char>) -> Seq<char> {
    trim_back(trim_front(s))
}

proof fn lemma_trim_front_skip(s: Seq<char>, lo: int)
    requires
        0 <= lo <= s.len(),
        forall|k: int| 0 <= k < lo ==> is_space(s[k]),
        lo == s.len() || !is_space(s[lo]),
    ensures
        trim_front(s) == s.skip(lo),
    decreases lo,
{
    if lo == 0 {
        assert(s.skip(0) =~= s);
    } else {
        lemma_trim_front_skip(s.drop_first(), lo - 1);
        assert(s.drop_first().skip(lo - 1) =~= s.skip(lo));
    }
}

proof fn lemma_trim_back_take(s: Seq<char>, hi: int)
    requires
        0 <= hi <= s.len(),
        forall|k: int| hi <= k < s.len() ==> is_space(s[k]),
        hi == 0 || !is_space(s[hi - 1]),
    ensures
        trim_back(s) == s.take(hi),
    decreases s.len() - hi,
{
    if hi == s.len() {
        assert(s.take(hi) =~= s);
    } else {
        lemma_trim_back_take(s.drop_last(), hi);
        assert(s.drop_last().take(hi) =~= s.take(hi));
    }
}

/// Trim leading and trailing blanks from the characters `[lo, hi)`.
pub fn trim_range(v: &Vec<char>, lo: usize, hi: usize) -> (r: Vec<char>)
    requires
        lo <= hi <= v@.len(),
    ensures
        r@ == trim(v@.subrange(lo as int, hi as int)),
{
    let ghost s = v@.subrange(lo as int, hi as int);
    let mut a: usize = lo;
    while a < hi && (v[a] == ' ' || v[a] == '\t' || v[a] == '\r')
        invariant
            lo <= a <= hi <= v@.len(),
            forall|k: int| lo <= k < a ==> is_space(v@[k]),
        decreases hi - a,
    {
        a += 1;
    }
    let mut b: usize = hi;
    while b > a && (v[b - 1] == ' ' || v[b - 1] == '\t' || v[b - 1] == '\r')
        invariant
            lo <= a <= b <= hi <= v@.len(),
            forall|k: int| b <= k < hi ==> is_space(v@[k]),
        decreases b,
    {
        b -= 1;
    }
    let r = subrange_chars(v, a, b);
    proof {
        lemma_trim_front_skip(s, a - lo);
        let t = s.skip(a - lo);
        lemma_trim_back_take(t, b - a);
        assert(t.take(b - a) =~= v@.subrange(a as int, b as int));
    }
    r
}

/// A value with a matching pair of surrounding quotes has them
/// removed; anything else is returned as it is.
pub open spec fn unquote(s: Seq<char>) -> Seq<char> {
    if s.len() >= 2 && ((s[0] == '"' && s.last() == '"') || (s[0] == '\'' && s.last() == '\'')) {
        s.subrange(1, s.len() - 1)
    } else {
        s
    }
}

pub fn unquote_exec(v: Vec<char>) -> (r: Vec<char>)
    ensures
        r@ == unquote(v@),
{
    let n = v.len();
    if n >= 2 && ((v[0] == '"' && v[n - 1] == '"') || (v[0] == '\'' && v[n - 1] == '\'')) {
        subrange_chars(&v, 1, n - 1)
    } else {
        v
    }
}

// ---------------------------------------------------------------------
// The key/value document.
// ---------------------------------------------------------------------
/// The metadata fields as collected from the frontmatter lines, at the
/// specification level.
pub struct FmAcc {
    pub title: Option<Seq<char>>,
    pub date: Option<Date>,
    pub description: Option<Seq<char>>,
    pub external_url: Option<Seq<char>>,
    pub published: Option<bool>,
}

/// The metadata fields as collected from the frontmatter lines.
pub struct FmFields {
    pub title: Option<Vec<char>>,
    pub date: Option<Date>,
    pub description: Option<Vec<char>>,
    pub external_url: Option<Vec<char>>,
    pub published: Option<bool>,
}

impl FmFields {
    pub open spec fn absf(self) -> FmAcc {
        FmAcc {
            title: match self.title {
                Option::Some(v) => Some(v@),
                Option::None => None,
            },
            date: self.date,
            description: match self.description {
                Option::Some(v) => Some(v@),
                Option::None => None,
            },
            external_url: match self.external_url {
                Option::Some(v) => Some(v@),
                Option::None => None,
            },
            published: self.published,
        }
    }
}

pub open spec fn empty_acc() -> FmAcc {
    FmAcc { title: None, date: None, description: None, external_url: None, published: None }
}

/// One frontmatter line applied to the fields collected so far. A
/// blank line changes nothing; an unknown key is ignored; a repeated
/// key overwrites. `None` marks a line the document schema rejects: no
/// `:`, a malformed date, or a `published` value that is not a plain
/// `true` or `false`.
pub open spec fn apply_line(acc: FmAcc, line: Seq<char>) -> Option<FmAcc> {
    let t = trim(line);
    if t.len() == 0 {
        Some(acc)
    } else {
        match first_char_from(t, 0, ':') {
            Option::None => None,
            Option::Some(c) => {
                let key = trim(t.subrange(0, c));
                let val = trim(t.subrange(c + 1, t.len() as int));
                if key == "title"@ {
                    Some(FmAcc { title: Some(unquote(val)), ..acc })
                } else if key == "date"@ {
                    match parse_date_spec(unquote(val)) {
                        Option::Some(d) => Some(FmAcc { date: Some(d), ..acc }),
                        Option::None => None,
                    }
                } else if key == "description"@ {
                    Some(FmAcc { description: Some(unquote(val)), ..acc })
                } else if key == "external_url"@ {
                    Some(FmAcc { external_url: Some(unquote(val)), ..acc })
                } else if key == "published"@ {
                    if val == "true"@ {
                        Some(FmAcc { published: Some(true), ..acc })
                    } else if val == "false"@ {
                        Some(FmAcc { published: Some(false), ..acc })
                    } else {
                        None
                    }
                } else {
                    Some(acc)
                }
            },
        }
    }
}

/// The lines applied in order, starting from no fields.
pub open spec fn fold_lines(lines: Seq<Seq<char>>) -> Option<FmAcc>
    decreases lines.len(),
{
    if lines.len() == 0 {
        Some(empty_acc())
    } else {
        match fold_lines(lines.drop_last()) {
            Option::None => None,
            Option::Some(a) => apply_line(a, lines.last()),
        }
    }
}

/// What parsing a frontmatter block yields: the collected fields, with
/// `title` and `date` both required to be present.
pub open spec fn parse_frontmatter_spec(s: Seq<char>) -> Option<FmAcc> {
    match fold_lines(split_lines_from(s, 0)) {
        Option::None => None,
        Option::Some(a) => if a.title is Some && a.date is Some {
            Some(a)
        } else {
            None
        },
    }
}

fn apply_line_exec(acc: FmFields, line: &Vec<char>) -> (r: Option<FmFields>)
    ensures
        match r {
            Some(a) => apply_line(acc.absf(), line@) == Some(a.absf()),
            None => apply_line(acc.absf(), line@) is None,
        },
{
    let t = trim_range(line, 0, line.len());
    proof {
        assert(line@.subrange(0, line@.len() as int) =~= line@);
    }
    if t.len() == 0 {
        return Some(acc);
    }
    match find_char(&t, 0, ':') {
        Option::None => None,
        Option::Some(c) => {
            let key = trim_range(&t, 0, c);
            let val = trim_range(&t, c + 1, t.len());
            if chars_eq_str(&key, "title") {
                Some(FmFields { title: Some(unquote_exec(val)), ..acc })
            } else if chars_eq_str(&key, "date") {
                let dv = unquote_exec(val);
                match crate::date::parse_date_chars(&dv) {
                    Option::Some(d) => Some(FmFields { date: Some(d), ..acc }),
                    Option::None => None,
                }
            } else if chars_eq_str(&key, "description") {
                Some(FmFields { description: Some(unquote_exec(val)), ..acc })
            } else if chars_eq_str(&key, "external_url") {
                Some(FmFields { external_url: Some(unquote_exec(val)), ..acc })
            } else if chars_eq_str(&key, "published") {
                if chars_eq_str(&val, "true") {
                    Some(FmFields { published: Some(true), ..acc })
                } else if chars_eq_str(&val, "false") {
                    Some(FmFields { published: Some(false), ..acc })
                } else {
                    None
                }
            } else {
                Some(acc)
            }
        },
    }
}

proof fn lemma_fold_none_prefix(lines: Seq<Seq<char>>, i: int)
    requires
        0 <= i <= lines.len(),
        fold_lines(lines.take(i)) is None,
    ensures
        fold_lines(lines) is None,
    decreases lines.len() - i,
{
    if i == lines.len() {
        assert(lines.take(i) =~~= lines);
    } else {
        assert(lines.take(i + 1).drop_last() =~~= lines.take(i));
        lemma_fold_none_prefix(lines, i + 1);
    }
}

/// Parse a frontmatter block. `None` marks a document the schema
/// rejects, a missing required `title` or `date` included.
pub fn parse_frontmatter(v: &Vec<char>) -> (r: Option<FmFields>)
    ensures
        match r {
            Some(a) => parse_frontmatter_spec(v@) == Some(a.absf()) && a.title is Some && a.date
                is Some,
            None => parse_frontmatter_spec(v@) is None,
        },
{
    let lines = split_lines(v);
    let ghost lseq = lines.deep_view();
    let mut acc = FmFields {
        title: None,
        date: None,
        description: None,
        external_url: None,
        published: None,
    };
    let n = lines.len();
    proof {
        assert(lseq.len() == n);
        assert(lseq.take(0) =~~= Seq::<Seq<char>>::empty());
    }
    let mut i: usize = 0;
    while i < n
        invariant
            i <= n == lines@.len(),
            lines.deep_view() == lseq,
            lseq == split_lines_from(v@, 0),
            lseq.len() == n,
            fold_lines(lseq.take(i as int)) == Some(acc.absf()),
        decreases n - i,
    {
        let ghost a0 = acc.absf();
        let step = apply_line_exec(acc, &lines[i]);
        proof {
            assert(lseq[i as int] == lines@[i as int].deep_view());
            assert(lines@[i as int].deep_view() =~= lines@[i as int]@);
            assert(lseq.take(i + 1).drop_last() =~~= lseq.take(i as int));
            assert(lseq.take(i + 1).last() == lseq[i as int]);
        }
        match step {
            Option::Some(a2) => {
                acc = a2;
            },
            Option::None => {
                proof {
                    assert(fold_lines(lseq.take(i + 1)) is None);
                    lemma_fold_none_prefix(lseq, i + 1);
                }
                return None;
            },
        }
        i += 1;
    }
    proof {
        assert(lseq.take(n as int) =~~= lseq);
    }
    if acc.title.is_some() && acc.date.is_some() {
        Some(acc)
    } else {
        None
    }
}

} // verus!
