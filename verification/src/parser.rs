//! Text-fragment parsers for `CREATE TABLE` and `SELECT` statements.
//!
//! The grammar is deterministic and ASCII-oriented: whitespace is the ASCII
//! whitespace characters, word characters are ASCII letters, digits and the
//! underscore, and keywords match case-insensitively. A `CREATE TABLE`
//! statement is `create table <name> ( <columns> )` with an optional
//! trailing semicolon; each comma-separated column chunk contributes its
//! leading word as the column name and, after at least one space, an
//! optional second word as its declared type (anything further in the chunk
//! is ignored, and empty chunks are skipped). A `SELECT` statement is
//! `select <cols> from <table>` with an optional `where` clause of
//! `<col> <op> <value>` conditions joined by `and`; the first
//! whitespace-delimited `from` ends the column list. Conditions are parsed
//! but deliberately never evaluated by the scanner, mirroring the rest of
//! the pipeline.

use crate::strutil::{chars_of, string_from_chars};
use vstd::string::StringExecFns;
use vstd::prelude::*;

verus! {

// ---------------------------------------------------------------------
// Character classes and scanning primitives.
// ---------------------------------------------------------------------

/// ASCII whitespace: space, tab, line feed, vertical tab, form feed,
/// carriage return.
pub open spec fn is_ws(c: char) -> bool {
    let u = c as u32;
    u == 32 || u == 9 || u == 10 || u == 11 || u == 12 || u == 13
}

/// ASCII word character: letter, digit or underscore.
pub open spec fn is_word_char(c: char) -> bool {
    let u = c as u32;
    (97 <= u && u <= 122) || (65 <= u && u <= 90) || (48 <= u && u <= 57) || u == 95
}

/// ASCII lower-casing on code points.
pub open spec fn lower_u32(u: u32) -> u32 {
    if 65 <= u && u <= 90 {
        (u + 32) as u32
    } else {
        u
    }
}

/// Case-insensitive match of `kw` at position `i` of `s`.
pub open spec fn match_kw(s: Seq<char>, i: int, kw: Seq<char>) -> bool {
    &&& 0 <= i
    &&& i + kw.len() <= s.len()
    &&& forall|j: int| 0 <= j < kw.len() ==> lower_u32(s[i + j] as u32) == kw[j] as u32
}

pub open spec fn kw_create() -> Seq<char> {
    seq!['c', 'r', 'e', 'a', 't', 'e']
}

pub open spec fn kw_table() -> Seq<char> {
    seq!['t', 'a', 'b', 'l', 'e']
}

pub open spec fn kw_select() -> Seq<char> {
    seq!['s', 'e', 'l', 'e', 'c', 't']
}

pub open spec fn kw_from() -> Seq<char> {
    seq!['f', 'r', 'o', 'm']
}

pub open spec fn kw_where() -> Seq<char> {
    seq!['w', 'h', 'e', 'r', 'e']
}

pub open spec fn kw_and() -> Seq<char> {
    seq!['a', 'n', 'd']
}

/// First index at or after `i` holding a non-whitespace character, or the
/// end of `s`.
pub open spec fn skip_ws(s: Seq<char>, i: int) -> int
    decreases s.len() - i,
{
    if 0 <= i < s.len() && is_ws(s[i]) {
        skip_ws(s, i + 1)
    } else {
        i
    }
}

/// End of the word-character run starting at `i`.
pub open spec fn scan_word(s: Seq<char>, i: int) -> int
    decreases s.len() - i,
{
    if 0 <= i < s.len() && is_word_char(s[i]) {
        scan_word(s, i + 1)
    } else {
        i
    }
}

/// First index before `e` under which only whitespace follows up to `e`.
pub open spec fn rstrip_ws(s: Seq<char>, e: int) -> int
    decreases e,
{
    if 0 < e <= s.len() && is_ws(s[e - 1]) {
        rstrip_ws(s, e - 1)
    } else {
        e
    }
}

/// First occurrence of `c` in `s[from..to]`, or `to`.
pub open spec fn find_char(s: Seq<char>, from: int, to: int, c: char) -> int
    decreases to - from,
{
    if from < to && 0 <= from < s.len() {
        if s[from] == c {
            from
        } else {
            find_char(s, from + 1, to, c)
        }
    } else {
        to
    }
}

pub proof fn lemma_skip_ws(s: Seq<char>, i: int)
    requires
        0 <= i <= s.len(),
    ensures
        i <= skip_ws(s, i) <= s.len(),
        skip_ws(s, i) < s.len() ==> !is_ws(s[skip_ws(s, i)]),
        forall|j: int| i <= j < skip_ws(s, i) ==> is_ws(s[j]),
    decreases s.len() - i,
{
    if i < s.len() && is_ws(s[i]) {
        lemma_skip_ws(s, i + 1);
    }
}

pub proof fn lemma_scan_word(s: Seq<char>, i: int)
    requires
        0 <= i <= s.len(),
    ensures
        i <= scan_word(s, i) <= s.len(),
        scan_word(s, i) < s.len() ==> !is_word_char(s[scan_word(s, i)]),
        forall|j: int| i <= j < scan_word(s, i) ==> is_word_char(s[j]),
    decreases s.len() - i,
{
    if i < s.len() && is_word_char(s[i]) {
        lemma_scan_word(s, i + 1);
    }
}

pub proof fn lemma_rstrip_ws(s: Seq<char>, e: int)
    requires
        0 <= e <= s.len(),
    ensures
        0 <= rstrip_ws(s, e) <= e,
        rstrip_ws(s, e) > 0 ==> !is_ws(s[rstrip_ws(s, e) - 1]),
        forall|j: int| rstrip_ws(s, e) <= j < e ==> is_ws(s[j]),
    decreases e,
{
    if 0 < e && is_ws(s[e - 1]) {
        lemma_rstrip_ws(s, e - 1);
    }
}

pub proof fn lemma_find_char_range(s: Seq<char>, from: int, to: int, c: char)
    requires
        from <= to,
    ensures
        from <= find_char(s, from, to, c) <= to,
    decreases to - from,
{
    if from < to && 0 <= from < s.len() && s[from] != c {
        lemma_find_char_range(s, from + 1, to, c);
    }
}

pub proof fn lemma_find_char(s: Seq<char>, from: int, to: int, c: char)
    requires
        0 <= from <= to <= s.len(),
    ensures
        from <= find_char(s, from, to, c) <= to,
        find_char(s, from, to, c) < to ==> s[find_char(s, from, to, c)] == c,
        forall|j: int| from <= j < find_char(s, from, to, c) ==> s[j] != c,
    decreases to - from,
{
    if from < to && s[from] != c {
        lemma_find_char(s, from + 1, to, c);
    }
}

// ---------------------------------------------------------------------
// Exec scanning primitives.
// ---------------------------------------------------------------------

fn is_ws_exec(c: char) -> (r: bool)
    ensures
        r == is_ws(c),
{
    let u = c as u32;
    u == 32 || u == 9 || u == 10 || u == 11 || u == 12 || u == 13
}

fn is_word_char_exec(c: char) -> (r: bool)
    ensures
        r == is_word_char(c),
{
    let u = c as u32;
    (97 <= u && u <= 122) || (65 <= u && u <= 90) || (48 <= u && u <= 57) || u == 95
}

fn skip_ws_exec(v: &Vec<char>, i: usize) -> (r: usize)
    requires
        i <= v@.len(),
    ensures
        r == skip_ws(v@, i as int),
        i <= r <= v@.len(),
{
    proof {
        lemma_skip_ws(v@, i as int);
    }
    let n = v.len();
    let mut p = i;
    while p < n && is_ws_exec(v[p])
        invariant
            i <= p <= n,
            n == v@.len(),
            skip_ws(v@, i as int) == skip_ws(v@, p as int),
        decreases n - p,
    {
        p = p + 1;
    }
    p
}

fn scan_word_exec(v: &Vec<char>, i: usize) -> (r: usize)
    requires
        i <= v@.len(),
    ensures
        r == scan_word(v@, i as int),
        i <= r <= v@.len(),
{
    proof {
        lemma_scan_word(v@, i as int);
    }
    let n = v.len();
    let mut p = i;
    while p < n && is_word_char_exec(v[p])
        invariant
            i <= p <= n,
            n == v@.len(),
            scan_word(v@, i as int) == scan_word(v@, p as int),
        decreases n - p,
    {
        p = p + 1;
    }
    p
}

fn rstrip_ws_exec(v: &Vec<char>, e: usize) -> (r: usize)
    requires
        e <= v@.len(),
    ensures
        r == rstrip_ws(v@, e as int),
        r <= e,
{
    proof {
        lemma_rstrip_ws(v@, e as int);
    }
    let mut p = e;
    while p > 0 && is_ws_exec(v[p - 1])
        invariant
            0 <= p <= e <= v@.len(),
            rstrip_ws(v@, e as int) == rstrip_ws(v@, p as int),
        decreases p,
    {
        p = p - 1;
    }
    p
}

fn find_char_exec(v: &Vec<char>, from: usize, to: usize, c: char) -> (r: usize)
    requires
        from <= to <= v@.len(),
    ensures
        r == find_char(v@, from as int, to as int, c),
        from <= r <= to,
{
    proof {
        lemma_find_char(v@, from as int, to as int, c);
    }
    let mut p = from;
    while p < to && v[p] != c
        invariant
            from <= p <= to <= v@.len(),
            find_char(v@, from as int, to as int, c) == find_char(v@, p as int, to as int, c),
        decreases to - p,
    {
        p = p + 1;
    }
    p
}

fn lower_exec(c: char) -> (r: u32)
    ensures
        r == lower_u32(c as u32),
{
    let u = c as u32;
    if 65 <= u && u <= 90 {
        u + 32
    } else {
        u
    }
}

/// Case-insensitive keyword match at position `i`.
fn keyword_at(v: &Vec<char>, i: usize, kw: &Vec<char>) -> (r: bool)
    requires
        i <= v@.len(),
    ensures
        r == match_kw(v@, i as int, kw@),
{
    let n = v.len();
    let m = kw.len();
    if n - i < m {
        return false;
    }
    let mut j: usize = 0;
    while j < m
        invariant
            0 <= j <= m,
            m == kw@.len(),
            n == v@.len(),
            i + m <= n,
            forall|q: int| 0 <= q < j ==> lower_u32(v@[i + q] as u32) == kw@[q] as u32,
        decreases m - j,
    {
        if lower_exec(v[i + j]) != kw[j] as u32 {
            return false;
        }
        j = j + 1;
    }
    true
}

// ---------------------------------------------------------------------
// CREATE TABLE.
// ---------------------------------------------------------------------

/// One column definition: a name and an optional declared type (free-form,
/// not enforced).
#[derive(Debug, Clone)]
pub struct ColumnDef {
    pub name: String,
    pub ty: Option<String>,
}

/// The mathematical shape of a column definition.
pub struct SpecColumnDef {
    pub name: Seq<char>,
    pub ty: Option<Seq<char>>,
}

impl View for ColumnDef {
    type V = SpecColumnDef;

    open spec fn view(&self) -> SpecColumnDef {
        SpecColumnDef {
            name: self.name@,
            ty: match &self.ty {
                Some(t) => Some(t@),
                None => None,
            },
        }
    }
}

/// A parsed `CREATE TABLE` statement.
#[derive(Debug, Clone)]
pub struct CreateTableStmt {
    pub table: String,
    pub columns: Vec<ColumnDef>,
}

/// The mathematical shape of a `CREATE TABLE` statement.
pub struct SpecCreate {
    pub table: Seq<char>,
    pub columns: Seq<SpecColumnDef>,
}

/// The column definitions of a sequence, as mathematical values.
pub open spec fn view_columns(cs: Seq<ColumnDef>) -> Seq<SpecColumnDef> {
    cs.map_values(|c: ColumnDef| c@)
}

impl View for CreateTableStmt {
    type V = SpecCreate;

    open spec fn view(&self) -> SpecCreate {
        SpecCreate { table: self.table@, columns: view_columns(self.columns@) }
    }
}

/// Parse of one comma-separated chunk `s[a..b]`: `Some(None)` when the
/// chunk is empty after trimming (skipped), `None` when it starts with a
/// non-word character (invalid), and otherwise its leading word as the
/// column name with an optional second word as the declared type.
pub open spec fn spec_parse_coldef(s: Seq<char>, a: int, b: int) -> Option<Option<SpecColumnDef>> {
    let a1 = skip_ws(s, a);
    if a1 >= b {
        Some(None)
    } else if !is_word_char(s[a1]) {
        None
    } else {
        let ne = scan_word(s, a1);
        let q = skip_ws(s, ne);
        let ty = if q > ne && q < b && is_word_char(s[q]) {
            Some(s.subrange(q, scan_word(s, q)))
        } else {
            None
        };
        Some(Some(SpecColumnDef { name: s.subrange(a1, ne), ty }))
    }
}

/// The column definitions of the chunk list `s[from..to]`, split at commas.
pub open spec fn spec_parse_columns(s: Seq<char>, from: int, to: int) -> Option<
    Seq<SpecColumnDef>,
>
    decreases to - from,
    when from <= to
    via spec_parse_columns_dec
{
    let k = find_char(s, from, to, ',');
    match spec_parse_coldef(s, from, k) {
        None => None,
        Some(copt) => {
            let head = match copt {
                Some(c) => seq![c],
                None => Seq::empty(),
            };
            if k >= to {
                Some(head)
            } else {
                match spec_parse_columns(s, k + 1, to) {
                    None => None,
                    Some(rest) => Some(head + rest),
                }
            }
        },
    }
}

#[via_fn]
proof fn spec_parse_columns_dec(s: Seq<char>, from: int, to: int) {
    if from <= to {
        lemma_find_char_range(s, from, to, ',');
    }
}

/// A `CREATE TABLE` statement:
/// `\s* create \s+ table \s+ <name> \s* ( <chunks> ) \s* ;? \s*`,
/// keywords case-insensitive, `None` when the text does not fit.
pub open spec fn spec_parse_create(s: Seq<char>) -> Option<SpecCreate> {
    let i0 = skip_ws(s, 0);
    if !match_kw(s, i0, kw_create()) {
        None
    } else {
        let i2 = skip_ws(s, i0 + 6);
        if i2 == i0 + 6 || !match_kw(s, i2, kw_table()) {
            None
        } else {
            let i4 = skip_ws(s, i2 + 5);
            if i4 == i2 + 5 {
                None
            } else {
                let i5 = scan_word(s, i4);
                if i5 == i4 {
                    None
                } else {
                    let i6 = skip_ws(s, i5);
                    if i6 >= s.len() || s[i6] != '(' {
                        None
                    } else {
                        let e2 = {
                            let e1 = rstrip_ws(s, s.len() as int);
                            if e1 > 0 && s[e1 - 1] == ';' {
                                e1 - 1
                            } else {
                                e1
                            }
                        };
                        let e3 = rstrip_ws(s, e2);
                        if e3 < 1 || e3 - 1 <= i6 || s[e3 - 1] != ')' {
                            None
                        } else {
                            match spec_parse_columns(s, i6 + 1, e3 - 1) {
                                None => None,
                                Some(cols) => Some(
                                    SpecCreate { table: s.subrange(i4, i5), columns: cols },
                                ),
                            }
                        }
                    }
                }
            }
        }
    }
}

/// Parse `CREATE TABLE` text into the table name and its column
/// definitions. Succeeds exactly on text the grammar accepts.
pub fn parse_create(sql: &str) -> (r: Result<CreateTableStmt, String>)
    ensures
        r is Ok <==> spec_parse_create(sql@) is Some,
        r matches Ok(c) ==> Some(c@) == spec_parse_create(sql@),
{
    let v = chars_of(sql);
    let n = v.len();
    let i0 = skip_ws_exec(&v, 0);
    let kwc = vec!['c', 'r', 'e', 'a', 't', 'e'];
    let kwt = vec!['t', 'a', 'b', 'l', 'e'];
    proof {
        assert(kwc@ =~= kw_create());
        assert(kwt@ =~= kw_table());
    }
    if !keyword_at(&v, i0, &kwc) {
        return Err(invalid_create());
    }
    let i2 = skip_ws_exec(&v, i0 + 6);
    if i2 == i0 + 6 || !keyword_at(&v, i2, &kwt) {
        return Err(invalid_create());
    }
    let i4 = skip_ws_exec(&v, i2 + 5);
    if i4 == i2 + 5 {
        return Err(invalid_create());
    }
    let i5 = scan_word_exec(&v, i4);
    if i5 == i4 {
        return Err(invalid_create());
    }
    let i6 = skip_ws_exec(&v, i5);
    if i6 >= n || v[i6] != '(' {
        return Err(invalid_create());
    }
    let e1 = rstrip_ws_exec(&v, n);
    let e2 = if e1 > 0 && v[e1 - 1] == ';' {
        e1 - 1
    } else {
        e1
    };
    let e3 = rstrip_ws_exec(&v, e2);
    if e3 < 1 || e3 - 1 <= i6 || v[e3 - 1] != ')' {
        return Err(invalid_create());
    }
    let columns = match parse_columns(&v, i6 + 1, e3 - 1) {
        Ok(cols) => cols,
        Err(m) => {
            return Err(m);
        },
    };
    let table = string_from_chars(&v, i4, i5);
    Ok(CreateTableStmt { table, columns })
}

fn invalid_create() -> (r: String) {
    String::from_str("invalid create table statement")
}

fn invalid_column() -> (r: String) {
    String::from_str("invalid column definition")
}

/// Parse the comma-separated column chunks of `v[from..to]`.
fn parse_columns(v: &Vec<char>, from: usize, to: usize) -> (r: Result<Vec<ColumnDef>, String>)
    requires
        from <= to <= v@.len(),
    ensures
        r is Ok <==> spec_parse_columns(v@, from as int, to as int) is Some,
        r matches Ok(cols) ==> Some(view_columns(cols@)) == spec_parse_columns(
            v@,
            from as int,
            to as int,
        ),
{
    let mut cols: Vec<ColumnDef> = Vec::new();
    let mut a = from;
    proof {
        match spec_parse_columns(v@, from as int, to as int) {
            Some(rest) => {
                assert(view_columns(cols@) + rest =~= rest);
            },
            None => {},
        }
    }
    loop
        invariant_except_break
            from <= a <= to <= v@.len(),
            match spec_parse_columns(v@, a as int, to as int) {
                Some(rest) => spec_parse_columns(v@, from as int, to as int) == Some(
                    view_columns(cols@) + rest,
                ),
                None => spec_parse_columns(v@, from as int, to as int) is None,
            },
        ensures
            spec_parse_columns(v@, from as int, to as int) == Some(view_columns(cols@)),
        decreases to - a,
    {
        let k = find_char_exec(v, a, to, ',');
        let ghost old_cols = cols@;
        // Parse the chunk v[a..k].
        let a1 = skip_ws_exec(v, a);
        if a1 < k {
            if !is_word_char_exec(v[a1]) {
                proof {
                    assert(spec_parse_columns(v@, a as int, to as int) is None);
                }
                return Err(invalid_column());
            }
            let ne = scan_word_exec(v, a1);
            let q = skip_ws_exec(v, ne);
            let ty = if q > ne && q < k && is_word_char_exec(v[q]) {
                let qe = scan_word_exec(v, q);
                Some(string_from_chars(v, q, qe))
            } else {
                None
            };
            let name = string_from_chars(v, a1, ne);
            cols.push(ColumnDef { name, ty });
        }
        proof {
            let ghost head = match spec_parse_coldef(v@, a as int, k as int) {
                Some(Some(c)) => seq![c],
                _ => Seq::<SpecColumnDef>::empty(),
            };
            assert(view_columns(cols@) =~= view_columns(old_cols) + head);
        }
        if k >= to {
            proof {
                match spec_parse_columns(v@, a as int, to as int) {
                    Some(rest) => {
                        assert(view_columns(old_cols) + rest =~= view_columns(cols@));
                    },
                    None => {},
                }
            }
            break;
        }
        proof {
            match spec_parse_columns(v@, k + 1, to as int) {
                Some(rest2) => {
                    match spec_parse_coldef(v@, a as int, k as int) {
                        Some(Some(c)) => {
                            assert(view_columns(old_cols) + (seq![c] + rest2) =~= view_columns(
                                cols@,
                            ) + rest2);
                        },
                        Some(None) => {
                            assert(view_columns(old_cols) + (Seq::<SpecColumnDef>::empty()
                                + rest2) =~= view_columns(cols@) + rest2);
                        },
                        None => {},
                    }
                },
                None => {},
            }
        }
        a = k + 1;
    }
    Ok(cols)
}


// ---------------------------------------------------------------------
// SELECT.
// ---------------------------------------------------------------------

/// One `where` condition: a column, a comparison operator and a literal.
/// Conditions are recovered structurally and deliberately never evaluated.
#[derive(Debug, Clone)]
pub struct Condition {
    pub column: String,
    pub op: String,
    pub value: String,
}

/// The mathematical shape of a condition.
pub struct SpecCondition {
    pub column: Seq<char>,
    pub op: Seq<char>,
    pub value: Seq<char>,
}

impl View for Condition {
    type V = SpecCondition;

    open spec fn view(&self) -> SpecCondition {
        SpecCondition { column: self.column@, op: self.op@, value: self.value@ }
    }
}

/// A parsed `SELECT` statement.
#[derive(Debug)]
pub struct SelectStmt {
    pub columns: Vec<String>,
    pub table: String,
    pub conditions: Vec<Condition>,
}

/// The mathematical shape of a `SELECT` statement.
pub struct SpecSelect {
    pub columns: Seq<Seq<char>>,
    pub table: Seq<char>,
    pub conditions: Seq<SpecCondition>,
}

/// The character sequences of a string vector.
pub open spec fn view_strings(ss: Seq<String>) -> Seq<Seq<char>> {
    ss.map_values(|s: String| s@)
}

/// The conditions of a vector, as mathematical values.
pub open spec fn view_conditions(cs: Seq<Condition>) -> Seq<SpecCondition> {
    cs.map_values(|c: Condition| c@)
}

impl View for SelectStmt {
    type V = SpecSelect;

    open spec fn view(&self) -> SpecSelect {
        SpecSelect {
            columns: view_strings(self.columns@),
            table: self.table@,
            conditions: view_conditions(self.conditions@),
        }
    }
}

/// Whether a ` from ` delimiter — whitespace, `from`, whitespace, then a
/// word character starting the table name — begins at `f`.
pub open spec fn from_delim_at(s: Seq<char>, f: int) -> bool {
    &&& 0 <= f < s.len()
    &&& is_ws(s[f])
    &&& match_kw(s, skip_ws(s, f), kw_from())
    &&& {
        let h = skip_ws(s, skip_ws(s, f) + 4);
        &&& h > skip_ws(s, f) + 4
        &&& h < s.len()
        &&& is_word_char(s[h])
    }
}

/// First position at or after `f` where a ` from ` delimiter starts, or
/// the end of `s`.
pub open spec fn find_from_delim(s: Seq<char>, f: int) -> int
    decreases s.len() - f,
{
    if f >= s.len() || f < 0 {
        s.len() as int
    } else if from_delim_at(s, f) {
        f
    } else {
        find_from_delim(s, f + 1)
    }
}

/// Whether an `and` separator — whitespace, `and`, whitespace — begins at
/// `d`, entirely before `to`.
pub open spec fn and_delim_at(s: Seq<char>, d: int, to: int) -> bool {
    &&& 0 <= d < to
    &&& is_ws(s[d])
    &&& skip_ws(s, d) + 3 < to
    &&& match_kw(s, skip_ws(s, d), kw_and())
    &&& is_ws(s[skip_ws(s, d) + 3])
}

/// First position at or after `d` where an `and` separator starts, or `to`.
pub open spec fn find_and_delim(s: Seq<char>, d: int, to: int) -> int
    decreases to - d,
{
    if d >= to || d < 0 {
        to
    } else if and_delim_at(s, d, to) {
        d
    } else {
        find_and_delim(s, d + 1, to)
    }
}

pub proof fn lemma_find_and_delim(s: Seq<char>, d: int, to: int)
    requires
        d <= to,
    ensures
        d <= find_and_delim(s, d, to) <= to,
        find_and_delim(s, d, to) < to ==> and_delim_at(s, find_and_delim(s, d, to), to),
    decreases to - d,
{
    if 0 <= d < to && !and_delim_at(s, d, to) {
        lemma_find_and_delim(s, d + 1, to);
    }
}

/// The trimmed, non-empty comma-separated chunks of `s[from..to]`.
pub open spec fn spec_split_cols(s: Seq<char>, from: int, to: int) -> Seq<Seq<char>>
    decreases to - from,
    when from <= to
    via spec_split_cols_dec
{
    let k = find_char(s, from, to, ',');
    let a = skip_ws(s, from);
    let head = if a >= k {
        Seq::<Seq<char>>::empty()
    } else {
        seq![s.subrange(a, rstrip_ws(s, k))]
    };
    if k >= to {
        head
    } else {
        head + spec_split_cols(s, k + 1, to)
    }
}

#[via_fn]
proof fn spec_split_cols_dec(s: Seq<char>, from: int, to: int) {
    if from <= to {
        lemma_find_char_range(s, from, to, ',');
    }
}

/// Parse of one condition part `s[a..b]`: `Some(None)` when the part is
/// empty after trimming (skipped); otherwise `<column> <op> <value>`,
/// where the operator is one of `=`, `!=`, `<=`, `>=`, `<`, `>` and the
/// value is a quoted literal (quotes stripped) or a word, followed by
/// nothing but whitespace.
pub open spec fn spec_parse_condition(s: Seq<char>, a: int, b: int) -> Option<
    Option<SpecCondition>,
> {
    let a1 = skip_ws(s, a);
    if a1 >= b {
        Some(None)
    } else if !is_word_char(s[a1]) {
        None
    } else {
        let ce = scan_word(s, a1);
        let q1 = skip_ws(s, ce);
        if q1 >= b {
            None
        } else {
            let two = q1 + 1 < b && s[q1 + 1] == '=' && (s[q1] == '!' || s[q1] == '<' || s[q1]
                == '>');
            let one = s[q1] == '=' || s[q1] == '<' || s[q1] == '>';
            if !two && !one {
                None
            } else {
                let oe = if two {
                    q1 + 2
                } else {
                    q1 + 1
                };
                let q2 = skip_ws(s, oe);
                if q2 >= b {
                    None
                } else if s[q2] == '\'' || s[q2] == '"' {
                    let cq = find_char(s, q2 + 1, b, s[q2]);
                    if cq >= b || skip_ws(s, cq + 1) < b {
                        None
                    } else {
                        Some(
                            Some(
                                SpecCondition {
                                    column: s.subrange(a1, ce),
                                    op: s.subrange(q1, oe),
                                    value: s.subrange(q2 + 1, cq),
                                },
                            ),
                        )
                    }
                } else if !is_word_char(s[q2]) {
                    None
                } else {
                    let ve = scan_word(s, q2);
                    if skip_ws(s, ve) < b {
                        None
                    } else {
                        Some(
                            Some(
                                SpecCondition {
                                    column: s.subrange(a1, ce),
                                    op: s.subrange(q1, oe),
                                    value: s.subrange(q2, ve),
                                },
                            ),
                        )
                    }
                }
            }
        }
    }
}

/// The conditions of `s[from..to]`, split at `and` separators; empty parts
/// are skipped and a part that is not a condition fails the parse.
pub open spec fn spec_parse_conditions(s: Seq<char>, from: int, to: int) -> Option<
    Seq<SpecCondition>,
>
    decreases to - from,
    when from <= to
    via spec_parse_conditions_dec
{
    let d = find_and_delim(s, from, to);
    match spec_parse_condition(s, from, d) {
        None => None,
        Some(copt) => {
            let head = match copt {
                Some(c) => seq![c],
                None => Seq::<SpecCondition>::empty(),
            };
            if d >= to {
                Some(head)
            } else {
                match spec_parse_conditions(s, skip_ws(s, d) + 3, to) {
                    None => None,
                    Some(rest) => Some(head + rest),
                }
            }
        },
    }
}

#[via_fn]
proof fn spec_parse_conditions_dec(s: Seq<char>, from: int, to: int) {
    if from <= to {
        lemma_find_and_delim(s, from, to);
        let d = find_and_delim(s, from, to);
        if d < to {
            lemma_skip_ws(s, d + 1);
        }
    }
}

/// A `SELECT` statement:
/// `\s* select \s+ <cols> \s+ from \s+ <table> [\s+ where \s+ <conds>] \s* ;? \s*`,
/// keywords case-insensitive. The column list runs to the first
/// whitespace-delimited `from` that is followed by a word.
pub open spec fn spec_parse_select(s: Seq<char>) -> Option<SpecSelect> {
    let i0 = skip_ws(s, 0);
    if !match_kw(s, i0, kw_select()) {
        None
    } else {
        let cs = skip_ws(s, i0 + 6);
        if cs == i0 + 6 || cs >= s.len() {
            None
        } else {
            let f = find_from_delim(s, cs + 1);
            if f >= s.len() {
                None
            } else {
                let tb = skip_ws(s, skip_ws(s, f) + 4);
                let te = scan_word(s, tb);
                let cols = spec_split_cols(s, cs, f);
                let q = skip_ws(s, te);
                if q >= s.len() {
                    Some(
                        SpecSelect {
                            columns: cols,
                            table: s.subrange(tb, te),
                            conditions: Seq::empty(),
                        },
                    )
                } else if s[q] == ';' {
                    if skip_ws(s, q + 1) >= s.len() {
                        Some(
                            SpecSelect {
                                columns: cols,
                                table: s.subrange(tb, te),
                                conditions: Seq::empty(),
                            },
                        )
                    } else {
                        None
                    }
                } else if match_kw(s, q, kw_where()) {
                    let w = skip_ws(s, q + 5);
                    if w == q + 5 {
                        None
                    } else {
                        let e2 = {
                            let e1 = rstrip_ws(s, s.len() as int);
                            if e1 > 0 && s[e1 - 1] == ';' {
                                e1 - 1
                            } else {
                                e1
                            }
                        };
                        let e3 = rstrip_ws(s, e2);
                        if w >= e3 {
                            None
                        } else {
                            match spec_parse_conditions(s, w, e3) {
                                None => None,
                                Some(conds) => Some(
                                    SpecSelect {
                                        columns: cols,
                                        table: s.subrange(tb, te),
                                        conditions: conds,
                                    },
                                ),
                            }
                        }
                    }
                } else {
                    None
                }
            }
        }
    }
}


fn invalid_select() -> (r: String) {
    String::from_str("invalid select statement")
}

fn invalid_condition() -> (r: String) {
    String::from_str("invalid condition")
}

fn from_delim_at_exec(v: &Vec<char>, p: usize, kwf: &Vec<char>) -> (r: bool)
    requires
        p < v@.len(),
        kwf@ == kw_from(),
    ensures
        r == from_delim_at(v@, p as int),
{
    let n = v.len();
    if !is_ws_exec(v[p]) {
        return false;
    }
    let g = skip_ws_exec(v, p);
    if !keyword_at(v, g, kwf) {
        return false;
    }
    let h = skip_ws_exec(v, g + 4);
    h > g + 4 && h < n && is_word_char_exec(v[h])
}

fn find_from_delim_exec(v: &Vec<char>, f: usize, kwf: &Vec<char>) -> (r: usize)
    requires
        f <= v@.len(),
        kwf@ == kw_from(),
    ensures
        r == find_from_delim(v@, f as int),
        f <= r <= v@.len(),
        r < v@.len() ==> from_delim_at(v@, r as int),
{
    let n = v.len();
    let mut p = f;
    while p < n && !from_delim_at_exec(v, p, kwf)
        invariant
            f <= p <= n,
            n == v@.len(),
            kwf@ == kw_from(),
            find_from_delim(v@, f as int) == find_from_delim(v@, p as int),
        decreases n - p,
    {
        p = p + 1;
    }
    p
}

fn and_delim_at_exec(v: &Vec<char>, d: usize, to: usize, kwa: &Vec<char>) -> (r: bool)
    requires
        d < to <= v@.len(),
        kwa@ == kw_and(),
    ensures
        r == and_delim_at(v@, d as int, to as int),
{
    if !is_ws_exec(v[d]) {
        return false;
    }
    let g = skip_ws_exec(v, d);
    if g >= to || to - g <= 3 {
        return false;
    }
    keyword_at(v, g, kwa) && is_ws_exec(v[g + 3])
}

fn find_and_delim_exec(v: &Vec<char>, d: usize, to: usize, kwa: &Vec<char>) -> (r: usize)
    requires
        d <= to <= v@.len(),
        kwa@ == kw_and(),
    ensures
        r == find_and_delim(v@, d as int, to as int),
        d <= r <= to,
        r < to ==> and_delim_at(v@, r as int, to as int),
{
    let mut p = d;
    while p < to && !and_delim_at_exec(v, p, to, kwa)
        invariant
            d <= p <= to <= v@.len(),
            kwa@ == kw_and(),
            find_and_delim(v@, d as int, to as int) == find_and_delim(v@, p as int, to as int),
        decreases to - p,
    {
        p = p + 1;
    }
    p
}

/// Collect the trimmed, non-empty comma-separated chunks of `v[from..to]`.
fn split_cols_exec(v: &Vec<char>, from: usize, to: usize) -> (r: Vec<String>)
    requires
        from <= to <= v@.len(),
    ensures
        view_strings(r@) == spec_split_cols(v@, from as int, to as int),
{
    let mut cols: Vec<String> = Vec::new();
    let mut a = from;
    proof {
        assert(view_strings(cols@) + spec_split_cols(v@, from as int, to as int) =~= spec_split_cols(
            v@,
            from as int,
            to as int,
        ));
    }
    loop
        invariant_except_break
            from <= a <= to <= v@.len(),
            spec_split_cols(v@, from as int, to as int) == view_strings(cols@) + spec_split_cols(
                v@,
                a as int,
                to as int,
            ),
        ensures
            view_strings(cols@) == spec_split_cols(v@, from as int, to as int),
        decreases to - a,
    {
        let k = find_char_exec(v, a, to, ',');
        let ghost old_cols = cols@;
        let a1 = skip_ws_exec(v, a);
        if a1 < k {
            let rr = rstrip_ws_exec(v, k);
            proof {
                lemma_skip_ws(v@, a as int);
                lemma_rstrip_ws(v@, k as int);
                if rr <= a1 {
                    assert(is_ws(v@[a1 as int]));
                    assert(false);
                }
            }
            let name = string_from_chars(v, a1, rr);
            cols.push(name);
        }
        proof {
            let head = if a1 >= k {
                Seq::<Seq<char>>::empty()
            } else {
                seq![v@.subrange(a1 as int, rstrip_ws(v@, k as int))]
            };
            assert(view_strings(cols@) =~= view_strings(old_cols) + head);
            assert(view_strings(old_cols) + (head + spec_split_cols(v@, k + 1, to as int)) =~= (
            view_strings(old_cols) + head) + spec_split_cols(v@, k + 1, to as int));
        }
        if k >= to {
            proof {
                assert(view_strings(cols@) + Seq::<Seq<char>>::empty() =~= view_strings(cols@));
            }
            break;
        }
        a = k + 1;
    }
    cols
}

/// Parse the `and`-separated condition parts of `v[from..to]`.
fn parse_conditions_exec(v: &Vec<char>, from: usize, to: usize, kwa: &Vec<char>) -> (r: Result<
    Vec<Condition>,
    String,
>)
    requires
        from <= to <= v@.len(),
        kwa@ == kw_and(),
    ensures
        r is Ok <==> spec_parse_conditions(v@, from as int, to as int) is Some,
        r matches Ok(cs) ==> Some(view_conditions(cs@)) == spec_parse_conditions(
            v@,
            from as int,
            to as int,
        ),
{
    let mut conds: Vec<Condition> = Vec::new();
    let mut a = from;
    proof {
        match spec_parse_conditions(v@, from as int, to as int) {
            Some(rest) => {
                assert(view_conditions(conds@) + rest =~= rest);
            },
            None => {},
        }
    }
    loop
        invariant_except_break
            from <= a <= to <= v@.len(),
            kwa@ == kw_and(),
            match spec_parse_conditions(v@, a as int, to as int) {
                Some(rest) => spec_parse_conditions(v@, from as int, to as int) == Some(
                    view_conditions(conds@) + rest,
                ),
                None => spec_parse_conditions(v@, from as int, to as int) is None,
            },
        ensures
            spec_parse_conditions(v@, from as int, to as int) == Some(view_conditions(conds@)),
        decreases to - a,
    {
        let d = find_and_delim_exec(v, a, to, kwa);
        let ghost old_conds = conds@;
        // Parse the part v[a..d].
        let a1 = skip_ws_exec(v, a);
        if a1 < d {
            match parse_condition_part(v, a, d) {
                Ok(c) => {
                    conds.push(c);
                },
                Err(m) => {
                    proof {
                        assert(spec_parse_conditions(v@, a as int, to as int) is None);
                    }
                    return Err(m);
                },
            }
        }
        proof {
            let head = match spec_parse_condition(v@, a as int, d as int) {
                Some(Some(c)) => seq![c],
                _ => Seq::<SpecCondition>::empty(),
            };
            assert(view_conditions(conds@) =~= view_conditions(old_conds) + head);
        }
        if d >= to {
            proof {
                match spec_parse_conditions(v@, a as int, to as int) {
                    Some(rest) => {
                        assert(view_conditions(old_conds) + rest =~= view_conditions(conds@));
                    },
                    None => {},
                }
            }
            break;
        }
        let g = skip_ws_exec(v, d);
        proof {
            match spec_parse_conditions(v@, g + 3, to as int) {
                Some(rest2) => {
                    match spec_parse_condition(v@, a as int, d as int) {
                        Some(Some(c)) => {
                            assert(view_conditions(old_conds) + (seq![c] + rest2) =~= view_conditions(
                                conds@,
                            ) + rest2);
                        },
                        Some(None) => {
                            assert(view_conditions(old_conds) + (Seq::<SpecCondition>::empty()
                                + rest2) =~= view_conditions(conds@) + rest2);
                        },
                        None => {},
                    }
                },
                None => {},
            }
        }
        a = g + 3;
    }
    Ok(conds)
}

/// Parse one non-empty condition part `v[a..b]`.
fn parse_condition_part(v: &Vec<char>, a: usize, b: usize) -> (r: Result<Condition, String>)
    requires
        a <= b <= v@.len(),
        skip_ws(v@, a as int) < b,
    ensures
        match r {
            Ok(c) => spec_parse_condition(v@, a as int, b as int) == Some(Some(c@)),
            Err(_) => spec_parse_condition(v@, a as int, b as int) is None,
        },
{
    let a1 = skip_ws_exec(v, a);
    if !is_word_char_exec(v[a1]) {
        return Err(invalid_condition());
    }
    let ce = scan_word_exec(v, a1);
    let q1 = skip_ws_exec(v, ce);
    if q1 >= b {
        return Err(invalid_condition());
    }
    let two = q1 + 1 < b && v[q1 + 1] == '=' && (v[q1] == '!' || v[q1] == '<' || v[q1] == '>');
    let one = v[q1] == '=' || v[q1] == '<' || v[q1] == '>';
    if !two && !one {
        return Err(invalid_condition());
    }
    let oe = if two {
        q1 + 2
    } else {
        q1 + 1
    };
    let q2 = skip_ws_exec(v, oe);
    if q2 >= b {
        return Err(invalid_condition());
    }
    let qc = v[q2];
    if qc == '\'' || qc == '"' {
        let cq = find_char_exec(v, q2 + 1, b, qc);
        if cq >= b {
            return Err(invalid_condition());
        }
        if skip_ws_exec(v, cq + 1) < b {
            return Err(invalid_condition());
        }
        let column = string_from_chars(v, a1, ce);
        let op = string_from_chars(v, q1, oe);
        let value = string_from_chars(v, q2 + 1, cq);
        Ok(Condition { column, op, value })
    } else if !is_word_char_exec(qc) {
        Err(invalid_condition())
    } else {
        let ve = scan_word_exec(v, q2);
        if skip_ws_exec(v, ve) < b {
            return Err(invalid_condition());
        }
        let column = string_from_chars(v, a1, ce);
        let op = string_from_chars(v, q1, oe);
        let value = string_from_chars(v, q2, ve);
        Ok(Condition { column, op, value })
    }
}

/// Parse `SELECT` text into the requested columns, the table name, and any
/// `where` conditions. Succeeds exactly on text the grammar accepts.
pub fn parse_select(sql: &str) -> (r: Result<SelectStmt, String>)
    ensures
        r is Ok <==> spec_parse_select(sql@) is Some,
        r matches Ok(st) ==> Some(st@) == spec_parse_select(sql@),
{
    let v = chars_of(sql);
    let n = v.len();
    let kws = vec!['s', 'e', 'l', 'e', 'c', 't'];
    let kwf = vec!['f', 'r', 'o', 'm'];
    let kww = vec!['w', 'h', 'e', 'r', 'e'];
    let kwa = vec!['a', 'n', 'd'];
    proof {
        assert(kws@ =~= kw_select());
        assert(kwf@ =~= kw_from());
        assert(kww@ =~= kw_where());
        assert(kwa@ =~= kw_and());
    }
    let i0 = skip_ws_exec(&v, 0);
    if !keyword_at(&v, i0, &kws) {
        return Err(invalid_select());
    }
    let cs = skip_ws_exec(&v, i0 + 6);
    if cs == i0 + 6 || cs >= n {
        return Err(invalid_select());
    }
    let f = find_from_delim_exec(&v, cs + 1, &kwf);
    if f >= n {
        return Err(invalid_select());
    }
    let g = skip_ws_exec(&v, f);
    let tb = skip_ws_exec(&v, g + 4);
    let te = scan_word_exec(&v, tb);
    let columns = split_cols_exec(&v, cs, f);
    let table = string_from_chars(&v, tb, te);
    let q = skip_ws_exec(&v, te);
    let no_conds: Vec<Condition> = Vec::new();
    proof {
        assert(view_conditions(no_conds@) =~= Seq::<SpecCondition>::empty());
    }
    if q >= n {
        return Ok(SelectStmt { columns, table, conditions: no_conds });
    }
    if v[q] == ';' {
        if skip_ws_exec(&v, q + 1) >= n {
            return Ok(SelectStmt { columns, table, conditions: no_conds });
        } else {
            return Err(invalid_select());
        }
    }
    if !keyword_at(&v, q, &kww) {
        return Err(invalid_select());
    }
    let w = skip_ws_exec(&v, q + 5);
    if w == q + 5 {
        return Err(invalid_select());
    }
    let e1 = rstrip_ws_exec(&v, n);
    let e2 = if e1 > 0 && v[e1 - 1] == ';' {
        e1 - 1
    } else {
        e1
    };
    let e3 = rstrip_ws_exec(&v, e2);
    if w >= e3 {
        return Err(invalid_select());
    }
    let conditions = match parse_conditions_exec(&v, w, e3, &kwa) {
        Ok(cs2) => cs2,
        Err(m) => {
            return Err(m);
        },
    };
    Ok(SelectStmt { columns, table, conditions })
}

} // verus!
