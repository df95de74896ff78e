//! The tokenizing schema parser: raw schema text is split into whitespace
//! separated tokens, and a two-state scanner turns the token stream into the
//! `Database` model, failing fast on structurally invalid input.

use crate::ColumnData;
use crate::ColumnView;
use crate::Database;
use crate::RailsColumn;
use crate::Table;
use crate::TableView;
use vstd::prelude::*;

verus! {

/// The fatal structural errors of the schema grammar. Either aborts the
/// whole parse: no partial `Database` is produced.
#[derive(Clone, Copy, Debug, PartialEq, Eq, Structural)]
pub enum StructuralParseError {
    /// A table-start marker stood inside an already-open table body.
    NestedCreateTable,
    /// A table body was opened but the tokens ran out before its end marker.
    UnterminatedTable,
}

impl StructuralParseError {
    /// A human-readable description of the error.
    pub fn message(&self) -> (r: String)
        ensures
            *self == StructuralParseError::NestedCreateTable ==> r@
                == "Warning Invalid Rails Schema:\n Found create_table inside create_table block"@,
            *self == StructuralParseError::UnterminatedTable ==> r@
                == "Parsing Error: \n create_table block does not have matching end"@,
    {
        match self {
            StructuralParseError::NestedCreateTable => {
                "Warning Invalid Rails Schema:\n Found create_table inside create_table block".to_owned()
            },
            StructuralParseError::UnterminatedTable => {
                "Parsing Error: \n create_table block does not have matching end".to_owned()
            },
        }
    }
}

/// The whitespace characters that separate tokens: the Unicode
/// White_Space set (space, tab, line and form feeds, carriage return, and
/// the Unicode separator characters).
pub open spec fn is_schema_ws(c: char) -> bool {
    ||| c == ' '
    ||| c == '\t'
    ||| c == '\n'
    ||| c == '\u{b}'
    ||| c == '\u{c}'
    ||| c == '\r'
    ||| c == '\u{85}'
    ||| c == '\u{a0}'
    ||| c == '\u{1680}'
    ||| (0x2000 <= c as u32 && c as u32 <= 0x200a)
    ||| c == '\u{2028}'
    ||| c == '\u{2029}'
    ||| c == '\u{202f}'
    ||| c == '\u{205f}'
    ||| c == '\u{3000}'
}

fn is_schema_ws_exec(c: char) -> (r: bool)
    ensures
        r == is_schema_ws(c),
{
    let u = c as u32;
    u == 0x20 || u == 0x09 || u == 0x0a || u == 0x0b || u == 0x0c || u == 0x0d || u == 0x85
        || u == 0xa0 || u == 0x1680 || (0x2000 <= u && u <= 0x200a) || u == 0x2028 || u == 0x2029
        || u == 0x202f || u == 0x205f || u == 0x3000
}

/// One step short of `spec_tokens`: the tokens of `s` when a partial token
/// `cur` is already open and the tokens `acc` are already complete.
pub open spec fn tokens_fold(s: Seq<char>, cur: Seq<char>, acc: Seq<Seq<char>>) -> Seq<Seq<char>>
    decreases s.len(),
{
    if s.len() == 0 {
        if cur.len() == 0 {
            acc
        } else {
            acc.push(cur)
        }
    } else if is_schema_ws(s[0]) {
        if cur.len() == 0 {
            tokens_fold(s.drop_first(), Seq::empty(), acc)
        } else {
            tokens_fold(s.drop_first(), Seq::empty(), acc.push(cur))
        }
    } else {
        tokens_fold(s.drop_first(), cur.push(s[0]), acc)
    }
}

/// The token sequence of a schema text: its maximal runs of non-whitespace
/// characters, in order. Tokens are never empty.
pub open spec fn spec_tokens(s: Seq<char>) -> Seq<Seq<char>> {
    tokens_fold(s, Seq::empty(), Seq::empty())
}

/// Character-for-character equality of two string slices.
fn str_eq(a: &str, b: &str) -> (r: bool)
    ensures
        r == (a@ == b@),
{
    let na = a.unicode_len();
    let nb = b.unicode_len();
    if na != nb {
        return false;
    }
    let mut i: usize = 0;
    while i < na
        invariant
            0 <= i <= na,
            na == a@.len(),
            na == b@.len(),
            forall|k: int| 0 <= k < i ==> a@[k] == b@[k],
        decreases na - i,
    {
        if a.get_char(i) != b.get_char(i) {
            return false;
        }
        i += 1;
    }
    proof {
        assert(a@ =~= b@);
    }
    true
}

/// Splits the schema text into its whitespace-separated tokens. Total and
/// deterministic; keeps left-to-right order; never yields an empty token.
pub fn tokenize(s: &str) -> (r: Vec<String>)
    ensures
        r.deep_view() == spec_tokens(s@),
{
    let n = s.unicode_len();
    let mut toks: Vec<String> = Vec::new();
    let mut i: usize = 0;
    let mut start: usize = 0;
    let mut in_tok: bool = false;
    proof {
        assert(s@.skip(0) =~= s@);
        assert(toks.deep_view() =~= Seq::<Seq<char>>::empty());
    }
    while i < n
        invariant
            0 <= i <= n,
            n == s@.len(),
            in_tok ==> 0 <= start < i,
            spec_tokens(s@) == tokens_fold(
                s@.skip(i as int),
                if in_tok {
                    s@.subrange(start as int, i as int)
                } else {
                    Seq::<char>::empty()
                },
                toks.deep_view(),
            ),
        decreases n - i,
    {
        let c = s.get_char(i);
        proof {
            assert(s@.skip(i as int)[0] == s@[i as int]);
            assert(s@.skip(i as int).drop_first() =~= s@.skip(i as int + 1));
        }
        if is_schema_ws_exec(c) {
            if in_tok {
                let t = s.substring_char(start, i).to_owned();
                let ghost old_tv = toks.deep_view();
                toks.push(t);
                proof {
                    assert(toks.deep_view() =~= old_tv.push(s@.subrange(start as int, i as int)));
                }
                in_tok = false;
            }
        } else {
            if !in_tok {
                start = i;
                in_tok = true;
                proof {
                    assert(s@.subrange(start as int, i as int + 1) =~= Seq::<char>::empty().push(
                        s@[i as int],
                    ));
                }
            } else {
                proof {
                    assert(s@.subrange(start as int, i as int + 1) =~= s@.subrange(
                        start as int,
                        i as int,
                    ).push(s@[i as int]));
                }
            }
        }
        i += 1;
    }
    proof {
        assert(s@.skip(n as int) =~= Seq::<char>::empty());
    }
    if in_tok {
        let t = s.substring_char(start, n).to_owned();
        let ghost old_tv = toks.deep_view();
        toks.push(t);
        proof {
            assert(toks.deep_view() =~= old_tv.push(s@.subrange(start as int, n as int)));
        }
    }
    toks
}

/// The punctuation that the source grammar puts around names: quotes and
/// the trailing comma of an argument list.
pub open spec fn is_strip_char(c: char) -> bool {
    c == '"' || c == ','
}

pub open spec fn strip_front(s: Seq<char>) -> Seq<char>
    decreases s.len(),
{
    if s.len() > 0 && is_strip_char(s[0]) {
        strip_front(s.drop_first())
    } else {
        s
    }
}

pub open spec fn strip_back(s: Seq<char>) -> Seq<char>
    decreases s.len(),
{
    if s.len() > 0 && is_strip_char(s[s.len() - 1]) {
        strip_back(s.drop_last())
    } else {
        s
    }
}

/// A token with leading and trailing quote/comma punctuation removed; this
/// is how a name token becomes a table or column name.
pub open spec fn spec_strip(s: Seq<char>) -> Seq<char> {
    strip_back(strip_front(s))
}

proof fn lemma_strip_front_at(s: Seq<char>, lo: int)
    requires
        0 <= lo <= s.len(),
        forall|k: int| 0 <= k < lo ==> is_strip_char(s[k]),
        lo == s.len() || !is_strip_char(s[lo]),
    ensures
        strip_front(s) == s.skip(lo),
    decreases lo,
{
    if lo == 0 {
        assert(s.skip(0) =~= s);
    } else {
        lemma_strip_front_at(s.drop_first(), lo - 1);
        assert(s.drop_first().skip(lo - 1) =~= s.skip(lo));
    }
}

proof fn lemma_strip_back_at(s: Seq<char>, hi: int)
    requires
        0 <= hi <= s.len(),
        forall|k: int| hi <= k < s.len() ==> is_strip_char(s[k]),
        hi == 0 || !is_strip_char(s[hi - 1]),
    ensures
        strip_back(s) == s.take(hi),
    decreases s.len() - hi,
{
    if hi == s.len() {
        assert(s.take(hi) =~= s);
    } else {
        lemma_strip_back_at(s.drop_last(), hi);
        assert(s.drop_last().take(hi) =~= s.take(hi));
    }
}

fn is_strip_char_exec(c: char) -> (r: bool)
    ensures
        r == is_strip_char(c),
{
    c == '"' || c == ','
}

/// Removes the surrounding quote and comma punctuation from a name token.
pub fn strip_token(t: &str) -> (r: String)
    ensures
        r@ == spec_strip(t@),
{
    let n = t.unicode_len();
    let mut lo: usize = 0;
    while lo < n && is_strip_char_exec(t.get_char(lo))
        invariant
            0 <= lo <= n,
            n == t@.len(),
            forall|k: int| 0 <= k < lo ==> is_strip_char(t@[k]),
        decreases n - lo,
    {
        lo += 1;
    }
    proof {
        lemma_strip_front_at(t@, lo as int);
    }
    let mut hi: usize = n;
    while hi > lo && is_strip_char_exec(t.get_char(hi - 1))
        invariant
            lo <= hi <= n,
            n == t@.len(),
            forall|k: int| hi <= k < n ==> is_strip_char(t@[k]),
        decreases hi,
    {
        hi -= 1;
    }
    proof {
        let stripped = t@.skip(lo as int);
        assert forall|k: int| hi - lo <= k < stripped.len() implies is_strip_char(
            stripped[k],
        ) by {
            assert(stripped[k] == t@[k + lo]);
        }
        if hi > lo {
            assert(stripped[hi - lo - 1] == t@[hi - 1]);
        }
        lemma_strip_back_at(stripped, hi - lo as int);
        assert(stripped.take(hi - lo as int) =~= t@.subrange(lo as int, hi as int));
    }
    t.substring_char(lo, hi).to_owned()
}

/// The position of the first `.` in a token, or `-1` when it has none.
pub open spec fn first_dot(s: Seq<char>) -> int
    decreases s.len(),
{
    if s.len() == 0 {
        -1
    } else if s[0] == '.' {
        0
    } else if first_dot(s.drop_first()) < 0 {
        -1
    } else {
        first_dot(s.drop_first()) + 1
    }
}

/// Pins `first_dot` down from a pointwise description: no dot before `d`,
/// and either a dot at `d` or no dot at all.
pub proof fn lemma_first_dot_at(s: Seq<char>, d: int)
    requires
        0 <= d <= s.len(),
        forall|k: int| 0 <= k < d ==> s[k] != '.',
        d == s.len() || s[d] == '.',
    ensures
        first_dot(s) == if d == s.len() {
            -1int
        } else {
            d
        },
    decreases d,
{
    if d == 0 {
    } else {
        lemma_first_dot_at(s.drop_first(), d - 1);
    }
}

/// The column kind named by a keyword word (the characters after the dot).
/// The two schemaless-blob spellings `hstore` and `jsonb` fold into the
/// same kind.
pub open spec fn spec_resolve_word(w: Seq<char>) -> Option<RailsColumn> {
    if w == "primary_key"@ {
        Some(RailsColumn::PrimaryKey)
    } else if w == "string"@ {
        Some(RailsColumn::String)
    } else if w == "text"@ {
        Some(RailsColumn::Text)
    } else if w == "integer"@ {
        Some(RailsColumn::Integer)
    } else if w == "bigint"@ {
        Some(RailsColumn::Bigint)
    } else if w == "float"@ {
        Some(RailsColumn::Float)
    } else if w == "decimal"@ {
        Some(RailsColumn::Decimal)
    } else if w == "numeric"@ {
        Some(RailsColumn::Numeric)
    } else if w == "datetime"@ {
        Some(RailsColumn::Datetime)
    } else if w == "time"@ {
        Some(RailsColumn::Time)
    } else if w == "date"@ {
        Some(RailsColumn::Date)
    } else if w == "binary"@ {
        Some(RailsColumn::Binary)
    } else if w == "boolean"@ {
        Some(RailsColumn::Boolean)
    } else if w == "hstore"@ {
        Some(RailsColumn::HStore)
    } else if w == "jsonb"@ {
        Some(RailsColumn::HStore)
    } else {
        None
    }
}

/// A token declares a column exactly when it has the form
/// `<receiver>.<word>` with a recognized keyword word after its first dot,
/// as in `t.integer` or `x.integer`. Anything else is not a column keyword.
pub open spec fn spec_resolve(t: Seq<char>) -> Option<RailsColumn> {
    if first_dot(t) >= 0 {
        spec_resolve_word(t.skip(first_dot(t) + 1))
    } else {
        None
    }
}

/// The column-keyword resolver: maps a token to the column kind it
/// declares, or `None` when the token is not a column keyword.
pub fn resolve(token: &str) -> (r: Option<RailsColumn>)
    ensures
        r == spec_resolve(token@),
{
    let n = token.unicode_len();
    let mut d: usize = 0;
    while d < n && token.get_char(d) != '.'
        invariant
            0 <= d <= n,
            n == token@.len(),
            forall|k: int| 0 <= k < d ==> token@[k] != '.',
        decreases n - d,
    {
        d += 1;
    }
    proof {
        lemma_first_dot_at(token@, d as int);
    }
    if d == n {
        return None;
    }
    let w = token.substring_char(d + 1, n);
    if str_eq(w, "primary_key") {
        Some(RailsColumn::PrimaryKey)
    } else if str_eq(w, "string") {
        Some(RailsColumn::String)
    } else if str_eq(w, "text") {
        Some(RailsColumn::Text)
    } else if str_eq(w, "integer") {
        Some(RailsColumn::Integer)
    } else if str_eq(w, "bigint") {
        Some(RailsColumn::Bigint)
    } else if str_eq(w, "float") {
        Some(RailsColumn::Float)
    } else if str_eq(w, "decimal") {
        Some(RailsColumn::Decimal)
    } else if str_eq(w, "numeric") {
        Some(RailsColumn::Numeric)
    } else if str_eq(w, "datetime") {
        Some(RailsColumn::Datetime)
    } else if str_eq(w, "time") {
        Some(RailsColumn::Time)
    } else if str_eq(w, "date") {
        Some(RailsColumn::Date)
    } else if str_eq(w, "binary") {
        Some(RailsColumn::Binary)
    } else if str_eq(w, "boolean") {
        Some(RailsColumn::Boolean)
    } else if str_eq(w, "hstore") {
        Some(RailsColumn::HStore)
    } else if str_eq(w, "jsonb") {
        Some(RailsColumn::HStore)
    } else {
        None
    }
}

/// The table-start marker of the grammar.
pub open spec fn create_marker() -> Seq<char> {
    "create_table"@
}

/// The table-end marker of the grammar.
pub open spec fn end_marker() -> Seq<char> {
    "end"@
}

/// The null-modifier key of the grammar.
pub open spec fn null_key() -> Seq<char> {
    "null:"@
}

/// The false literal of the grammar.
pub open spec fn false_lit() -> Seq<char> {
    "false"@
}

/// Fixed-offset nullability: a column stays nullable unless the two tokens
/// that follow its name (`tokens[j]` and `tokens[j + 1]`) are exactly the
/// null-modifier key and the literal `false`.
pub open spec fn spec_nullable(tokens: Seq<Seq<char>>, j: int) -> bool {
    !(j + 1 < tokens.len() && tokens[j] == null_key() && tokens[j + 1] == false_lit())
}

/// The table scanner's state: outside any table body, or inside one with
/// the table's name and the columns collected so far.
pub ghost enum ScanState {
    Seeking,
    InBody { name: Seq<char>, cols: Seq<ColumnView> },
}

/// The token-stream scanner, one token at a time from position `i`.
///
/// Seeking: a table-start marker consumes the following token as the
/// table's name (positionally - the name is never re-examined as a
/// keyword) and opens a body; every other token is skipped.
///
/// In a body: a nested table-start marker is a fatal error; the end marker
/// emits the table; a column keyword consumes the following token as the
/// column's name and inspects, without consuming, the two tokens after the
/// name for the null modifier; every other token is skipped. Running out
/// of tokens inside a body is a fatal error.
pub open spec fn scan(tokens: Seq<Seq<char>>, i: int, st: ScanState) -> Result<
    Seq<TableView>,
    StructuralParseError,
>
    decreases tokens.len() - i,
{
    if i >= tokens.len() {
        match st {
            ScanState::Seeking => Ok(Seq::empty()),
            ScanState::InBody { .. } => Err(StructuralParseError::UnterminatedTable),
        }
    } else {
        match st {
            ScanState::Seeking => {
                if tokens[i] == create_marker() {
                    if i + 1 >= tokens.len() {
                        Err(StructuralParseError::UnterminatedTable)
                    } else {
                        scan(
                            tokens,
                            i + 2,
                            ScanState::InBody { name: spec_strip(tokens[i + 1]), cols: Seq::empty() },
                        )
                    }
                } else {
                    scan(tokens, i + 1, ScanState::Seeking)
                }
            },
            ScanState::InBody { name, cols } => {
                if tokens[i] == create_marker() {
                    Err(StructuralParseError::NestedCreateTable)
                } else if tokens[i] == end_marker() {
                    match scan(tokens, i + 1, ScanState::Seeking) {
                        Ok(rest) => Ok(seq![TableView { name, columns: cols }] + rest),
                        Err(e) => Err(e),
                    }
                } else {
                    match spec_resolve(tokens[i]) {
                        Some(kind) => {
                            if i + 1 >= tokens.len() {
                                Err(StructuralParseError::UnterminatedTable)
                            } else {
                                scan(
                                    tokens,
                                    i + 2,
                                    ScanState::InBody {
                                        name,
                                        cols: cols.push(
                                            ColumnView {
                                                value_type: kind,
                                                name: spec_strip(tokens[i + 1]),
                                                nullable: spec_nullable(tokens, i + 2),
                                            },
                                        ),
                                    },
                                )
                            }
                        },
                        None => scan(tokens, i + 1, st),
                    }
                }
            },
        }
    }
}

/// The model of a whole schema text: the scan of its token sequence.
pub open spec fn spec_parse(s: Seq<char>) -> Result<Seq<TableView>, StructuralParseError> {
    scan(spec_tokens(s), 0, ScanState::Seeking)
}

/// The scanner state the parsing loop is in.
spec fn st_of(in_body: bool, name: Seq<char>, cols: Seq<ColumnView>) -> ScanState {
    if in_body {
        ScanState::InBody { name, cols }
    } else {
        ScanState::Seeking
    }
}

/// Tables already emitted, followed by whatever a scan still yields.
spec fn with_prefix(
    acc: Seq<TableView>,
    r: Result<Seq<TableView>, StructuralParseError>,
) -> Result<Seq<TableView>, StructuralParseError> {
    match r {
        Ok(rest) => Ok(acc + rest),
        Err(e) => Err(e),
    }
}

impl Database {
    /// Parses a schema text into the database model: tokens are scanned
    /// left to right, tables are collected in discovery order, and a
    /// structural error aborts the parse with no partial result.
    pub fn from(schema: &str) -> (r: Result<Database, StructuralParseError>)
        ensures
            match r {
                Ok(db) => spec_parse(schema@) == Ok::<Seq<TableView>, StructuralParseError>(db@),
                Err(e) => spec_parse(schema@) == Err::<Seq<TableView>, StructuralParseError>(e),
            },
    {
        let tokens = tokenize(schema);
        let ghost toks = tokens.deep_view();
        let mut tables: Vec<Table> = Vec::new();
        let mut in_body: bool = false;
        let mut cur_name: String = String::new();
        let mut cur_cols: Vec<ColumnData> = Vec::new();
        let mut i: usize = 0;
        proof {
            assert(tables@.map_values(|t: Table| t@) =~= Seq::<TableView>::empty());
            assert(toks.len() == tokens@.len());
        }
        while i < tokens.len()
            invariant
                toks == tokens.deep_view(),
                toks.len() == tokens@.len(),
                0 <= i <= toks.len(),
                spec_parse(schema@) == with_prefix(
                    tables@.map_values(|t: Table| t@),
                    scan(
                        toks,
                        i as int,
                        st_of(in_body, cur_name@, cur_cols@.map_values(|c: ColumnData| c@)),
                    ),
                ),
            decreases toks.len() - i,
        {
            let ghost acc = tables@.map_values(|t: Table| t@);
            let ghost cols_v = cur_cols@.map_values(|c: ColumnData| c@);
            proof {
                assert(toks[i as int] == tokens@[i as int]@);
            }
            let is_create = str_eq(tokens[i].as_str(), "create_table");
            if !in_body {
                if is_create {
                    if tokens.len() - i < 2 {
                        return Err(StructuralParseError::UnterminatedTable);
                    }
                    proof {
                        assert(toks[i as int + 1] == tokens@[i as int + 1]@);
                    }
                    cur_name = strip_token(tokens[i + 1].as_str());
                    cur_cols = Vec::new();
                    in_body = true;
                    proof {
                        assert(cur_cols@.map_values(|c: ColumnData| c@) =~= Seq::<
                            ColumnView,
                        >::empty());
                    }
                    i += 2;
                } else {
                    i += 1;
                }
            } else {
                if is_create {
                    return Err(StructuralParseError::NestedCreateTable);
                }
                let is_end = str_eq(tokens[i].as_str(), "end");
                if is_end {
                    let name = cur_name;
                    let columns = cur_cols;
                    cur_name = String::new();
                    cur_cols = Vec::new();
                    let ghost tv = TableView { name: name@, columns: cols_v };
                    tables.push(Table { name, columns });
                    proof {
                        assert(tables@.map_values(|t: Table| t@) =~= acc.push(tv));
                        let next = scan(toks, i as int + 1, ScanState::Seeking);
                        if next is Ok {
                            assert(acc + (seq![tv] + next->Ok_0) =~= acc.push(tv) + next->Ok_0);
                        }
                    }
                    in_body = false;
                    i += 1;
                } else {
                    let kind = resolve(tokens[i].as_str());
                    match kind {
                        Some(value_type) => {
                            if tokens.len() - i < 2 {
                                return Err(StructuralParseError::UnterminatedTable);
                            }
                            proof {
                                assert(toks[i as int + 1] == tokens@[i as int + 1]@);
                            }
                            let nullable: bool = if tokens.len() - i > 3 {
                                proof {
                                    assert(toks[i as int + 2] == tokens@[i as int + 2]@);
                                    assert(toks[i as int + 3] == tokens@[i as int + 3]@);
                                }
                                !(str_eq(tokens[i + 2].as_str(), "null:") && str_eq(
                                    tokens[i + 3].as_str(),
                                    "false",
                                ))
                            } else {
                                true
                            };
                            proof {
                                assert(nullable == spec_nullable(toks, i as int + 2));
                            }
                            let name = strip_token(tokens[i + 1].as_str());
                            let col = ColumnData { value_type, name, nullable };
                            let ghost cv = col@;
                            cur_cols.push(col);
                            proof {
                                assert(cur_cols@.map_values(|c: ColumnData| c@) =~= cols_v.push(
                                    cv,
                                ));
                            }
                            i += 2;
                        },
                        None => {
                            i += 1;
                        },
                    }
                }
            }
        }
        if in_body {
            return Err(StructuralParseError::UnterminatedTable);
        }
        proof {
            let acc = tables@.map_values(|t: Table| t@);
            assert(acc + Seq::<TableView>::empty() =~= acc);
        }
        Ok(Database(tables))
    }
}

} // verus!
