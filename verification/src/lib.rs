//! Parses a Rails `schema.rb` style schema description into a relational
//! model (`Database` -> `Table` -> `ColumnData`) and renders that model as
//! type declarations for several target type systems.

use vstd::prelude::*;

pub mod go;
pub mod laws;
pub mod rails_parser;
pub mod rust;
pub mod spec_format;
pub mod typescript;

verus! {

/// The semantic kind of a declared column. The set is closed: the parser
/// never coerces an unrecognized keyword into a kind.
#[derive(Clone, Copy, Debug, PartialEq, Eq, Structural)]
pub enum RailsColumn {
    PrimaryKey,
    String,
    Text,
    Integer,
    Bigint,
    Float,
    Decimal,
    Numeric,
    Datetime,
    Time,
    Date,
    Binary,
    HStore,
    JsonB,
    Boolean,
}

/// Mathematical model of a single column declaration.
pub ghost struct ColumnView {
    pub value_type: RailsColumn,
    pub name: Seq<char>,
    pub nullable: bool,
}

/// One column of a table: its declared kind, its name (stripped of the
/// quote and comma punctuation of the source grammar), and whether the
/// declaration allows null values.
#[derive(Debug)]
pub struct ColumnData {
    pub value_type: RailsColumn,
    pub name: String,
    pub nullable: bool,
}

impl View for ColumnData {
    type V = ColumnView;

    open spec fn view(&self) -> ColumnView {
        ColumnView { value_type: self.value_type, name: self.name@, nullable: self.nullable }
    }
}

/// Equality of column models, field by field.
pub open spec fn col_view_eq(a: ColumnView, b: ColumnView) -> bool {
    &&& a.value_type == b.value_type
    &&& a.name == b.name
    &&& a.nullable == b.nullable
}

impl PartialEq for ColumnData {
    fn eq(&self, other: &Self) -> (r: bool)
        ensures
            r == col_view_eq(self@, other@),
    {
        self.value_type == other.value_type && self.name == other.name
            && self.nullable == other.nullable
    }
}

impl vstd::std_specs::cmp::PartialEqSpecImpl for ColumnData {
    open spec fn obeys_eq_spec() -> bool {
        true
    }

    open spec fn eq_spec(&self, other: &Self) -> bool {
        col_view_eq(self@, other@)
    }
}

/// Mathematical model of a table: its name and its columns in declaration
/// order.
pub ghost struct TableView {
    pub name: Seq<char>,
    pub columns: Seq<ColumnView>,
}

/// One table of the schema. Column order is declaration order.
#[derive(Debug)]
pub struct Table {
    pub name: String,
    pub columns: Vec<ColumnData>,
}

impl View for Table {
    type V = TableView;

    open spec fn view(&self) -> TableView {
        TableView { name: self.name@, columns: self.columns@.map_values(|c: ColumnData| c@) }
    }
}

/// Whether some column of `cols` equals `c`.
pub open spec fn cols_contain(cols: Seq<ColumnView>, c: ColumnView) -> bool {
    exists|j: int| 0 <= j < cols.len() && col_view_eq(cols[j], c)
}

/// Two tables are equal when their names match, they have the same number
/// of columns, and each holds every column of the other - column order is
/// irrelevant to table equality.
pub open spec fn table_view_eq(a: TableView, b: TableView) -> bool {
    &&& a.name == b.name
    &&& a.columns.len() == b.columns.len()
    &&& forall|i: int|
        0 <= i < a.columns.len() ==> cols_contain(b.columns, #[trigger] a.columns[i])
    &&& forall|j: int|
        0 <= j < b.columns.len() ==> cols_contain(a.columns, #[trigger] b.columns[j])
}

fn contains_column(cols: &Vec<ColumnData>, c: &ColumnData) -> (r: bool)
    ensures
        r == cols_contain(cols@.map_values(|x: ColumnData| x@), c@),
{
    let ghost cv = cols@.map_values(|x: ColumnData| x@);
    let mut j: usize = 0;
    while j < cols.len()
        invariant
            0 <= j <= cols.len(),
            cv == cols@.map_values(|x: ColumnData| x@),
            forall|k: int| 0 <= k < j ==> !col_view_eq(cv[k], c@),
        decreases cols.len() - j,
    {
        if cols[j] == *c {
            assert(col_view_eq(cv[j as int], c@));
            return true;
        }
        j += 1;
    }
    false
}

impl PartialEq for Table {
    fn eq(&self, other: &Self) -> (r: bool)
        ensures
            r == table_view_eq(self@, other@),
    {
        if self.columns.len() != other.columns.len() {
            return false;
        }
        let eq_names = self.name == other.name;
        let ghost sv = self.columns@.map_values(|x: ColumnData| x@);
        let ghost ov = other.columns@.map_values(|x: ColumnData| x@);
        let mut contains_self = true;
        let mut i: usize = 0;
        while i < self.columns.len()
            invariant
                0 <= i <= self.columns.len(),
                sv == self.columns@.map_values(|x: ColumnData| x@),
                ov == other.columns@.map_values(|x: ColumnData| x@),
                contains_self == forall|k: int| 0 <= k < i ==> cols_contain(ov, #[trigger] sv[k]),
            decreases self.columns.len() - i,
        {
            let got = contains_column(&other.columns, &self.columns[i]);
            assert(sv[i as int] == self.columns@[i as int]@);
            if !got {
                contains_self = false;
            }
            i += 1;
        }
        let mut contains_other = true;
        let mut j: usize = 0;
        while j < other.columns.len()
            invariant
                0 <= j <= other.columns.len(),
                sv == self.columns@.map_values(|x: ColumnData| x@),
                ov == other.columns@.map_values(|x: ColumnData| x@),
                contains_other == forall|k: int| 0 <= k < j ==> cols_contain(sv, #[trigger] ov[k]),
            decreases other.columns.len() - j,
        {
            let got = contains_column(&self.columns, &other.columns[j]);
            assert(ov[j as int] == other.columns@[j as int]@);
            if !got {
                contains_other = false;
            }
            j += 1;
        }
        eq_names && contains_self && contains_other
    }
}

impl vstd::std_specs::cmp::PartialEqSpecImpl for Table {
    open spec fn obeys_eq_spec() -> bool {
        true
    }

    open spec fn eq_spec(&self, other: &Self) -> bool {
        table_view_eq(self@, other@)
    }
}

/// The whole parsed schema: the discovered tables, in discovery order.
#[derive(Debug)]
pub struct Database(pub Vec<Table>);

impl View for Database {
    type V = Seq<TableView>;

    open spec fn view(&self) -> Seq<TableView> {
        self.0@.map_values(|t: Table| t@)
    }
}

/// Two databases are equal when they hold equal tables in the same order.
pub open spec fn db_view_eq(a: Seq<TableView>, b: Seq<TableView>) -> bool {
    &&& a.len() == b.len()
    &&& forall|i: int| 0 <= i < a.len() ==> table_view_eq(#[trigger] a[i], b[i])
}

impl PartialEq for Database {
    fn eq(&self, other: &Self) -> (r: bool)
        ensures
            r == db_view_eq(self@, other@),
    {
        if self.0.len() != other.0.len() {
            return false;
        }
        let mut i: usize = 0;
        while i < self.0.len()
            invariant
                0 <= i <= self.0.len(),
                self.0.len() == other.0.len(),
                forall|k: int| 0 <= k < i ==> table_view_eq(#[trigger] self@[k], other@[k]),
            decreases self.0.len() - i,
        {
            if !(self.0[i] == other.0[i]) {
                assert(!table_view_eq(self@[i as int], other@[i as int]));
                return false;
            }
            i += 1;
        }
        true
    }
}

impl vstd::std_specs::cmp::PartialEqSpecImpl for Database {
    open spec fn obeys_eq_spec() -> bool {
        true
    }

    open spec fn eq_spec(&self, other: &Self) -> bool {
        db_view_eq(self@, other@)
    }
}

/// ASCII lower-case letters become upper case; everything else is kept.
pub open spec fn spec_upper_char(c: char) -> char {
    if 97 <= c as u32 && c as u32 <= 122 {
        (((c as u32) - 32) as u8) as char
    } else {
        c
    }
}

/// The capitalized-concatenated form of a name, read left to right:
/// underscores are dropped, the first character of each underscore-delimited
/// segment is upper-cased, and the rest of a segment is kept as it is.
pub open spec fn spec_capitalize_from(s: Seq<char>, at_start: bool) -> Seq<char>
    decreases s.len(),
{
    if s.len() == 0 {
        Seq::empty()
    } else if s[0] == '_' {
        spec_capitalize_from(s.drop_first(), true)
    } else if at_start {
        seq![spec_upper_char(s[0])] + spec_capitalize_from(s.drop_first(), false)
    } else {
        seq![s[0]] + spec_capitalize_from(s.drop_first(), false)
    }
}

/// The identifier form used by the structural renderers: each
/// underscore-delimited segment capitalized, all segments concatenated.
pub open spec fn spec_format_name(s: Seq<char>) -> Seq<char> {
    spec_capitalize_from(s, true)
}

/// Relies on `String::push`: appends exactly one character at the end.
#[verifier::external_body]
fn push_char(s: &mut String, c: char)
    ensures
        final(s)@ == old(s)@.push(c),
{
    s.push(c);
}

fn upper_char(c: char) -> (r: char)
    ensures
        r == spec_upper_char(c),
{
    let u = c as u32;
    if 97 <= u && u <= 122 {
        ((u - 32) as u8) as char
    } else {
        c
    }
}

/// Turns a snake_case table name into the capitalized-concatenated
/// identifier the structural renderers use for type names.
pub fn format_name(name: &str) -> (r: String)
    ensures
        r@ == spec_format_name(name@),
{
    let n = name.unicode_len();
    let mut r = String::new();
    let mut i: usize = 0;
    let mut at_start: bool = true;
    proof {
        assert(name@.skip(0) =~= name@);
        assert(Seq::<char>::empty() + spec_capitalize_from(name@, true) =~= spec_capitalize_from(
            name@,
            true,
        ));
    }
    while i < n
        invariant
            0 <= i <= n,
            n == name@.len(),
            spec_format_name(name@) == r@ + spec_capitalize_from(name@.skip(i as int), at_start),
        decreases n - i,
    {
        let c = name.get_char(i);
        proof {
            assert(name@.skip(i as int)[0] == name@[i as int]);
            assert(name@.skip(i as int).drop_first() =~= name@.skip(i as int + 1));
        }
        if c == '_' {
            at_start = true;
        } else if at_start {
            let u = upper_char(c);
            push_char(&mut r, u);
            proof {
                assert(r@ =~= (r@.drop_last() + seq![u]));
            }
            at_start = false;
        } else {
            push_char(&mut r, c);
            proof {
                assert(r@ =~= (r@.drop_last() + seq![c]));
            }
        }
        i += 1;
    }
    proof {
        assert(name@.skip(n as int) =~= Seq::<char>::empty());
        assert(r@ + Seq::<char>::empty() =~= r@);
    }
    r
}

} // verus!
