//! Renders the database model as Lisp-style spec definitions, one
//! `(spec/def ...)` form per table. This renderer keeps table names
//! verbatim and does not distinguish nullable columns.

use crate::ColumnData;
use crate::ColumnView;
use crate::Database;
use crate::RailsColumn;
use crate::Table;
use crate::TableView;
use vstd::prelude::*;

verus! {

/// The spec-format type token of each column kind.
pub open spec fn type_token(t: RailsColumn) -> Seq<char> {
    match t {
        RailsColumn::PrimaryKey => "int?"@,
        RailsColumn::String => "string?"@,
        RailsColumn::Text => "string?"@,
        RailsColumn::Integer => "int?"@,
        RailsColumn::Bigint => "int?"@,
        RailsColumn::Float => "float?"@,
        RailsColumn::Decimal => "float?"@,
        RailsColumn::Numeric => "int?"@,
        RailsColumn::Datetime => "string?"@,
        RailsColumn::Time => "string?"@,
        RailsColumn::Date => "string?"@,
        RailsColumn::Binary => "string?"@,
        RailsColumn::Boolean => "boolean?"@,
        RailsColumn::HStore => "map?"@,
        RailsColumn::JsonB => "map?"@,
    }
}

/// One rendered column: a keyword-style name and its type token.
pub open spec fn column_line(c: ColumnView) -> Seq<char> {
    ":"@ + c.name + " "@ + type_token(c.value_type)
}

/// The rendered column lines joined by a newline and the three-space
/// indentation of the surrounding form.
pub open spec fn table_body(cols: Seq<ColumnView>, acc: Seq<char>) -> Seq<char>
    decreases cols.len(),
{
    if cols.len() == 0 {
        acc
    } else {
        table_body(
            cols.drop_first(),
            if acc.len() == 0 {
                acc + column_line(cols[0])
            } else {
                acc + "\n   "@ + column_line(cols[0])
            },
        )
    }
}

/// One rendered table: a `(spec/def ...)` form holding a map of columns.
pub open spec fn table_rendering(t: TableView) -> Seq<char> {
    "(spec/def "@ + t.name + "\n  {"@ + table_body(t.columns, Seq::empty()) + "})"@
}

/// The rendered tables joined by blank lines.
pub open spec fn database_fold(tables: Seq<TableView>, acc: Seq<char>) -> Seq<char>
    decreases tables.len(),
{
    if tables.len() == 0 {
        acc
    } else {
        database_fold(
            tables.drop_first(),
            if acc.len() == 0 {
                acc + table_rendering(tables[0])
            } else {
                acc + "\n\n"@ + table_rendering(tables[0])
            },
        )
    }
}

/// The whole rendered database.
pub open spec fn database_rendering(tables: Seq<TableView>) -> Seq<char> {
    database_fold(tables, Seq::empty())
}

/// Rendering into the Lisp-style spec format.
pub trait ToSpec {
    /// The exact character sequence `to_spec` renders.
    spec fn spec_rendering(&self) -> Seq<char>;

    /// Renders the value in the Lisp-style spec format.
    fn to_spec(&self) -> (r: String)
        ensures
            r@ == self.spec_rendering(),
    ;
}

impl ToSpec for RailsColumn {
    open spec fn spec_rendering(&self) -> Seq<char> {
        type_token(*self)
    }

    fn to_spec(&self) -> (r: String) {
        match self {
            RailsColumn::PrimaryKey => "int?".to_owned(),
            RailsColumn::String => "string?".to_owned(),
            RailsColumn::Text => "string?".to_owned(),
            RailsColumn::Integer => "int?".to_owned(),
            RailsColumn::Bigint => "int?".to_owned(),
            RailsColumn::Float => "float?".to_owned(),
            RailsColumn::Decimal => "float?".to_owned(),
            RailsColumn::Numeric => "int?".to_owned(),
            RailsColumn::Datetime => "string?".to_owned(),
            RailsColumn::Time => "string?".to_owned(),
            RailsColumn::Date => "string?".to_owned(),
            RailsColumn::Binary => "string?".to_owned(),
            RailsColumn::Boolean => "boolean?".to_owned(),
            RailsColumn::HStore => "map?".to_owned(),
            RailsColumn::JsonB => "map?".to_owned(),
        }
    }
}

impl ToSpec for ColumnData {
    open spec fn spec_rendering(&self) -> Seq<char> {
        column_line(self@)
    }

    fn to_spec(&self) -> (r: String) {
        let tok = self.value_type.to_spec();
        let mut r = ":".to_owned();
        r.append(self.name.as_str());
        r.append(" ");
        r.append(tok.as_str());
        r
    }
}

impl ToSpec for Table {
    open spec fn spec_rendering(&self) -> Seq<char> {
        table_rendering(self@)
    }

    fn to_spec(&self) -> (r: String) {
        let ghost cols_v = self.columns@.map_values(|c: ColumnData| c@);
        let mut body = String::new();
        let mut i: usize = 0;
        proof {
            assert(cols_v.skip(0) =~= cols_v);
        }
        while i < self.columns.len()
            invariant
                0 <= i <= self.columns.len(),
                cols_v == self.columns@.map_values(|c: ColumnData| c@),
                table_body(cols_v, Seq::empty()) == table_body(cols_v.skip(i as int), body@),
            decreases self.columns.len() - i,
        {
            proof {
                assert(cols_v.skip(i as int)[0] == cols_v[i as int]);
                assert(cols_v.skip(i as int).drop_first() =~= cols_v.skip(i as int + 1));
            }
            let line = self.columns[i].to_spec();
            if body.as_str().is_empty() {
                body.append(line.as_str());
            } else {
                body.append("\n   ");
                body.append(line.as_str());
            }
            i += 1;
        }
        proof {
            assert(cols_v.skip(self.columns@.len() as int) =~= Seq::<ColumnView>::empty());
        }
        let mut r = "(spec/def ".to_owned();
        r.append(self.name.as_str());
        r.append("\n  {");
        r.append(body.as_str());
        r.append("})");
        r
    }
}

impl ToSpec for Database {
    open spec fn spec_rendering(&self) -> Seq<char> {
        database_rendering(self@)
    }

    fn to_spec(&self) -> (r: String) {
        let ghost tabs_v = self.0@.map_values(|t: Table| t@);
        let mut r = String::new();
        let mut i: usize = 0;
        proof {
            assert(tabs_v.skip(0) =~= tabs_v);
        }
        while i < self.0.len()
            invariant
                0 <= i <= self.0.len(),
                tabs_v == self.0@.map_values(|t: Table| t@),
                database_fold(tabs_v, Seq::empty()) == database_fold(tabs_v.skip(i as int), r@),
            decreases self.0.len() - i,
        {
            proof {
                assert(tabs_v.skip(i as int)[0] == tabs_v[i as int]);
                assert(tabs_v.skip(i as int).drop_first() =~= tabs_v.skip(i as int + 1));
            }
            let rendered = self.0[i].to_spec();
            if r.as_str().is_empty() {
                r.append(rendered.as_str());
            } else {
                r.append("\n\n");
                r.append(rendered.as_str());
            }
            i += 1;
        }
        proof {
            assert(tabs_v.skip(self.0@.len() as int) =~= Seq::<TableView>::empty());
        }
        r
    }
}

} // verus!
