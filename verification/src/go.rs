//! Renders the database model as Go struct declarations: one `struct` per
//! table. Every field keeps the same shape; nullability shows only in the
//! pointer types of the static mapping.

use crate::ColumnData;
use crate::ColumnView;
use crate::Database;
use crate::RailsColumn;
use crate::Table;
use crate::TableView;
use crate::spec_format_name;
use vstd::prelude::*;

verus! {

/// The Go type token of each column kind.
pub open spec fn type_token(t: RailsColumn) -> Seq<char> {
    match t {
        RailsColumn::PrimaryKey => "*int64"@,
        RailsColumn::String => "*string"@,
        RailsColumn::Text => "*string"@,
        RailsColumn::Integer => "*int64"@,
        RailsColumn::Bigint => "*int128"@,
        RailsColumn::Float => "*float64"@,
        RailsColumn::Decimal => "*float64"@,
        RailsColumn::Numeric => "*int64"@,
        RailsColumn::Datetime => "*time.Time"@,
        RailsColumn::Time => "*time.Time"@,
        RailsColumn::Date => "*time.Time"@,
        RailsColumn::Binary => "*[]uint8"@,
        RailsColumn::Boolean => "*bool"@,
        RailsColumn::HStore => "map[string]interface{}"@,
        RailsColumn::JsonB => "map[string]interface{}"@,
    }
}

/// One rendered field.
pub open spec fn column_line(c: ColumnView) -> Seq<char> {
    c.name + ": "@ + type_token(c.value_type) + ","@
}

/// The rendered fields, each on its own indented line.
pub open spec fn table_body(cols: Seq<ColumnView>, acc: Seq<char>) -> Seq<char>
    decreases cols.len(),
{
    if cols.len() == 0 {
        acc
    } else {
        table_body(cols.drop_first(), acc + "\n    "@ + column_line(cols[0]))
    }
}

/// One rendered table: a Go `struct` under the capitalized name.
pub open spec fn table_rendering(t: TableView) -> Seq<char> {
    "type "@ + spec_format_name(t.name) + " struct {"@ + table_body(t.columns, Seq::empty())
        + "\n}"@
}

/// The rendered tables joined by blank lines.
pub open spec fn database_fold(tables: Seq<TableView>, acc: Seq<char>) -> Seq<char>
    decreases tables.len(),
{
    if tables.len() == 0 {
        acc
    } else {
        database_fold(
            tables.drop_first(),
            if acc.len() == 0 {
                acc + table_rendering(tables[0])
            } else {
                acc + "\n\n"@ + table_rendering(tables[0])
            },
        )
    }
}

/// The whole rendered database.
pub open spec fn database_rendering(tables: Seq<TableView>) -> Seq<char> {
    database_fold(tables, Seq::empty())
}

/// Rendering into Go struct declarations.
pub trait ToGo {
    /// The exact character sequence `to_go` renders.
    spec fn go_rendering(&self) -> Seq<char>;

    /// Renders the value as Go source text.
    fn to_go(&self) -> (r: String)
        ensures
            r@ == self.go_rendering(),
    ;
}

impl ToGo for RailsColumn {
    open spec fn go_rendering(&self) -> Seq<char> {
        type_token(*self)
    }

    fn to_go(&self) -> (r: String) {
        match self {
            RailsColumn::PrimaryKey => "*int64".to_owned(),
            RailsColumn::String => "*string".to_owned(),
            RailsColumn::Text => "*string".to_owned(),
            RailsColumn::Integer => "*int64".to_owned(),
            RailsColumn::Bigint => "*int128".to_owned(),
            RailsColumn::Float => "*float64".to_owned(),
            RailsColumn::Decimal => "*float64".to_owned(),
            RailsColumn::Numeric => "*int64".to_owned(),
            RailsColumn::Datetime => "*time.Time".to_owned(),
            RailsColumn::Time => "*time.Time".to_owned(),
            RailsColumn::Date => "*time.Time".to_owned(),
            RailsColumn::Binary => "*[]uint8".to_owned(),
            RailsColumn::Boolean => "*bool".to_owned(),
            RailsColumn::HStore => "map[string]interface{}".to_owned(),
            RailsColumn::JsonB => "map[string]interface{}".to_owned(),
        }
    }
}

impl ToGo for ColumnData {
    open spec fn go_rendering(&self) -> Seq<char> {
        column_line(self@)
    }

    fn to_go(&self) -> (r: String) {
        let tok = self.value_type.to_go();
        let mut r = self.name.clone();
        r.append(": ");
        r.append(tok.as_str());
        r.append(",");
        r
    }
}

impl ToGo for Table {
    open spec fn go_rendering(&self) -> Seq<char> {
        table_rendering(self@)
    }

    fn to_go(&self) -> (r: String) {
        let ghost cols_v = self.columns@.map_values(|c: ColumnData| c@);
        let mut body = String::new();
        let mut i: usize = 0;
        proof {
            assert(cols_v.skip(0) =~= cols_v);
        }
        while i < self.columns.len()
            invariant
                0 <= i <= self.columns.len(),
                cols_v == self.columns@.map_values(|c: ColumnData| c@),
                table_body(cols_v, Seq::empty()) == table_body(cols_v.skip(i as int), body@),
            decreases self.columns.len() - i,
        {
            proof {
                assert(cols_v.skip(i as int)[0] == cols_v[i as int]);
                assert(cols_v.skip(i as int).drop_first() =~= cols_v.skip(i as int + 1));
            }
            let line = self.columns[i].to_go();
            body.append("\n    ");
            body.append(line.as_str());
            i += 1;
        }
        proof {
            assert(cols_v.skip(self.columns@.len() as int) =~= Seq::<ColumnView>::empty());
        }
        let name = crate::format_name(self.name.as_str());
        let mut r = "type ".to_owned();
        r.append(name.as_str());
        r.append(" struct {");
        r.append(body.as_str());
        r.append("\n}");
        r
    }
}

impl ToGo for Database {
    open spec fn go_rendering(&self) -> Seq<char> {
        database_rendering(self@)
    }

    fn to_go(&self) -> (r: String) {
        let ghost tabs_v = self.0@.map_values(|t: Table| t@);
        let mut r = String::new();
        let mut i: usize = 0;
        proof {
            assert(tabs_v.skip(0) =~= tabs_v);
        }
        while i < self.0.len()
            invariant
                0 <= i <= self.0.len(),
                tabs_v == self.0@.map_values(|t: Table| t@),
                database_fold(tabs_v, Seq::empty()) == database_fold(tabs_v.skip(i as int), r@),
            decreases self.0.len() - i,
        {
            proof {
                assert(tabs_v.skip(i as int)[0] == tabs_v[i as int]);
                assert(tabs_v.skip(i as int).drop_first() =~= tabs_v.skip(i as int + 1));
            }
            let rendered = self.0[i].to_go();
            if r.as_str().is_empty() {
                r.append(rendered.as_str());
            } else {
                r.append("\n\n");
                r.append(rendered.as_str());
            }
            i += 1;
        }
        proof {
            assert(tabs_v.skip(self.0@.len() as int) =~= Seq::<TableView>::empty());
        }
        r
    }
}

} // verus!
