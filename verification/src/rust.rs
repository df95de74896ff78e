//! Renders the database model as Rust struct declarations: one `struct`
//! per table, nullable columns wrapped in `Option`.

use crate::ColumnData;
use crate::ColumnView;
use crate::Database;
use crate::RailsColumn;
use crate::Table;
use crate::TableView;
use crate::spec_format_name;
use vstd::prelude::*;

verus! {

/// The Rust type token of each column kind.
pub open spec fn type_token(t: RailsColumn) -> Seq<char> {
    match t {
        RailsColumn::PrimaryKey => "usize"@,
        RailsColumn::String => "String"@,
        RailsColumn::Text => "String"@,
        RailsColumn::Integer => "i64"@,
        RailsColumn::Bigint => "i128"@,
        RailsColumn::Float => "f64"@,
        RailsColumn::Decimal => "f64"@,
        RailsColumn::Numeric => "i64"@,
        RailsColumn::Datetime => "String"@,
        RailsColumn::Time => "String"@,
        RailsColumn::Date => "String"@,
        RailsColumn::Binary => "Vec<u8>"@,
        RailsColumn::Boolean => "bool"@,
        RailsColumn::HStore => "std::collections::HashMap<String,String>"@,
        RailsColumn::JsonB => "std::collections::HashMap<String,String>"@,
    }
}

/// One rendered field: nullable columns get an `Option` around their type.
pub open spec fn column_line(c: ColumnView) -> Seq<char> {
    if c.nullable {
        c.name + ": Option<"@ + type_token(c.value_type) + ">,"@
    } else {
        c.name + ": "@ + type_token(c.value_type) + ","@
    }
}

/// The rendered fields, each on its own indented line.
pub open spec fn table_body(cols: Seq<ColumnView>, acc: Seq<char>) -> Seq<char>
    decreases cols.len(),
{
    if cols.len() == 0 {
        acc
    } else {
        table_body(cols.drop_first(), acc + "\n   "@ + column_line(cols[0]))
    }
}

/// One rendered table: a `struct` declaration under the capitalized name.
pub open spec fn table_rendering(t: TableView) -> Seq<char> {
    "struct "@ + spec_format_name(t.name) + " {"@ + table_body(t.columns, Seq::empty()) + "\n}"@
}

/// The rendered tables joined by blank lines.
pub open spec fn database_fold(tables: Seq<TableView>, acc: Seq<char>) -> Seq<char>
    decreases tables.len(),
{
    if tables.len() == 0 {
        acc
    } else {
        database_fold(
            tables.drop_first(),
            if acc.len() == 0 {
                acc + table_rendering(tables[0])
            } else {
                acc + "\n\n"@ + table_rendering(tables[0])
            },
        )
    }
}

/// The whole rendered database.
pub open spec fn database_rendering(tables: Seq<TableView>) -> Seq<char> {
    database_fold(tables, Seq::empty())
}

/// Rendering into Rust struct declarations.
pub trait ToRust {
    /// The exact character sequence `to_rust` renders.
    spec fn rust_rendering(&self) -> Seq<char>;

    /// Renders the value as Rust source text.
    fn to_rust(&self) -> (r: String)
        ensures
            r@ == self.rust_rendering(),
    ;
}

impl ToRust for RailsColumn {
    open spec fn rust_rendering(&self) -> Seq<char> {
        type_token(*self)
    }

    fn to_rust(&self) -> (r: String) {
        match self {
            RailsColumn::PrimaryKey => "usize".to_owned(),
            RailsColumn::String => "String".to_owned(),
            RailsColumn::Text => "String".to_owned(),
            RailsColumn::Integer => "i64".to_owned(),
            RailsColumn::Bigint => "i128".to_owned(),
            RailsColumn::Float => "f64".to_owned(),
            RailsColumn::Decimal => "f64".to_owned(),
            RailsColumn::Numeric => "i64".to_owned(),
            RailsColumn::Datetime => "String".to_owned(),
            RailsColumn::Time => "String".to_owned(),
            RailsColumn::Date => "String".to_owned(),
            RailsColumn::Binary => "Vec<u8>".to_owned(),
            RailsColumn::Boolean => "bool".to_owned(),
            RailsColumn::HStore => "std::collections::HashMap<String,String>".to_owned(),
            RailsColumn::JsonB => "std::collections::HashMap<String,String>".to_owned(),
        }
    }
}

impl ToRust for ColumnData {
    open spec fn rust_rendering(&self) -> Seq<char> {
        column_line(self@)
    }

    fn to_rust(&self) -> (r: String) {
        let tok = self.value_type.to_rust();
        let mut r = self.name.clone();
        if self.nullable {
            r.append(": Option<");
            r.append(tok.as_str());
            r.append(">,");
        } else {
            r.append(": ");
            r.append(tok.as_str());
            r.append(",");
        }
        r
    }
}

impl ToRust for Table {
    open spec fn rust_rendering(&self) -> Seq<char> {
        table_rendering(self@)
    }

    fn to_rust(&self) -> (r: String) {
        let ghost cols_v = self.columns@.map_values(|c: ColumnData| c@);
        let mut body = String::new();
        let mut i: usize = 0;
        proof {
            assert(cols_v.skip(0) =~= cols_v);
        }
        while i < self.columns.len()
            invariant
                0 <= i <= self.columns.len(),
                cols_v == self.columns@.map_values(|c: ColumnData| c@),
                table_body(cols_v, Seq::empty()) == table_body(cols_v.skip(i as int), body@),
            decreases self.columns.len() - i,
        {
            proof {
                assert(cols_v.skip(i as int)[0] == cols_v[i as int]);
                assert(cols_v.skip(i as int).drop_first() =~= cols_v.skip(i as int + 1));
            }
            let line = self.columns[i].to_rust();
            body.append("\n   ");
            body.append(line.as_str());
            i += 1;
        }
        proof {
            assert(cols_v.skip(self.columns@.len() as int) =~= Seq::<ColumnView>::empty());
        }
        let name = crate::format_name(self.name.as_str());
        let mut r = "struct ".to_owned();
        r.append(name.as_str());
        r.append(" {");
        r.append(body.as_str());
        r.append("\n}");
        r
    }
}

impl ToRust for Database {
    open spec fn rust_rendering(&self) -> Seq<char> {
        database_rendering(self@)
    }

    fn to_rust(&self) -> (r: String) {
        let ghost tabs_v = self.0@.map_values(|t: Table| t@);
        let mut r = String::new();
        let mut i: usize = 0;
        proof {
            assert(tabs_v.skip(0) =~= tabs_v);
        }
        while i < self.0.len()
            invariant
                0 <= i <= self.0.len(),
                tabs_v == self.0@.map_values(|t: Table| t@),
                database_fold(tabs_v, Seq::empty()) == database_fold(tabs_v.skip(i as int), r@),
            decreases self.0.len() - i,
        {
            proof {
                assert(tabs_v.skip(i as int)[0] == tabs_v[i as int]);
                assert(tabs_v.skip(i as int).drop_first() =~= tabs_v.skip(i as int + 1));
            }
            let rendered = self.0[i].to_rust();
            if r.as_str().is_empty() {
                r.append(rendered.as_str());
            } else {
                r.append("\n\n");
                r.append(rendered.as_str());
            }
            i += 1;
        }
        proof {
            assert(tabs_v.skip(self.0@.len() as int) =~= Seq::<TableView>::empty());
        }
        r
    }
}

} // verus!
