use turbine::ColumnData;
use turbine::Database;
use turbine::RailsColumn;
use turbine::Table;
use turbine::rails_parser::StructuralParseError;
use turbine::rails_parser::resolve;
use turbine::rails_parser::strip_token;
use turbine::rails_parser::tokenize;

#[test]
fn it_parses_a_simple_rails_table_definition() {
    let table = "create_table \"sample_schema\", id: :serial, force: :cascade do |t|
    t.primary_key \"a\"
  end";
    assert_eq!(
        Database::from(table).unwrap(),
        Database(vec![Table {
            name: "sample_schema".to_string(),
            columns: vec![ColumnData {
                name: "a".to_string(),
                value_type: RailsColumn::PrimaryKey,
                nullable: true
            }]
        }])
    );
}

#[test]
fn it_parses_multiple_tables() {
    let table = "create_table \"table_1\", id: :serial, force: :cascade do |t|
    t.primary_key \"a\"
  end
  create_table \"table_2\", id: :serial, force: :cascade do |t|
    t.primary_key \"b\"
  end";
    assert_eq!(
        Database::from(table).unwrap(),
        Database(vec![
            Table {
                name: "table_1".to_string(),
                columns: vec![ColumnData {
                    name: "a".to_string(),
                    value_type: RailsColumn::PrimaryKey,
                    nullable: true
                }]
            },
            Table {
                name: "table_2".to_string(),
                columns: vec![ColumnData {
                    name: "b".to_string(),
                    value_type: RailsColumn::PrimaryKey,
                    nullable: true
                }]
            }
        ])
    );
}

#[test]
fn it_can_represent_every_column_type() {
    let table = "ActiveRecord::Schema.define(version: 20_210_916_202_951) do
  create_table \"sample_schema\", id: :serial, force: :cascade do |t|
    t.primary_key \"a\"
    t.string \"b\"
    t.text \"c\"
    t.integer \"d\"
    t.bigint \"e\"
    t.float \"f\"
    t.decimal \"g\"
    t.numeric \"h\"
    t.datetime \"i\"
    t.time \"j\"
    t.date \"k\"
    t.binary \"l\"
    t.boolean \"m\"
    t.hstore \"n\"
    t.jsonb \"o\"
    t.datetime \"created_at\", null: false
    t.datetime \"updated_at\", null: false
  end
end";
    assert_eq!(
        Database::from(table).unwrap(),
        Database(vec![Table {
            name: "sample_schema".to_string(),
            columns: vec![
                ColumnData {
                    value_type: RailsColumn::PrimaryKey,
                    name: "a".to_string(),
                    nullable: true
                },
                ColumnData {
                    value_type: RailsColumn::String,
                    name: "b".to_string(),
                    nullable: true
                },
                ColumnData {
                    value_type: RailsColumn::Text,
                    name: "c".to_string(),
                    nullable: true
                },
                ColumnData {
                    value_type: RailsColumn::Integer,
                    name: "d".to_string(),
                    nullable: true
                },
                ColumnData {
                    value_type: RailsColumn::Bigint,
                    name: "e".to_string(),
                    nullable: true
                },
                ColumnData {
                    value_type: RailsColumn::Float,
                    name: "f".to_string(),
                    nullable: true
                },
                ColumnData {
                    value_type: RailsColumn::Decimal,
                    name: "g".to_string(),
                    nullable: true
                },
                ColumnData {
                    value_type: RailsColumn::Numeric,
                    name: "h".to_string(),
                    nullable: true
                },
                ColumnData {
                    value_type: RailsColumn::Datetime,
                    name: "i".to_string(),
                    nullable: true
                },
                ColumnData {
                    value_type: RailsColumn::Time,
                    name: "j".to_string(),
                    nullable: true
                },
                ColumnData {
                    value_type: RailsColumn::Date,
                    name: "k".to_string(),
                    nullable: true
                },
                ColumnData {
                    value_type: RailsColumn::Binary,
                    name: "l".to_string(),
                    nullable: true
                },
                ColumnData {
                    value_type: RailsColumn::Boolean,
                    name: "m".to_string(),
                    nullable: true
                },
                ColumnData {
                    value_type: RailsColumn::HStore,
                    name: "n".to_string(),
                    nullable: true
                },
                ColumnData {
                    value_type: RailsColumn::HStore,
                    name: "o".to_string(),
                    nullable: true
                },
                ColumnData {
                    value_type: RailsColumn::Datetime,
                    name: "created_at".to_string(),
                    nullable: false
                },
                ColumnData {
                    value_type: RailsColumn::Datetime,
                    name: "updated_at".to_string(),
                    nullable: false
                }
            ]
        }])
    );
}

#[test]
fn two_create_table_before_an_end_is_a_structural_error() {
    let table = "create_table \"sample_schema\", id: :serial, force: :cascade do |t|
    t.primary_key \"a\"
    create_table
  end";
    let result = Database::from(table);
    assert_eq!(result.unwrap_err(), StructuralParseError::NestedCreateTable);
}

#[test]
fn the_nested_create_table_error_keeps_its_message() {
    let err = StructuralParseError::NestedCreateTable;
    assert_eq!(
        err.message(),
        "Warning Invalid Rails Schema:\n Found create_table inside create_table block"
    );
}

#[test]
fn a_block_without_end_is_a_structural_error() {
    let table = "create_table \"sample_schema\", id: :serial, force: :cascade do |t|
    t.primary_key \"a\"";
    let result = Database::from(table);
    assert_eq!(result.unwrap_err(), StructuralParseError::UnterminatedTable);
}

#[test]
fn the_unterminated_table_error_keeps_its_message() {
    let err = StructuralParseError::UnterminatedTable;
    assert_eq!(
        err.message(),
        "Parsing Error: \n create_table block does not have matching end"
    );
}

#[test]
fn a_create_table_marker_with_nothing_after_it_is_unterminated() {
    let result = Database::from("create_table");
    assert_eq!(result.unwrap_err(), StructuralParseError::UnterminatedTable);
}

#[test]
fn a_column_keyword_as_the_last_token_is_unterminated() {
    let result = Database::from("create_table \"t\" do |t| t.integer");
    assert_eq!(result.unwrap_err(), StructuralParseError::UnterminatedTable);
}

#[test]
fn empty_input_parses_to_an_empty_database() {
    assert_eq!(Database::from("").unwrap(), Database(vec![]));
    assert_eq!(Database::from(" \t\n").unwrap(), Database(vec![]));
}

#[test]
fn unrecognized_tokens_outside_a_table_body_have_no_effect() {
    let bare = "create_table \"t\" do |t|
    t.integer \"n\"
  end";
    let noisy = "ActiveRecord::Schema.define(version: 1) do
  create_table \"t\" do |t|
    t.integer \"n\"
  end
end trailing noise";
    assert_eq!(Database::from(bare).unwrap(), Database::from(noisy).unwrap());
}

#[test]
fn the_concrete_scenario_with_another_block_variable() {
    let input = "create_table \"t\", id: :serial, force: :cascade do |x| x.integer \"n\" end";
    assert_eq!(
        Database::from(input).unwrap(),
        Database(vec![Table {
            name: "t".to_string(),
            columns: vec![ColumnData {
                name: "n".to_string(),
                value_type: RailsColumn::Integer,
                nullable: true
            }]
        }])
    );
}

#[test]
fn the_null_modifier_pair_must_follow_the_name_exactly() {
    let input = "create_table \"t\" do |t|
    t.integer \"a\"
    t.integer \"b\", null: false
    t.integer \"c\", null: true
  end";
    let db = Database::from(input).unwrap();
    assert_eq!(db.0[0].columns[0].nullable, true);
    assert_eq!(db.0[0].columns[1].nullable, false);
    assert_eq!(db.0[0].columns[2].nullable, true);
}

#[test]
fn tokenize_splits_on_runs_of_whitespace() {
    let toks = tokenize("  a \t bb\nccc ");
    assert_eq!(toks, vec!["a".to_string(), "bb".to_string(), "ccc".to_string()]);
}

#[test]
fn tokenize_treats_all_unicode_whitespace_as_separators() {
    let toks = tokenize("a\u{c}b\u{b}c\u{a0}d\u{2003}e\u{3000}f\r\ng");
    assert_eq!(
        toks,
        vec![
            "a".to_string(),
            "b".to_string(),
            "c".to_string(),
            "d".to_string(),
            "e".to_string(),
            "f".to_string(),
            "g".to_string()
        ]
    );
}

#[test]
fn strip_token_removes_quotes_and_commas_at_both_ends() {
    assert_eq!(strip_token("\"users\","), "users");
    assert_eq!(strip_token("plain"), "plain");
    assert_eq!(strip_token("\"a,b\""), "a,b");
    assert_eq!(strip_token("\",\""), "");
}

#[test]
fn every_keyword_resolves_to_its_column_kind() {
    assert_eq!(resolve("t.primary_key"), Some(RailsColumn::PrimaryKey));
    assert_eq!(resolve("t.string"), Some(RailsColumn::String));
    assert_eq!(resolve("t.text"), Some(RailsColumn::Text));
    assert_eq!(resolve("t.integer"), Some(RailsColumn::Integer));
    assert_eq!(resolve("t.bigint"), Some(RailsColumn::Bigint));
    assert_eq!(resolve("t.float"), Some(RailsColumn::Float));
    assert_eq!(resolve("t.decimal"), Some(RailsColumn::Decimal));
    assert_eq!(resolve("t.numeric"), Some(RailsColumn::Numeric));
    assert_eq!(resolve("t.datetime"), Some(RailsColumn::Datetime));
    assert_eq!(resolve("t.time"), Some(RailsColumn::Time));
    assert_eq!(resolve("t.date"), Some(RailsColumn::Date));
    assert_eq!(resolve("t.binary"), Some(RailsColumn::Binary));
    assert_eq!(resolve("t.boolean"), Some(RailsColumn::Boolean));
    assert_eq!(resolve("t.hstore"), Some(RailsColumn::HStore));
    assert_eq!(resolve("t.jsonb"), Some(RailsColumn::HStore));
}

#[test]
fn tokens_that_are_no_keywords_do_not_resolve() {
    assert_eq!(resolve("create_table"), None);
    assert_eq!(resolve("end"), None);
    assert_eq!(resolve("null:"), None);
    assert_eq!(resolve("false"), None);
    assert_eq!(resolve("integer"), None);
    assert_eq!(resolve("t."), None);
    assert_eq!(resolve("t.varchar"), None);
    assert_eq!(resolve("ActiveRecord::Schema.define(version:"), None);
}
