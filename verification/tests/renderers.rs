use turbine::Database;
use turbine::format_name;
use turbine::go::ToGo;
use turbine::rust::ToRust;
use turbine::spec_format::ToSpec;
use turbine::typescript::ToTypeScript;

fn sample_schema() -> &'static str {
    "ActiveRecord::Schema.define(version: 20_210_916_202_951) do
  create_table \"sample_schema\", id: :serial, force: :cascade do |t|
    t.primary_key \"a\"
    t.string \"b\"
    t.text \"c\"
    t.integer \"d\"
    t.bigint \"e\"
    t.float \"f\"
    t.decimal \"g\"
    t.numeric \"h\"
    t.datetime \"i\"
    t.time \"j\"
    t.date \"k\"
    t.binary \"l\"
    t.boolean \"m\"
    t.hstore \"n\"
    t.jsonb \"o\"
    t.datetime \"created_at\", null: false
    t.datetime \"updated_at\", null: false
  end
end"
}

#[test]
fn spec_can_convert_a_rails_schema_to_a_string_version_of_a_rust_struct() {
    assert_eq!(
        Database::from(sample_schema()).unwrap().to_spec(),
        "(spec/def sample_schema
  {:a int?
   :b string?
   :c string?
   :d int?
   :e int?
   :f float?
   :g float?
   :h int?
   :i string?
   :j string?
   :k string?
   :l string?
   :m boolean?
   :n map?
   :o map?
   :created_at string?
   :updated_at string?})",
    )
}

#[test]
fn rust_can_convert_a_rails_schema_to_a_string_version_of_a_rust_struct() {
    assert_eq!(
        Database::from(sample_schema()).unwrap().to_rust(),
        "struct SampleSchema {
   a: Option<usize>,
   b: Option<String>,
   c: Option<String>,
   d: Option<i64>,
   e: Option<i128>,
   f: Option<f64>,
   g: Option<f64>,
   h: Option<i64>,
   i: Option<String>,
   j: Option<String>,
   k: Option<String>,
   l: Option<Vec<u8>>,
   m: Option<bool>,
   n: Option<std::collections::HashMap<String,String>>,
   o: Option<std::collections::HashMap<String,String>>,
   created_at: String,
   updated_at: String,
}"
    )
}

#[test]
fn typescript_can_convert_a_rails_schema_to_a_string_version_of_a_rust_struct() {
    assert_eq!(
        Database::from(sample_schema()).unwrap().to_typescript(),
        "type SampleSchema {
   a?: number;
   b?: string;
   c?: string;
   d?: number;
   e?: number;
   f?: number;
   g?: number;
   h?: number;
   i?: string;
   j?: string;
   k?: string;
   l?: string;
   m?: boolean;
   n?: any;
   o?: any;
   created_at: string;
   updated_at: string;
}"
    )
}

#[test]
fn go_can_convert_a_rails_schema_to_a_string_version_of_a_rust_struct() {
    assert_eq!(
        Database::from(sample_schema()).unwrap().to_go(),
        "type SampleSchema struct {
    a: *int64,
    b: *string,
    c: *string,
    d: *int64,
    e: *int128,
    f: *float64,
    g: *float64,
    h: *int64,
    i: *time.Time,
    j: *time.Time,
    k: *time.Time,
    l: *[]uint8,
    m: *bool,
    n: map[string]interface{},
    o: map[string]interface{},
    created_at: *time.Time,
    updated_at: *time.Time,
}"
    )
}

#[test]
fn format_name_capitalizes_each_underscore_segment() {
    assert_eq!(format_name("sample_schema"), "SampleSchema");
    assert_eq!(format_name("users"), "Users");
    assert_eq!(format_name("a_b_c"), "ABC");
    assert_eq!(format_name("__odd__name__"), "OddName");
    assert_eq!(format_name(""), "");
    assert_eq!(format_name("9lives"), "9lives");
}

#[test]
fn rendering_an_empty_database_yields_an_empty_string() {
    let db = Database::from("").unwrap();
    assert_eq!(db.to_spec(), "");
    assert_eq!(db.to_rust(), "");
    assert_eq!(db.to_typescript(), "");
    assert_eq!(db.to_go(), "");
}

#[test]
fn two_tables_render_separated_by_a_blank_line() {
    let input = "create_table \"a_table\" do |t| t.integer \"x\" end
  create_table \"b_table\" do |t| t.boolean \"y\", null: false end";
    let db = Database::from(input).unwrap();
    assert_eq!(
        db.to_rust(),
        "struct ATable {
   x: Option<i64>,
}

struct BTable {
   y: bool,
}"
    );
}

#[test]
fn re_parsing_a_rendered_database_does_not_reproduce_it() {
    let input = "create_table \"t\" do |t| t.integer \"n\" end";
    let db = Database::from(input).unwrap();
    let rendered = db.to_spec();
    let reparsed = Database::from(rendered.as_str()).unwrap();
    assert_ne!(db, reparsed);
}
