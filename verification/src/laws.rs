//! What the parser guarantees, proved over the scanner's model: a
//! well-formed table block parses to exactly its declared table, tokens
//! outside a table body are inert, the structural errors come exactly from
//! nested table-start markers and unterminated bodies, and the keyword
//! table is fixed and overlap-free.

use crate::ColumnView;
use crate::RailsColumn;
use crate::TableView;
use crate::rails_parser::ScanState;
use crate::rails_parser::StructuralParseError;
use crate::rails_parser::create_marker;
use crate::rails_parser::end_marker;
use crate::rails_parser::false_lit;
use crate::rails_parser::first_dot;
use crate::rails_parser::is_schema_ws;
use crate::rails_parser::lemma_first_dot_at;
use crate::rails_parser::null_key;
use crate::rails_parser::scan;
use crate::rails_parser::spec_nullable;
use crate::rails_parser::spec_parse;
use crate::rails_parser::spec_resolve;
use crate::rails_parser::spec_resolve_word;
use crate::rails_parser::spec_strip;
use crate::rails_parser::spec_tokens;
use crate::rails_parser::tokens_fold;
use vstd::prelude::*;

verus! {

/// One column declaration as it is laid out in a table body: its keyword
/// token, the kind that keyword resolves to, its raw (unstripped) name
/// token, and whether it carries the null-modifier pair.
pub ghost struct ColumnDecl {
    pub keyword: Seq<char>,
    pub kind: RailsColumn,
    pub raw_name: Seq<char>,
    pub with_null_false: bool,
}

/// A declaration is well formed when its keyword token resolves to its
/// kind. The name token is unconstrained: name capture is positional.
pub open spec fn decl_wf(d: ColumnDecl) -> bool {
    spec_resolve(d.keyword) == Some(d.kind)
}

/// The tokens of one declaration.
pub open spec fn decl_tokens(d: ColumnDecl) -> Seq<Seq<char>> {
    if d.with_null_false {
        seq![d.keyword, d.raw_name, null_key(), false_lit()]
    } else {
        seq![d.keyword, d.raw_name]
    }
}

/// The tokens of a sequence of declarations, in order.
pub open spec fn decls_tokens(ds: Seq<ColumnDecl>) -> Seq<Seq<char>>
    decreases ds.len(),
{
    if ds.len() == 0 {
        Seq::empty()
    } else {
        decl_tokens(ds[0]) + decls_tokens(ds.drop_first())
    }
}

/// The column model one declaration produces.
pub open spec fn decl_column(d: ColumnDecl) -> ColumnView {
    ColumnView { value_type: d.kind, name: spec_strip(d.raw_name), nullable: !d.with_null_false }
}

/// The column models of a sequence of declarations, in declaration order.
pub open spec fn decls_columns(ds: Seq<ColumnDecl>) -> Seq<ColumnView> {
    ds.map_values(|d: ColumnDecl| decl_column(d))
}

/// A whole table block: marker, raw name token, declarations, end marker.
pub ghost struct TableBlock {
    pub raw_name: Seq<char>,
    pub decls: Seq<ColumnDecl>,
}

pub open spec fn block_wf(b: TableBlock) -> bool {
    forall|k: int| 0 <= k < b.decls.len() ==> decl_wf(#[trigger] b.decls[k])
}

pub open spec fn block_tokens(b: TableBlock) -> Seq<Seq<char>> {
    seq![create_marker(), b.raw_name] + decls_tokens(b.decls) + seq![end_marker()]
}

/// The table a block parses to.
pub open spec fn block_table(b: TableBlock) -> TableView {
    TableView { name: spec_strip(b.raw_name), columns: decls_columns(b.decls) }
}

/// None of the grammar's structural tokens is a column keyword, and they
/// are pairwise distinct.
proof fn lemma_marker_facts()
    ensures
        spec_resolve(create_marker()) == None::<RailsColumn>,
        spec_resolve(end_marker()) == None::<RailsColumn>,
        spec_resolve(null_key()) == None::<RailsColumn>,
        spec_resolve(false_lit()) == None::<RailsColumn>,
        create_marker() != end_marker(),
        create_marker() != null_key(),
        create_marker() != false_lit(),
        end_marker() != null_key(),
        end_marker() != false_lit(),
        null_key() != false_lit(),
{
    reveal_strlit("create_table");
    reveal_strlit("end");
    reveal_strlit("null:");
    reveal_strlit("false");
    assert(create_marker().len() == 12);
    assert(end_marker().len() == 3);
    assert(null_key().len() == 5);
    assert(false_lit().len() == 5);
    assert(null_key()[0] == 'n' && false_lit()[0] == 'f');
    assert(forall|k: int| 0 <= k < 12 ==> create_marker()[k] != '.');
    lemma_first_dot_at(create_marker(), 12);
    assert(forall|k: int| 0 <= k < 3 ==> end_marker()[k] != '.');
    lemma_first_dot_at(end_marker(), 3);
    assert(forall|k: int| 0 <= k < 5 ==> null_key()[k] != '.');
    lemma_first_dot_at(null_key(), 5);
    assert(forall|k: int| 0 <= k < 5 ==> false_lit()[k] != '.');
    lemma_first_dot_at(false_lit(), 5);
}

/// Scanning a table body over laid-out well-formed declarations collects
/// exactly their columns, in declaration order, and resumes right after
/// them. The token after the declarations must not be the null-modifier
/// key (in a block it is the end marker), so that the fixed-offset
/// lookahead of the last declaration cannot misread it.
pub proof fn lemma_scan_decls(
    tokens: Seq<Seq<char>>,
    i: int,
    name: Seq<char>,
    acc: Seq<ColumnView>,
    ds: Seq<ColumnDecl>,
)
    requires
        0 <= i,
        i + decls_tokens(ds).len() <= tokens.len(),
        forall|k: int| 0 <= k < ds.len() ==> decl_wf(#[trigger] ds[k]),
        forall|k: int|
            0 <= k < decls_tokens(ds).len() ==> tokens[i + k] == #[trigger] decls_tokens(ds)[k],
        i + decls_tokens(ds).len() == tokens.len() || tokens[i + decls_tokens(ds).len()]
            != null_key(),
    ensures
        scan(tokens, i, ScanState::InBody { name, cols: acc }) == scan(
            tokens,
            i + decls_tokens(ds).len(),
            ScanState::InBody { name, cols: acc + decls_columns(ds) },
        ),
    decreases ds.len(),
{
    lemma_marker_facts();
    if ds.len() == 0 {
        assert(acc + decls_columns(ds) =~= acc);
    } else {
        let d = ds[0];
        let rest = ds.drop_first();
        let dtoks = decl_tokens(d);
        let dlen = dtoks.len() as int;
        let dslen = decls_tokens(ds).len() as int;
        assert(decls_tokens(ds) == dtoks + decls_tokens(rest));
        assert(dslen == dlen + decls_tokens(rest).len());
        assert(decl_wf(d));
        assert(decls_tokens(ds)[0] == d.keyword);
        assert(tokens[i + 0] == decls_tokens(ds)[0]);
        assert(tokens[i] == d.keyword);
        assert(decls_tokens(ds)[1] == d.raw_name);
        assert(tokens[i + 1] == decls_tokens(ds)[1]);
        assert(tokens[i + 1] == d.raw_name);
        // the keyword is no marker: markers do not resolve, the keyword does
        assert(d.keyword != create_marker());
        assert(d.keyword != end_marker());
        let col = ColumnView {
            value_type: d.kind,
            name: spec_strip(tokens[i + 1]),
            nullable: spec_nullable(tokens, i + 2),
        };
        if d.with_null_false {
            assert(decls_tokens(ds)[2] == null_key());
            assert(tokens[i + 2] == decls_tokens(ds)[2]);
            assert(decls_tokens(ds)[3] == false_lit());
            assert(tokens[i + 3] == decls_tokens(ds)[3]);
            assert(!spec_nullable(tokens, i + 2));
        } else {
            if rest.len() > 0 {
                assert(decls_tokens(rest) == decl_tokens(rest[0]) + decls_tokens(
                    rest.drop_first(),
                ));
                assert(decls_tokens(rest)[0] == rest[0].keyword);
                assert(decls_tokens(ds)[dlen] == decls_tokens(rest)[0]);
                assert(tokens[i + dlen] == decls_tokens(ds)[dlen]);
                assert(tokens[i + 2] == rest[0].keyword);
                assert(decl_wf(ds[1]) && rest[0] == ds[1]);
                assert(tokens[i + 2] != null_key());
            } else {
                assert(i + 2 == i + dslen);
            }
            assert(spec_nullable(tokens, i + 2));
        }
        assert(col == decl_column(d));
        assert(scan(tokens, i, ScanState::InBody { name, cols: acc }) == scan(
            tokens,
            i + 2,
            ScanState::InBody { name, cols: acc.push(col) },
        ));
        if d.with_null_false {
            // the two modifier tokens are skipped: neither is a marker or
            // a keyword
            assert(scan(tokens, i + 2, ScanState::InBody { name, cols: acc.push(col) }) == scan(
                tokens,
                i + 3,
                ScanState::InBody { name, cols: acc.push(col) },
            ));
            assert(scan(tokens, i + 3, ScanState::InBody { name, cols: acc.push(col) }) == scan(
                tokens,
                i + 4,
                ScanState::InBody { name, cols: acc.push(col) },
            ));
        }
        assert forall|k: int| 0 <= k < decls_tokens(rest).len() implies tokens[i + dlen + k]
            == #[trigger] decls_tokens(rest)[k] by {
            assert(decls_tokens(ds)[dlen + k] == decls_tokens(rest)[k]);
            assert(tokens[i + (dlen + k)] == decls_tokens(ds)[dlen + k]);
        }
        assert forall|k: int| 0 <= k < rest.len() implies decl_wf(#[trigger] rest[k]) by {
            assert(rest[k] == ds[k + 1]);
            assert(decl_wf(ds[k + 1]));
        }
        lemma_scan_decls(tokens, i + dlen, name, acc.push(col), rest);
        assert(acc.push(col) + decls_columns(rest) =~= acc + decls_columns(ds));
    }
}

/// A whole well-formed table block, scanned from outside a body, yields
/// exactly its table and goes on seeking right after its end marker.
pub proof fn lemma_scan_block(tokens: Seq<Seq<char>>, i: int, b: TableBlock)
    requires
        0 <= i,
        i + block_tokens(b).len() <= tokens.len(),
        block_wf(b),
        forall|k: int|
            0 <= k < block_tokens(b).len() ==> tokens[i + k] == #[trigger] block_tokens(b)[k],
    ensures
        scan(tokens, i, ScanState::Seeking) == match scan(
            tokens,
            i + block_tokens(b).len(),
            ScanState::Seeking,
        ) {
            Ok(rest) => Ok::<Seq<TableView>, StructuralParseError>(seq![block_table(b)] + rest),
            Err(e) => Err(e),
        },
{
    lemma_marker_facts();
    let dtl = decls_tokens(b.decls).len() as int;
    let blen = block_tokens(b).len() as int;
    assert(blen == dtl + 3);
    assert(block_tokens(b)[0] == create_marker());
    assert(tokens[i + 0] == block_tokens(b)[0]);
    assert(tokens[i] == create_marker());
    assert(block_tokens(b)[1] == b.raw_name);
    assert(tokens[i + 1] == block_tokens(b)[1]);
    assert(tokens[i + 1] == b.raw_name);
    assert(block_tokens(b)[dtl + 2] == end_marker());
    assert(tokens[i + (dtl + 2)] == block_tokens(b)[dtl + 2]);
    assert(tokens[i + dtl + 2] == end_marker());
    assert forall|k: int| 0 <= k < dtl implies tokens[i + 2 + k] == #[trigger] decls_tokens(
        b.decls,
    )[k] by {
        assert(block_tokens(b)[2 + k] == decls_tokens(b.decls)[k]);
        assert(tokens[i + (2 + k)] == block_tokens(b)[2 + k]);
    }
    let name = spec_strip(b.raw_name);
    lemma_scan_decls(tokens, i + 2, name, Seq::empty(), b.decls);
    assert(Seq::empty() + decls_columns(b.decls) =~= decls_columns(b.decls));
    assert(scan(tokens, i, ScanState::Seeking) == scan(
        tokens,
        i + 2,
        ScanState::InBody { name, cols: Seq::empty() },
    ));
}

/// Outside a table body, a token that is not the table-start marker has no
/// effect on the resulting model: seeking skips any run of such tokens.
pub proof fn lemma_seeking_skips_noise(tokens: Seq<Seq<char>>, i: int, j: int)
    requires
        0 <= i <= j <= tokens.len(),
        forall|k: int| i <= k < j ==> tokens[k] != create_marker(),
    ensures
        scan(tokens, i, ScanState::Seeking) == scan(tokens, j, ScanState::Seeking),
    decreases j - i,
{
    if i < j {
        lemma_seeking_skips_noise(tokens, i + 1, j);
    }
}

/// One piece of a schema's token stream: either a single token that is
/// not the table-start marker and stands outside every table body, or a
/// whole well-formed table block.
pub ghost enum SchemaPart {
    Noise { token: Seq<char> },
    Block { block: TableBlock },
}

pub open spec fn part_wf(p: SchemaPart) -> bool {
    match p {
        SchemaPart::Noise { token } => token != create_marker(),
        SchemaPart::Block { block } => block_wf(block),
    }
}

pub open spec fn parts_wf(ps: Seq<SchemaPart>) -> bool {
    forall|k: int| 0 <= k < ps.len() ==> part_wf(#[trigger] ps[k])
}

pub open spec fn part_tokens(p: SchemaPart) -> Seq<Seq<char>> {
    match p {
        SchemaPart::Noise { token } => seq![token],
        SchemaPart::Block { block } => block_tokens(block),
    }
}

/// The token stream of a sequence of parts, in order.
pub open spec fn parts_tokens(ps: Seq<SchemaPart>) -> Seq<Seq<char>>
    decreases ps.len(),
{
    if ps.len() == 0 {
        Seq::empty()
    } else {
        part_tokens(ps[0]) + parts_tokens(ps.drop_first())
    }
}

/// The tables of the blocks among the parts, in order.
pub open spec fn parts_tables(ps: Seq<SchemaPart>) -> Seq<TableView>
    decreases ps.len(),
{
    if ps.len() == 0 {
        Seq::empty()
    } else {
        (match ps[0] {
            SchemaPart::Noise { .. } => Seq::<TableView>::empty(),
            SchemaPart::Block { block } => seq![block_table(block)],
        }) + parts_tables(ps.drop_first())
    }
}

/// A token stream laid out as noise tokens and well-formed blocks scans to
/// exactly the blocks' tables, in order.
pub proof fn lemma_scan_parts(tokens: Seq<Seq<char>>, i: int, ps: Seq<SchemaPart>)
    requires
        0 <= i,
        i + parts_tokens(ps).len() <= tokens.len(),
        parts_wf(ps),
        forall|k: int|
            0 <= k < parts_tokens(ps).len() ==> tokens[i + k] == #[trigger] parts_tokens(ps)[k],
    ensures
        scan(tokens, i, ScanState::Seeking) == match scan(
            tokens,
            i + parts_tokens(ps).len(),
            ScanState::Seeking,
        ) {
            Ok(rest) => Ok::<Seq<TableView>, StructuralParseError>(parts_tables(ps) + rest),
            Err(e) => Err(e),
        },
    decreases ps.len(),
{
    if ps.len() == 0 {
        let fin = scan(tokens, i, ScanState::Seeking);
        if fin is Ok {
            assert(parts_tables(ps) + fin->Ok_0 =~= fin->Ok_0);
        }
    } else {
        let p = ps[0];
        let rest_ps = ps.drop_first();
        let ptoks = part_tokens(p);
        let plen = ptoks.len() as int;
        assert(parts_tokens(ps) == ptoks + parts_tokens(rest_ps));
        assert(part_wf(p));
        assert forall|k: int| 0 <= k < parts_tokens(rest_ps).len() implies tokens[i + plen + k]
            == #[trigger] parts_tokens(rest_ps)[k] by {
            assert(parts_tokens(ps)[plen + k] == parts_tokens(rest_ps)[k]);
            assert(tokens[i + (plen + k)] == parts_tokens(ps)[plen + k]);
        }
        assert forall|k: int| 0 <= k < rest_ps.len() implies part_wf(#[trigger] rest_ps[k]) by {
            assert(rest_ps[k] == ps[k + 1]);
            assert(part_wf(ps[k + 1]));
        }
        lemma_scan_parts(tokens, i + plen, rest_ps);
        let fin = scan(tokens, i + parts_tokens(ps).len(), ScanState::Seeking);
        match p {
            SchemaPart::Noise { token } => {
                assert(parts_tokens(ps)[0] == token);
                assert(tokens[i + 0] == parts_tokens(ps)[0]);
                assert(scan(tokens, i, ScanState::Seeking) == scan(
                    tokens,
                    i + 1,
                    ScanState::Seeking,
                ));
                assert(Seq::<TableView>::empty() + parts_tables(rest_ps) =~= parts_tables(
                    rest_ps,
                ));
            },
            SchemaPart::Block { block } => {
                assert forall|k: int| 0 <= k < block_tokens(block).len() implies tokens[i + k]
                    == #[trigger] block_tokens(block)[k] by {
                    assert(parts_tokens(ps)[k] == block_tokens(block)[k]);
                    assert(tokens[i + k] == parts_tokens(ps)[k]);
                }
                lemma_scan_block(tokens, i, block);
                if fin is Ok {
                    assert(seq![block_table(block)] + (parts_tables(rest_ps) + fin->Ok_0)
                        =~= parts_tables(ps) + fin->Ok_0);
                }
            },
        }
    }
}

proof fn lemma_parts_tables_insert_noise(ps: Seq<SchemaPart>, at: int, token: Seq<char>)
    requires
        0 <= at <= ps.len(),
    ensures
        parts_tables(ps.insert(at, SchemaPart::Noise { token })) == parts_tables(ps),
    decreases at,
{
    let q = ps.insert(at, SchemaPart::Noise { token });
    if at == 0 {
        assert(q[0] == SchemaPart::Noise { token });
        assert(q.drop_first() =~= ps);
        assert(Seq::<TableView>::empty() + parts_tables(ps) =~= parts_tables(ps));
    } else {
        assert(q[0] == ps[0]);
        assert(q.drop_first() =~= ps.drop_first().insert(at - 1, SchemaPart::Noise { token }));
        lemma_parts_tables_insert_noise(ps.drop_first(), at - 1, token);
    }
}

/// The general form of the idempotent skip: inserting one token that is
/// not the table-start marker at any position outside a table body -
/// before, between, or after the table blocks - has no effect on the
/// resulting model.
pub proof fn lemma_noise_insertion_is_inert(ps: Seq<SchemaPart>, at: int, token: Seq<char>)
    requires
        parts_wf(ps),
        0 <= at <= ps.len(),
        token != create_marker(),
    ensures
        scan(parts_tokens(ps.insert(at, SchemaPart::Noise { token })), 0, ScanState::Seeking)
            == scan(parts_tokens(ps), 0, ScanState::Seeking),
        scan(parts_tokens(ps), 0, ScanState::Seeking) == Ok::<Seq<TableView>, StructuralParseError>(
            parts_tables(ps),
        ),
{
    let q = ps.insert(at, SchemaPart::Noise { token });
    assert forall|k: int| 0 <= k < q.len() implies part_wf(#[trigger] q[k]) by {
        if k < at {
            assert(q[k] == ps[k]);
            assert(part_wf(ps[k]));
        } else if k > at {
            assert(q[k] == ps[k - 1]);
            assert(part_wf(ps[k - 1]));
        }
    }
    let ts = parts_tokens(ps);
    let tq = parts_tokens(q);
    assert forall|k: int| 0 <= k < ts.len() implies ts[0 + k] == #[trigger] ts[k] by {}
    assert forall|k: int| 0 <= k < tq.len() implies tq[0 + k] == #[trigger] tq[k] by {}
    lemma_scan_parts(ts, 0, ps);
    lemma_scan_parts(tq, 0, q);
    assert(scan(ts, ts.len() as int, ScanState::Seeking) == Ok::<
        Seq<TableView>,
        StructuralParseError,
    >(Seq::empty()));
    assert(scan(tq, tq.len() as int, ScanState::Seeking) == Ok::<
        Seq<TableView>,
        StructuralParseError,
    >(Seq::empty()));
    lemma_parts_tables_insert_noise(ps, at, token);
    assert(parts_tables(ps) + Seq::<TableView>::empty() =~= parts_tables(ps));
    assert(parts_tables(q) + Seq::<TableView>::empty() =~= parts_tables(q));
}

/// A single well-formed table block, surrounded by any tokens that are not
/// table-start markers, parses to exactly one table: the stripped name
/// token names it; it has one column per declaration, in declaration
/// order; and a column is nullable unless its declaration carries the
/// null-modifier pair.
pub proof fn lemma_single_table_block(tokens: Seq<Seq<char>>, pre: int, b: TableBlock)
    requires
        block_wf(b),
        0 <= pre,
        pre + block_tokens(b).len() <= tokens.len(),
        forall|k: int| 0 <= k < pre ==> tokens[k] != create_marker(),
        forall|k: int|
            0 <= k < block_tokens(b).len() ==> tokens[pre + k] == #[trigger] block_tokens(b)[k],
        forall|k: int|
            pre + block_tokens(b).len() <= k < tokens.len() ==> tokens[k] != create_marker(),
    ensures
        scan(tokens, 0, ScanState::Seeking) == Ok::<Seq<TableView>, StructuralParseError>(
            seq![block_table(b)],
        ),
        block_table(b).name == spec_strip(b.raw_name),
        block_table(b).columns.len() == b.decls.len(),
        forall|k: int|
            0 <= k < b.decls.len() ==> #[trigger] block_table(b).columns[k] == decl_column(
                b.decls[k],
            ),
{
    lemma_seeking_skips_noise(tokens, 0, pre);
    lemma_scan_block(tokens, pre, b);
    lemma_seeking_skips_noise(tokens, pre + block_tokens(b).len(), tokens.len() as int);
    assert(scan(tokens, tokens.len() as int, ScanState::Seeking) == Ok::<
        Seq<TableView>,
        StructuralParseError,
    >(Seq::empty()));
    assert(seq![block_table(b)] + Seq::<TableView>::empty() =~= seq![block_table(b)]);
}

/// Two consecutive well-formed table blocks parse to exactly their two
/// tables, in encounter order, each independently correct.
pub proof fn lemma_two_table_blocks(tokens: Seq<Seq<char>>, b1: TableBlock, b2: TableBlock)
    requires
        block_wf(b1),
        block_wf(b2),
        tokens == block_tokens(b1) + block_tokens(b2),
    ensures
        scan(tokens, 0, ScanState::Seeking) == Ok::<Seq<TableView>, StructuralParseError>(
            seq![block_table(b1), block_table(b2)],
        ),
{
    let n1 = block_tokens(b1).len() as int;
    let n2 = block_tokens(b2).len() as int;
    assert forall|k: int| 0 <= k < n1 implies tokens[k] == #[trigger] block_tokens(b1)[k] by {}
    assert forall|k: int| 0 <= k < n2 implies tokens[n1 + k] == #[trigger] block_tokens(
        b2,
    )[k] by {}
    lemma_scan_block(tokens, 0, b1);
    lemma_scan_block(tokens, n1, b2);
    assert(scan(tokens, n1 + n2, ScanState::Seeking) == Ok::<Seq<TableView>, StructuralParseError>(
        Seq::empty(),
    ));
    assert(seq![block_table(b2)] + Seq::<TableView>::empty() =~= seq![block_table(b2)]);
    assert(seq![block_table(b1)] + seq![block_table(b2)] =~= seq![
        block_table(b1),
        block_table(b2),
    ]);
}

/// A table-start marker inside an already-open table body is fatal: the
/// parse yields the nested-marker error and no model.
pub proof fn lemma_nested_marker_is_fatal(tokens: Seq<Seq<char>>, ds: Seq<ColumnDecl>)
    requires
        tokens.len() >= 3 + decls_tokens(ds).len(),
        tokens[0] == create_marker(),
        forall|k: int| 0 <= k < ds.len() ==> decl_wf(#[trigger] ds[k]),
        forall|k: int|
            0 <= k < decls_tokens(ds).len() ==> tokens[2 + k] == #[trigger] decls_tokens(ds)[k],
        tokens[2 + decls_tokens(ds).len() as int] == create_marker(),
    ensures
        scan(tokens, 0, ScanState::Seeking) == Err::<Seq<TableView>, StructuralParseError>(
            StructuralParseError::NestedCreateTable,
        ),
{
    lemma_marker_facts();
    lemma_scan_decls(tokens, 2, spec_strip(tokens[1]), Seq::empty(), ds);
}

/// A table block that is never closed is fatal: when the tokens run out
/// inside a body, the parse yields the unterminated-table error.
pub proof fn lemma_unterminated_block_is_fatal(tokens: Seq<Seq<char>>, ds: Seq<ColumnDecl>)
    requires
        tokens.len() == 2 + decls_tokens(ds).len(),
        tokens[0] == create_marker(),
        forall|k: int| 0 <= k < ds.len() ==> decl_wf(#[trigger] ds[k]),
        forall|k: int|
            0 <= k < decls_tokens(ds).len() ==> tokens[2 + k] == #[trigger] decls_tokens(ds)[k],
    ensures
        scan(tokens, 0, ScanState::Seeking) == Err::<Seq<TableView>, StructuralParseError>(
            StructuralParseError::UnterminatedTable,
        ),
{
    lemma_marker_facts();
    lemma_scan_decls(tokens, 2, spec_strip(tokens[1]), Seq::empty(), ds);
}

/// A word that survives tokenization as one token: nonempty and free of
/// whitespace.
pub open spec fn is_word(w: Seq<char>) -> bool {
    w.len() > 0 && forall|k: int| 0 <= k < w.len() ==> !is_schema_ws(#[trigger] w[k])
}

pub open spec fn all_words(ws: Seq<Seq<char>>) -> bool {
    forall|k: int| 0 <= k < ws.len() ==> is_word(#[trigger] ws[k])
}

/// The words joined by single spaces.
pub open spec fn joined(ws: Seq<Seq<char>>) -> Seq<char>
    decreases ws.len(),
{
    if ws.len() == 0 {
        Seq::empty()
    } else if ws.len() == 1 {
        ws[0]
    } else {
        ws[0] + seq![' '] + joined(ws.drop_first())
    }
}

/// Tokenization passes over the characters of a whitespace-free word
/// without closing the open token.
proof fn lemma_fold_word(w: Seq<char>, t: Seq<char>, cur: Seq<char>, acc: Seq<Seq<char>>)
    requires
        forall|k: int| 0 <= k < w.len() ==> !is_schema_ws(#[trigger] w[k]),
    ensures
        tokens_fold(w + t, cur, acc) == tokens_fold(t, cur + w, acc),
    decreases w.len(),
{
    if w.len() == 0 {
        assert(w + t =~= t);
        assert(cur + w =~= cur);
    } else {
        assert((w + t)[0] == w[0]);
        assert(!is_schema_ws(w[0]));
        assert((w + t).drop_first() =~= w.drop_first() + t);
        assert forall|k: int| 0 <= k < w.drop_first().len() implies !is_schema_ws(
            #[trigger] w.drop_first()[k],
        ) by {
            assert(w.drop_first()[k] == w[k + 1]);
        }
        lemma_fold_word(w.drop_first(), t, cur.push(w[0]), acc);
        assert(cur.push(w[0]) + w.drop_first() =~= cur + w);
    }
}

/// Tokenizing joined words, with no token open, appends exactly those
/// words to the tokens found so far.
proof fn lemma_fold_words(ws: Seq<Seq<char>>, acc: Seq<Seq<char>>)
    requires
        all_words(ws),
    ensures
        tokens_fold(joined(ws), Seq::empty(), acc) == acc + ws,
    decreases ws.len(),
{
    if ws.len() == 0 {
        assert(acc + ws =~= acc);
    } else if ws.len() == 1 {
        assert(is_word(ws[0]));
        assert(ws[0] + Seq::<char>::empty() =~= ws[0]);
        assert(Seq::<char>::empty() + ws[0] =~= ws[0]);
        lemma_fold_word(ws[0], Seq::empty(), Seq::empty(), acc);
        assert(acc.push(ws[0]) =~= acc + ws);
    } else {
        let w0 = ws[0];
        let rest = ws.drop_first();
        assert(is_word(w0));
        let t2 = seq![' '] + joined(rest);
        assert(w0 + t2 =~= joined(ws));
        assert(Seq::<char>::empty() + w0 =~= w0);
        lemma_fold_word(w0, t2, Seq::empty(), acc);
        assert(t2[0] == ' ' && is_schema_ws(' '));
        assert(t2.drop_first() =~= joined(rest));
        assert forall|k: int| 0 <= k < rest.len() implies is_word(#[trigger] rest[k]) by {
            assert(rest[k] == ws[k + 1]);
        }
        lemma_fold_words(rest, acc.push(w0));
        assert(acc.push(w0) + rest =~= acc + ws);
    }
}

proof fn lemma_fold_tokens_are_words(s: Seq<char>, cur: Seq<char>, acc: Seq<Seq<char>>)
    requires
        all_words(acc),
        forall|k: int| 0 <= k < cur.len() ==> !is_schema_ws(#[trigger] cur[k]),
    ensures
        all_words(tokens_fold(s, cur, acc)),
    decreases s.len(),
{
    if s.len() == 0 {
        if cur.len() > 0 {
            assert(is_word(cur));
            assert forall|k: int| 0 <= k < acc.push(cur).len() implies is_word(
                #[trigger] acc.push(cur)[k],
            ) by {
                if k < acc.len() {
                    assert(acc.push(cur)[k] == acc[k]);
                } else {
                    assert(acc.push(cur)[k] == cur);
                }
            }
        }
    } else if is_schema_ws(s[0]) {
        if cur.len() == 0 {
            lemma_fold_tokens_are_words(s.drop_first(), Seq::empty(), acc);
        } else {
            assert(is_word(cur));
            assert forall|k: int| 0 <= k < acc.push(cur).len() implies is_word(
                #[trigger] acc.push(cur)[k],
            ) by {
                if k < acc.len() {
                    assert(acc.push(cur)[k] == acc[k]);
                } else {
                    assert(acc.push(cur)[k] == cur);
                }
            }
            lemma_fold_tokens_are_words(s.drop_first(), Seq::empty(), acc.push(cur));
        }
    } else {
        assert forall|k: int| 0 <= k < cur.push(s[0]).len() implies !is_schema_ws(
            #[trigger] cur.push(s[0])[k],
        ) by {
            if k < cur.len() {
                assert(cur.push(s[0])[k] == cur[k]);
            } else {
                assert(cur.push(s[0])[k] == s[0]);
            }
        }
        lemma_fold_tokens_are_words(s.drop_first(), cur.push(s[0]), acc);
    }
}

/// The tokenizer never yields an empty token, nor one holding whitespace:
/// every token of any schema text is a word.
pub proof fn lemma_tokens_are_words(s: Seq<char>)
    ensures
        all_words(spec_tokens(s)),
{
    lemma_fold_tokens_are_words(s, Seq::empty(), Seq::empty());
}

/// The tokenizer inverts joining: splitting whitespace-joined words yields
/// exactly those words, in order.
pub proof fn lemma_tokens_of_joined_words(ws: Seq<Seq<char>>)
    requires
        all_words(ws),
    ensures
        spec_tokens(joined(ws)) == ws,
{
    lemma_fold_words(ws, Seq::empty());
    assert(Seq::<Seq<char>>::empty() + ws =~= ws);
}

/// The single-table law at the level of the schema text: a text that is
/// exactly one well-formed table block, written as whitespace-separated
/// tokens, parses to exactly the one declared table, with one column per
/// declaration in declaration order.
pub proof fn lemma_parse_single_block_text(s: Seq<char>, b: TableBlock)
    requires
        block_wf(b),
        all_words(block_tokens(b)),
        s == joined(block_tokens(b)),
    ensures
        spec_parse(s) == Ok::<Seq<TableView>, StructuralParseError>(seq![block_table(b)]),
        block_table(b).columns.len() == b.decls.len(),
        forall|k: int|
            0 <= k < b.decls.len() ==> #[trigger] block_table(b).columns[k] == decl_column(
                b.decls[k],
            ),
{
    lemma_tokens_of_joined_words(block_tokens(b));
    lemma_single_table_block(spec_tokens(s), 0, b);
}

/// The multi-table law at the level of the schema text: a text that is
/// exactly two well-formed table blocks, written as whitespace-separated
/// tokens, parses to exactly their two tables, in encounter order.
pub proof fn lemma_parse_two_blocks_text(s: Seq<char>, b1: TableBlock, b2: TableBlock)
    requires
        block_wf(b1),
        block_wf(b2),
        all_words(block_tokens(b1) + block_tokens(b2)),
        s == joined(block_tokens(b1) + block_tokens(b2)),
    ensures
        spec_parse(s) == Ok::<Seq<TableView>, StructuralParseError>(
            seq![block_table(b1), block_table(b2)],
        ),
{
    lemma_tokens_of_joined_words(block_tokens(b1) + block_tokens(b2));
    lemma_two_table_blocks(spec_tokens(s), b1, b2);
}

proof fn lemma_all_words_concat(a: Seq<Seq<char>>, b: Seq<Seq<char>>)
    ensures
        all_words(a + b) == (all_words(a) && all_words(b)),
{
    if all_words(a + b) {
        assert forall|k: int| 0 <= k < a.len() implies is_word(#[trigger] a[k]) by {
            assert((a + b)[k] == a[k]);
        }
        assert forall|k: int| 0 <= k < b.len() implies is_word(#[trigger] b[k]) by {
            assert((a + b)[a.len() + k] == b[k]);
        }
    }
    if all_words(a) && all_words(b) {
        assert forall|k: int| 0 <= k < (a + b).len() implies is_word(#[trigger] (a + b)[k]) by {
            if k < a.len() {
                assert((a + b)[k] == a[k]);
            } else {
                assert((a + b)[k] == b[k - a.len()]);
            }
        }
    }
}

proof fn lemma_parts_tokens_insert_words(ps: Seq<SchemaPart>, at: int, token: Seq<char>)
    requires
        0 <= at <= ps.len(),
        all_words(parts_tokens(ps)),
        is_word(token),
    ensures
        all_words(parts_tokens(ps.insert(at, SchemaPart::Noise { token }))),
    decreases at,
{
    let q = ps.insert(at, SchemaPart::Noise { token });
    if at == 0 {
        assert(q[0] == SchemaPart::Noise { token });
        assert(q.drop_first() =~= ps);
        assert(parts_tokens(q) == seq![token] + parts_tokens(ps));
        assert(all_words(seq![token])) by {
            assert(seq![token][0] == token);
        }
        lemma_all_words_concat(seq![token], parts_tokens(ps));
    } else {
        assert(q[0] == ps[0]);
        assert(q.drop_first() =~= ps.drop_first().insert(at - 1, SchemaPart::Noise { token }));
        assert(parts_tokens(ps) == part_tokens(ps[0]) + parts_tokens(ps.drop_first()));
        lemma_all_words_concat(part_tokens(ps[0]), parts_tokens(ps.drop_first()));
        lemma_parts_tokens_insert_words(ps.drop_first(), at - 1, token);
        lemma_all_words_concat(part_tokens(ps[0]), parts_tokens(q.drop_first()));
    }
}

/// The idempotent skip at the level of the schema text: inserting one
/// word that is not the table-start marker at any position outside a
/// table body leaves the parse of the whitespace-joined text unchanged.
pub proof fn lemma_noise_insertion_text(ps: Seq<SchemaPart>, at: int, token: Seq<char>)
    requires
        parts_wf(ps),
        0 <= at <= ps.len(),
        token != create_marker(),
        all_words(parts_tokens(ps)),
        is_word(token),
    ensures
        spec_parse(joined(parts_tokens(ps.insert(at, SchemaPart::Noise { token }))))
            == spec_parse(joined(parts_tokens(ps))),
{
    let q = ps.insert(at, SchemaPart::Noise { token });
    lemma_parts_tokens_insert_words(ps, at, token);
    lemma_tokens_of_joined_words(parts_tokens(ps));
    lemma_tokens_of_joined_words(parts_tokens(q));
    lemma_noise_insertion_is_inert(ps, at, token);
}

/// The fixed set of keyword words.
pub open spec fn is_keyword_word(w: Seq<char>) -> bool {
    ||| w == "primary_key"@
    ||| w == "string"@
    ||| w == "text"@
    ||| w == "integer"@
    ||| w == "bigint"@
    ||| w == "float"@
    ||| w == "decimal"@
    ||| w == "numeric"@
    ||| w == "datetime"@
    ||| w == "time"@
    ||| w == "date"@
    ||| w == "binary"@
    ||| w == "boolean"@
    ||| w == "hstore"@
    ||| w == "jsonb"@
}

/// The resolver's keyword table is exhaustive and overlap-free: each of
/// the fifteen keyword words resolves to exactly the kind listed here (the
/// two schemaless-blob spellings fold into one kind), no other word
/// resolves, and a token without a dot never resolves.
pub proof fn lemma_resolver_table()
    ensures
        spec_resolve_word("primary_key"@) == Some(RailsColumn::PrimaryKey),
        spec_resolve_word("string"@) == Some(RailsColumn::String),
        spec_resolve_word("text"@) == Some(RailsColumn::Text),
        spec_resolve_word("integer"@) == Some(RailsColumn::Integer),
        spec_resolve_word("bigint"@) == Some(RailsColumn::Bigint),
        spec_resolve_word("float"@) == Some(RailsColumn::Float),
        spec_resolve_word("decimal"@) == Some(RailsColumn::Decimal),
        spec_resolve_word("numeric"@) == Some(RailsColumn::Numeric),
        spec_resolve_word("datetime"@) == Some(RailsColumn::Datetime),
        spec_resolve_word("time"@) == Some(RailsColumn::Time),
        spec_resolve_word("date"@) == Some(RailsColumn::Date),
        spec_resolve_word("binary"@) == Some(RailsColumn::Binary),
        spec_resolve_word("boolean"@) == Some(RailsColumn::Boolean),
        spec_resolve_word("hstore"@) == Some(RailsColumn::HStore),
        spec_resolve_word("jsonb"@) == Some(RailsColumn::HStore),
        forall|w: Seq<char>|
            !is_keyword_word(w) ==> #[trigger] spec_resolve_word(w) == None::<RailsColumn>,
        forall|t: Seq<char>| first_dot(t) < 0 ==> #[trigger] spec_resolve(t) == None::<RailsColumn>,
{
    reveal_strlit("primary_key");
    reveal_strlit("string");
    reveal_strlit("text");
    reveal_strlit("integer");
    reveal_strlit("bigint");
    reveal_strlit("float");
    reveal_strlit("decimal");
    reveal_strlit("numeric");
    reveal_strlit("datetime");
    reveal_strlit("time");
    reveal_strlit("date");
    reveal_strlit("binary");
    reveal_strlit("boolean");
    reveal_strlit("hstore");
    reveal_strlit("jsonb");
    assert("primary_key"@.len() == 11);
    assert("string"@.len() == 6);
    assert("text"@.len() == 4);
    assert("integer"@.len() == 7);
    assert("bigint"@.len() == 6);
    assert("float"@.len() == 5);
    assert("decimal"@.len() == 7);
    assert("numeric"@.len() == 7);
    assert("datetime"@.len() == 8);
    assert("time"@.len() == 4);
    assert("date"@.len() == 4);
    assert("binary"@.len() == 6);
    assert("boolean"@.len() == 7);
    assert("hstore"@.len() == 6);
    assert("jsonb"@.len() == 5);
    // words of equal length differ in a character
    assert("text"@[1] == 'e' && "time"@[1] == 'i' && "text"@[0] == 't' && "date"@[0] == 'd'
        && "time"@[0] == 't');
    assert("string"@[0] == 's' && "bigint"@[0] == 'b' && "binary"@[0] == 'b' && "hstore"@[0]
        == 'h');
    assert("bigint"@[2] == 'g' && "binary"@[2] == 'n');
    assert("float"@[0] == 'f' && "jsonb"@[0] == 'j');
    assert("integer"@[0] == 'i' && "decimal"@[0] == 'd' && "numeric"@[0] == 'n' && "boolean"@[0]
        == 'b');
}

} // verus!
