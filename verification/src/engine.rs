//! The command layer: parsing one input line into a statement or meta
//! command, running it against the table, and rendering the exact output
//! text, all pinned to a specification-level interpreter over the cells.

use vstd::prelude::*;
use vstd::string::StringSliceAdditionalSpecFns;
use crate::layout::{
    COLUMN_EMAIL_SIZE, COLUMN_USERNAME_SIZE, COMMON_NODE_HEADER_SIZE, EMAIL_SIZE,
    LEAF_NODE_CELL_SIZE, LEAF_NODE_HEADER_SIZE, LEAF_NODE_MAX_CELLS, LEAF_NODE_SPACE_FOR_CELLS,
    PAGE_SIZE, ROW_SIZE, TABLE_MAX_PAGES, USERNAME_SIZE,
};
use crate::node::{leaf_cells, leaf_node_key, leaf_node_num_cells, leaf_num_cells_of, leaf_wf, CellView};
use crate::parse::{
    i64_token_val, is_i64_token, parse_i64, spec_tokens, spec_trim, tokenize, trim_bytes,
};
use crate::row::{render_row, row_of_bytes, Row, RowView};
use crate::table::{ExecutionError, Table};
use crate::text::{
    append_bytes, append_lit, dec_rep, eq_bytes, lit_bytes, push_u64_decimal,
};
use crate::util::{read_bytes_at, write_bytes_at, zero_bytes};

verus! {

broadcast use crate::layout::lemma_cell_offset_unfold;

// ---------------------------------------------------------------------
// Statements and their errors.
// ---------------------------------------------------------------------

/// A parsed statement.
#[derive(Debug)]
pub enum Statement {
    Insert(Row),
    Select,
}

/// The mathematical content of a statement.
#[verifier::ext_equal]
pub ghost enum StatementView {
    Insert(RowView),
    Select,
}

impl View for Statement {
    type V = StatementView;

    open spec fn view(&self) -> StatementView {
        match self {
            Statement::Insert(row) => StatementView::Insert(row@),
            Statement::Select => StatementView::Select,
        }
    }
}

/// Why an input line is not a valid statement.
#[derive(Debug, PartialEq, Eq)]
pub enum PrepareError {
    NegativeId,
    StringTooLong,
    SyntaxError,
    UnrecognizedKeyword(Vec<u8>),
}

/// The mathematical content of a statement error.
#[verifier::ext_equal]
pub ghost enum PrepareErrorView {
    NegativeId,
    StringTooLong,
    SyntaxError,
    UnrecognizedKeyword(Seq<u8>),
}

impl View for PrepareError {
    type V = PrepareErrorView;

    open spec fn view(&self) -> PrepareErrorView {
        match self {
            PrepareError::NegativeId => PrepareErrorView::NegativeId,
            PrepareError::StringTooLong => PrepareErrorView::StringTooLong,
            PrepareError::SyntaxError => PrepareErrorView::SyntaxError,
            PrepareError::UnrecognizedKeyword(s) => PrepareErrorView::UnrecognizedKeyword(s@),
        }
    }
}

/// Why a meta command did not run.
#[derive(Debug, PartialEq, Eq)]
pub enum MetaCommandError {
    UnrecognizedCommand(Vec<u8>),
    Exit,
}

/// The mathematical content of a meta-command error.
#[verifier::ext_equal]
pub ghost enum MetaCommandErrorView {
    UnrecognizedCommand(Seq<u8>),
    Exit,
}

impl View for MetaCommandError {
    type V = MetaCommandErrorView;

    open spec fn view(&self) -> MetaCommandErrorView {
        match self {
            MetaCommandError::UnrecognizedCommand(s) => MetaCommandErrorView::UnrecognizedCommand(
                s@,
            ),
            MetaCommandError::Exit => MetaCommandErrorView::Exit,
        }
    }
}

// ---------------------------------------------------------------------
// Error messages.
// ---------------------------------------------------------------------

/// The message a statement error prints.
pub open spec fn prepare_error_text(e: PrepareErrorView) -> Seq<u8> {
    match e {
        PrepareErrorView::NegativeId => "id must be positive".spec_bytes(),
        PrepareErrorView::StringTooLong => "string is too long".spec_bytes(),
        PrepareErrorView::SyntaxError => "syntax error".spec_bytes(),
        PrepareErrorView::UnrecognizedKeyword(s) => "unrecognized keyword at start of '".spec_bytes()
            + s + "'".spec_bytes(),
    }
}

/// The message a meta-command error prints.
pub open spec fn meta_error_text(e: MetaCommandErrorView) -> Seq<u8> {
    match e {
        MetaCommandErrorView::UnrecognizedCommand(s) => "unrecognized command '".spec_bytes() + s
            + "'".spec_bytes(),
        MetaCommandErrorView::Exit => "exit".spec_bytes(),
    }
}

/// The message an execution error prints.
pub open spec fn execution_error_text(e: ExecutionError) -> Seq<u8> {
    match e {
        ExecutionError::TableFull => "table full".spec_bytes(),
    }
}

impl PrepareError {
    /// The error's message.
    pub fn message(&self) -> (m: Vec<u8>)
        ensures
            m@ == prepare_error_text(self@),
    {
        match self {
            PrepareError::NegativeId => lit_bytes("id must be positive"),
            PrepareError::StringTooLong => lit_bytes("string is too long"),
            PrepareError::SyntaxError => lit_bytes("syntax error"),
            PrepareError::UnrecognizedKeyword(s) => {
                let mut m = lit_bytes("unrecognized keyword at start of '");
                append_bytes(&mut m, s);
                append_lit(&mut m, "'");
                proof {
                    assert(m@ =~= prepare_error_text(self@));
                }
                m
            },
        }
    }
}

impl MetaCommandError {
    /// The error's message.
    pub fn message(&self) -> (m: Vec<u8>)
        ensures
            m@ == meta_error_text(self@),
    {
        match self {
            MetaCommandError::Exit => lit_bytes("exit"),
            MetaCommandError::UnrecognizedCommand(s) => {
                let mut m = lit_bytes("unrecognized command '");
                append_bytes(&mut m, s);
                append_lit(&mut m, "'");
                proof {
                    assert(m@ =~= meta_error_text(self@));
                }
                m
            },
        }
    }
}

impl ExecutionError {
    /// The error's message.
    pub fn message(&self) -> (m: Vec<u8>)
        ensures
            m@ == execution_error_text(*self),
    {
        match self {
            ExecutionError::TableFull => lit_bytes("table full"),
        }
    }
}

// ---------------------------------------------------------------------
// Preparing a statement from an input line.
// ---------------------------------------------------------------------

/// `p` is a prefix of `s`.
pub open spec fn starts_with(s: Seq<u8>, p: Seq<u8>) -> bool {
    p.len() <= s.len() && s.take(p.len() as int) == p
}

/// `s` padded with zero bytes up to width `w`.
pub open spec fn zero_pad(s: Seq<u8>, w: int) -> Seq<u8>
    recommends
        s.len() <= w,
{
    s + Seq::new((w - s.len()) as nat, |i: int| 0u8)
}

/// The statement an input line prepares to, or the error it raises:
/// an `insert` takes exactly a numeric id and two bounded fields; a
/// `select` takes nothing; anything else is an unrecognized keyword.
pub open spec fn spec_prepare(input: Seq<u8>) -> Result<StatementView, PrepareErrorView> {
    let toks = spec_tokens(input);
    if starts_with(input, "insert".spec_bytes()) {
        if toks.len() != 4 {
            Err(PrepareErrorView::SyntaxError)
        } else if !is_i64_token(toks[1]) {
            Err(PrepareErrorView::SyntaxError)
        } else if i64_token_val(toks[1]) < 0 {
            Err(PrepareErrorView::NegativeId)
        } else if toks[2].len() > COLUMN_USERNAME_SIZE {
            Err(PrepareErrorView::StringTooLong)
        } else if toks[3].len() > COLUMN_EMAIL_SIZE {
            Err(PrepareErrorView::StringTooLong)
        } else {
            Ok(
                StatementView::Insert(
                    RowView {
                        id: (i64_token_val(toks[1]) % 0x1_0000_0000) as u32,
                        username: zero_pad(toks[2], USERNAME_SIZE as int),
                        email: zero_pad(toks[3], EMAIL_SIZE as int),
                    },
                ),
            )
        }
    } else if starts_with(input, "select".spec_bytes()) {
        Ok(StatementView::Select)
    } else {
        Err(PrepareErrorView::UnrecognizedKeyword(input))
    }
}

/// Exec test for a byte-sequence prefix.
fn has_prefix(s: &Vec<u8>, p: &Vec<u8>) -> (r: bool)
    ensures
        r == starts_with(s@, p@),
{
    let n = p.len();
    if n > s.len() {
        return false;
    }
    let head = read_bytes_at(s, 0, n);
    eq_bytes(&head, p)
}

/// Copy a token into a fresh zero-padded buffer of width `w`.
fn pad_token(tok: &Vec<u8>, w: usize) -> (r: Vec<u8>)
    requires
        tok.len() <= w,
    ensures
        r@ == zero_pad(tok@, w as int),
        r@.len() == w,
{
    let mut buf = zero_bytes(w);
    write_bytes_at(&mut buf, 0, tok);
    proof {
        assert(buf@ =~= zero_pad(tok@, w as int));
    }
    buf
}

/// Parse one trimmed input line into a statement, exactly as
/// `spec_prepare` says.
pub fn prepare_statement(input: &Vec<u8>) -> (r: Result<Statement, PrepareError>)
    ensures
        r is Ok <==> spec_prepare(input@) is Ok,
        r is Ok ==> r->Ok_0@ == spec_prepare(input@)->Ok_0,
        r is Err ==> r->Err_0@ == spec_prepare(input@)->Err_0,
{
    let kw_insert = lit_bytes("insert");
    let kw_select = lit_bytes("select");
    if has_prefix(input, &kw_insert) {
        let tokens = tokenize(input);
        let ghost toks = spec_tokens(input@);
        if tokens.len() != 4 {
            return Err(PrepareError::SyntaxError);
        }
        proof {
            assert(tokens@[1].deep_view() =~= tokens@[1]@);
            assert(tokens@[2].deep_view() =~= tokens@[2]@);
            assert(tokens@[3].deep_view() =~= tokens@[3]@);
            assert(tokens@[1]@ == toks[1]);
            assert(tokens@[2]@ == toks[2]);
            assert(tokens@[3]@ == toks[3]);
        }
        let id_i64 = match parse_i64(&tokens[1]) {
            Some(v) => v,
            None => {
                return Err(PrepareError::SyntaxError);
            },
        };
        if id_i64 < 0 {
            return Err(PrepareError::NegativeId);
        }
        let id = (id_i64 % 0x1_0000_0000) as u32;
        if tokens[2].len() > COLUMN_USERNAME_SIZE {
            return Err(PrepareError::StringTooLong);
        }
        let username = pad_token(&tokens[2], USERNAME_SIZE);
        if tokens[3].len() > COLUMN_EMAIL_SIZE {
            return Err(PrepareError::StringTooLong);
        }
        let email = pad_token(&tokens[3], EMAIL_SIZE);
        let row = Row { id, username, email };
        proof {
            assert(row@ =~= spec_prepare(input@)->Ok_0->Insert_0);
        }
        Ok(Statement::Insert(row))
    } else if has_prefix(input, &kw_select) {
        Ok(Statement::Select)
    } else {
        let copy = read_bytes_at(input, 0, input.len());
        proof {
            assert(copy@ =~= input@);
        }
        Err(PrepareError::UnrecognizedKeyword(copy))
    }
}

// ---------------------------------------------------------------------
// Output text of the meta commands and of select.
// ---------------------------------------------------------------------

/// The text of the layout-constants dump.
pub open spec fn constants_text() -> Seq<u8> {
    "ROW_SIZE: ".spec_bytes() + dec_rep(ROW_SIZE as nat) + "\n".spec_bytes()
        + "COMMON_NODE_HEADER_SIZE: ".spec_bytes() + dec_rep(COMMON_NODE_HEADER_SIZE as nat)
        + "\n".spec_bytes() + "LEAF_NODE_HEADER_SIZE: ".spec_bytes() + dec_rep(
        LEAF_NODE_HEADER_SIZE as nat,
    ) + "\n".spec_bytes() + "LEAF_NODE_CELL_SIZE: ".spec_bytes() + dec_rep(
        LEAF_NODE_CELL_SIZE as nat,
    ) + "\n".spec_bytes() + "LEAF_NODE_SPACE_FOR_CELLS: ".spec_bytes() + dec_rep(
        LEAF_NODE_SPACE_FOR_CELLS as nat,
    ) + "\n".spec_bytes() + "LEAF_NODE_MAX_CELLS: ".spec_bytes() + dec_rep(
        LEAF_NODE_MAX_CELLS as nat,
    ) + "\n".spec_bytes()
}

/// The layout-constants dump, one line per constant.
pub fn print_constants() -> (r: Vec<u8>)
    ensures
        r@ == constants_text(),
{
    let mut out: Vec<u8> = Vec::new();
    append_lit(&mut out, "ROW_SIZE: ");
    push_u64_decimal(&mut out, ROW_SIZE as u64);
    append_lit(&mut out, "\n");
    append_lit(&mut out, "COMMON_NODE_HEADER_SIZE: ");
    push_u64_decimal(&mut out, COMMON_NODE_HEADER_SIZE as u64);
    append_lit(&mut out, "\n");
    append_lit(&mut out, "LEAF_NODE_HEADER_SIZE: ");
    push_u64_decimal(&mut out, LEAF_NODE_HEADER_SIZE as u64);
    append_lit(&mut out, "\n");
    append_lit(&mut out, "LEAF_NODE_CELL_SIZE: ");
    push_u64_decimal(&mut out, LEAF_NODE_CELL_SIZE as u64);
    append_lit(&mut out, "\n");
    append_lit(&mut out, "LEAF_NODE_SPACE_FOR_CELLS: ");
    push_u64_decimal(&mut out, LEAF_NODE_SPACE_FOR_CELLS as u64);
    append_lit(&mut out, "\n");
    append_lit(&mut out, "LEAF_NODE_MAX_CELLS: ");
    push_u64_decimal(&mut out, LEAF_NODE_MAX_CELLS as u64);
    append_lit(&mut out, "\n");
    proof {
        assert(out@ =~= constants_text());
    }
    out
}

/// The per-cell lines of the tree dump, for the first `n` cells.
pub open spec fn btree_lines(cells: Seq<CellView>, n: int) -> Seq<u8>
    decreases n,
{
    if n <= 0 {
        Seq::empty()
    } else {
        btree_lines(cells, n - 1) + "  - ".spec_bytes() + dec_rep((n - 1) as nat)
            + " : ".spec_bytes() + dec_rep(cells[n - 1].key as nat) + "\n".spec_bytes()
    }
}

/// The text of the tree dump: the leaf's size, then one line per cell
/// with its index and key.
pub open spec fn btree_text(cells: Seq<CellView>) -> Seq<u8> {
    "leaf (size ".spec_bytes() + dec_rep(cells.len()) + ")\n".spec_bytes() + btree_lines(
        cells,
        cells.len() as int,
    )
}

/// The tree dump of one leaf page.
pub fn print_leaf_node(node: &Vec<u8>) -> (r: Vec<u8>)
    requires
        leaf_wf(node@),
    ensures
        r@ == btree_text(leaf_cells(node@)),
{
    let ghost cells = leaf_cells(node@);
    let num_cells = leaf_node_num_cells(node) as usize;
    let mut out: Vec<u8> = Vec::new();
    append_lit(&mut out, "leaf (size ");
    push_u64_decimal(&mut out, num_cells as u64);
    append_lit(&mut out, ")\n");
    let ghost head = out@;
    let mut i: usize = 0;
    while i < num_cells
        invariant
            node@.len() == PAGE_SIZE,
            num_cells == leaf_num_cells_of(node@),
            num_cells <= LEAF_NODE_MAX_CELLS,
            cells == leaf_cells(node@),
            i <= num_cells,
            out@ == head + btree_lines(cells, i as int),
        decreases num_cells - i,
    {
        let key = leaf_node_key(node, i);
        proof {
            assert(key == cells[i as int].key);
        }
        append_lit(&mut out, "  - ");
        push_u64_decimal(&mut out, i as u64);
        append_lit(&mut out, " : ");
        push_u64_decimal(&mut out, key as u64);
        append_lit(&mut out, "\n");
        proof {
            assert(out@ =~= head + btree_lines(cells, i + 1));
        }
        i = i + 1;
    }
    proof {
        assert(out@ =~= btree_text(cells));
    }
    out
}

/// The text a full scan prints: each stored row rendered, one per line.
pub open spec fn select_text(cells: Seq<CellView>) -> Seq<u8>
    decreases cells.len(),
{
    if cells.len() == 0 {
        Seq::empty()
    } else {
        select_text(cells.drop_last()) + render_row(row_of_bytes(cells.last().row))
            + "\n".spec_bytes()
    }
}

// ---------------------------------------------------------------------
// Meta commands.
// ---------------------------------------------------------------------

/// What a meta command prints, or why it did not run: `.exit` asks the
/// caller to stop, `.constants` dumps the layout constants, `.btree`
/// dumps the root leaf, and anything else is unrecognized.
pub open spec fn spec_meta(input: Seq<u8>, cells: Seq<CellView>) -> Result<
    Seq<u8>,
    MetaCommandErrorView,
> {
    if input == ".exit".spec_bytes() {
        Err(MetaCommandErrorView::Exit)
    } else if input == ".constants".spec_bytes() {
        Ok("Constants:\n".spec_bytes() + constants_text())
    } else if input == ".btree".spec_bytes() {
        Ok("Tree:\n".spec_bytes() + btree_text(cells))
    } else {
        Err(MetaCommandErrorView::UnrecognizedCommand(input))
    }
}

/// Run one meta command against the table, returning its output text.
pub fn db_meta_command(input: &Vec<u8>, table: &mut Table) -> (r: Result<
    Vec<u8>,
    MetaCommandError,
>)
    requires
        old(table).wf(),
    ensures
        *final(table) == *old(table),
        r is Ok <==> spec_meta(input@, old(table).cells()) is Ok,
        r is Ok ==> r->Ok_0@ == spec_meta(input@, old(table).cells())->Ok_0,
        r is Err ==> r->Err_0@ == spec_meta(input@, old(table).cells())->Err_0,
{
    let kw_exit = lit_bytes(".exit");
    let kw_constants = lit_bytes(".constants");
    let kw_btree = lit_bytes(".btree");
    if eq_bytes(input, &kw_exit) {
        Err(MetaCommandError::Exit)
    } else if eq_bytes(input, &kw_constants) {
        let mut out = lit_bytes("Constants:\n");
        let body = print_constants();
        append_bytes(&mut out, &body);
        Ok(out)
    } else if eq_bytes(input, &kw_btree) {
        let mut out = lit_bytes("Tree:\n");
        let rpn = table.root_page_num;
        let node = table.pager.get_page(rpn);
        let body = print_leaf_node(&node);
        append_bytes(&mut out, &body);
        Ok(out)
    } else {
        let copy = read_bytes_at(input, 0, input.len());
        proof {
            assert(copy@ =~= input@);
        }
        Err(MetaCommandError::UnrecognizedCommand(copy))
    }
}

// ---------------------------------------------------------------------
// Executing statements.
// ---------------------------------------------------------------------

/// The cell one row inserts: its id as the key, its serialized form as
/// the payload.
pub open spec fn cell_of_row(r: RowView) -> CellView {
    CellView { key: r.id, row: r.to_bytes() }
}

/// Append the row at the end of the table; rejected once the root leaf
/// is at capacity.
pub fn execute_insert(row: &Row, table: &mut Table) -> (r: Result<(), ExecutionError>)
    requires
        old(table).wf(),
        row@.wf(),
    ensures
        final(table).wf(),
        final(table).pager.file@ == old(table).pager.file@,
        final(table).pager.num_pages == old(table).pager.num_pages,
        forall|i: int|
            1 <= i < TABLE_MAX_PAGES ==> #[trigger] final(table).pager.page_view(i) =~= old(
                table,
            ).pager.page_view(i),
        old(table).cells().len() >= LEAF_NODE_MAX_CELLS ==> (r == Err::<(), ExecutionError>(
            ExecutionError::TableFull,
        ) && final(table).cells() == old(table).cells()),
        old(table).cells().len() < LEAF_NODE_MAX_CELLS ==> (r is Ok && final(table).cells()
            == old(table).cells().push(cell_of_row(row@))),
{
    let rpn = table.root_page_num;
    let node = table.pager.get_page(rpn);
    if leaf_node_num_cells(&node) as usize >= LEAF_NODE_MAX_CELLS {
        return Err(ExecutionError::TableFull);
    }
    let cursor = table.table_end();
    let res = cursor.leaf_node_insert(table, row.id, row);
    proof {
        if old(table).cells().len() < LEAF_NODE_MAX_CELLS {
            assert(old(table).cells().insert(old(table).cells().len() as int, cell_of_row(row@))
                =~= old(table).cells().push(cell_of_row(row@)));
        }
    }
    res
}

/// Scan every row in stored order and render each on its own line.
pub fn execute_select(table: &mut Table) -> (out: Vec<u8>)
    requires
        old(table).wf(),
    ensures
        *final(table) == *old(table),
        out@ == select_text(old(table).cells()),
{
    let ghost cells = old(table).cells();
    let mut out: Vec<u8> = Vec::new();
    let mut cursor = table.table_start();
    while !cursor.end_of_table
        invariant
            table.wf(),
            *table == *old(table),
            cells == table.cells(),
            cursor.page_num == 0,
            cursor.cell_num <= cells.len(),
            cursor.end_of_table == (cursor.cell_num >= cells.len()),
            out@ == select_text(cells.take(cursor.cell_num as int)),
        decreases cells.len() - cursor.cell_num,
    {
        let bytes = cursor.value(table);
        proof {
            assert(bytes@.len() == ROW_SIZE);
            assert(bytes@.subrange(0, ROW_SIZE as int) =~= bytes@);
        }
        let row = Row::deserialize(&bytes);
        let rendered = row.render();
        append_bytes(&mut out, &rendered);
        append_lit(&mut out, "\n");
        proof {
            let taken = cells.take(cursor.cell_num + 1);
            assert(taken.drop_last() =~= cells.take(cursor.cell_num as int));
            assert(taken.last() == cells[cursor.cell_num as int]);
            assert(out@ =~= select_text(cells.take(cursor.cell_num + 1)));
        }
        cursor.advance(table);
    }
    proof {
        assert(cells.take(cells.len() as int) =~= cells);
    }
    out
}

/// Run one prepared statement: an insert appends its row and prints
/// nothing; a select prints every stored row.
pub fn execute_statement(statement: Statement, table: &mut Table) -> (r: Result<
    Vec<u8>,
    ExecutionError,
>)
    requires
        old(table).wf(),
        statement@ matches StatementView::Insert(rv) ==> rv.wf(),
    ensures
        final(table).wf(),
        final(table).pager.file@ == old(table).pager.file@,
        final(table).pager.num_pages == old(table).pager.num_pages,
        forall|i: int|
            1 <= i < TABLE_MAX_PAGES ==> #[trigger] final(table).pager.page_view(i) =~= old(
                table,
            ).pager.page_view(i),
        statement@ matches StatementView::Select ==> (r is Ok && r->Ok_0@ == select_text(
            old(table).cells(),
        ) && final(table).cells() == old(table).cells()),
        statement@ matches StatementView::Insert(rv) ==> {
            &&& old(table).cells().len() >= LEAF_NODE_MAX_CELLS ==> (r == Err::<
                Vec<u8>,
                ExecutionError,
            >(ExecutionError::TableFull) && final(table).cells() == old(table).cells())
            &&& old(table).cells().len() < LEAF_NODE_MAX_CELLS ==> (r is Ok && r->Ok_0@.len() == 0
                && final(table).cells() == old(table).cells().push(cell_of_row(rv)))
        },
{
    match statement {
        Statement::Insert(row) => {
            match execute_insert(&row, table) {
                Ok(()) => Ok(Vec::new()),
                Err(e) => Err(e),
            }
        },
        Statement::Select => Ok(execute_select(table)),
    }
}

// ---------------------------------------------------------------------
// One line of the command cycle.
// ---------------------------------------------------------------------

/// What one input line does: its output text, the cells afterwards, and
/// whether it asks the caller to stop.
#[verifier::ext_equal]
pub ghost struct StepView {
    pub out: Seq<u8>,
    pub cells: Seq<CellView>,
    pub exit: bool,
}

/// The statement part of a line: parse it and run it, or report the
/// parse or execution error.
pub open spec fn spec_statement_step(t: Seq<u8>, cells: Seq<CellView>) -> StepView {
    match spec_prepare(t) {
        Err(e) => StepView {
            out: "Error: ".spec_bytes() + prepare_error_text(e) + "\n".spec_bytes(),
            cells,
            exit: false,
        },
        Ok(StatementView::Select) => StepView {
            out: select_text(cells) + "Executed.\n".spec_bytes(),
            cells,
            exit: false,
        },
        Ok(StatementView::Insert(rv)) => if cells.len() >= LEAF_NODE_MAX_CELLS {
            StepView {
                out: "Error: ".spec_bytes() + execution_error_text(ExecutionError::TableFull)
                    + "\n".spec_bytes(),
                cells,
                exit: false,
            }
        } else {
            StepView {
                out: "Executed.\n".spec_bytes(),
                cells: cells.push(cell_of_row(rv)),
                exit: false,
            }
        },
    }
}

/// What one raw input line does, after trimming: a line starting with a
/// dot runs as a meta command, and an unrecognized one falls through to
/// statement handling with its error reported first.
pub open spec fn spec_step(line: Seq<u8>, cells: Seq<CellView>) -> StepView {
    let t = spec_trim(line);
    if t.len() > 0 && t[0] == 46 {
        match spec_meta(t, cells) {
            Ok(out) => StepView { out, cells, exit: false },
            Err(MetaCommandErrorView::Exit) => StepView {
                out: Seq::empty(),
                cells,
                exit: true,
            },
            Err(e) => {
                let rest = spec_statement_step(t, cells);
                StepView {
                    out: "Error: ".spec_bytes() + meta_error_text(e) + "\n".spec_bytes()
                        + rest.out,
                    cells: rest.cells,
                    exit: false,
                }
            },
        }
    } else {
        spec_statement_step(t, cells)
    }
}

/// Handle one raw input line: trim it, run it as a meta command or a
/// statement, and return the output text and whether to stop, exactly
/// as `spec_step` says.
pub fn process_line(input: &Vec<u8>, table: &mut Table) -> (r: (Vec<u8>, bool))
    requires
        old(table).wf(),
    ensures
        final(table).wf(),
        r.0@ == spec_step(input@, old(table).cells()).out,
        final(table).cells() == spec_step(input@, old(table).cells()).cells,
        r.1 == spec_step(input@, old(table).cells()).exit,
        final(table).pager.file@ == old(table).pager.file@,
        final(table).pager.num_pages == old(table).pager.num_pages,
        forall|i: int|
            1 <= i < TABLE_MAX_PAGES ==> #[trigger] final(table).pager.page_view(i) =~= old(
                table,
            ).pager.page_view(i),
{
    let trimmed = trim_bytes(input);
    let mut out: Vec<u8> = Vec::new();
    if trimmed.len() > 0 && trimmed[0] == 46 {
        match db_meta_command(&trimmed, table) {
            Ok(text) => {
                return (text, false);
            },
            Err(MetaCommandError::Exit) => {
                return (Vec::new(), true);
            },
            Err(MetaCommandError::UnrecognizedCommand(cmd)) => {
                let e = MetaCommandError::UnrecognizedCommand(cmd);
                let msg = e.message();
                append_lit(&mut out, "Error: ");
                append_bytes(&mut out, &msg);
                append_lit(&mut out, "\n");
            },
        }
    }
    let statement = match prepare_statement(&trimmed) {
        Ok(statement) => statement,
        Err(e) => {
            let msg = e.message();
            append_lit(&mut out, "Error: ");
            append_bytes(&mut out, &msg);
            append_lit(&mut out, "\n");
            proof {
                assert(out@ =~= spec_step(input@, old(table).cells()).out);
            }
            return (out, false);
        },
    };
    match execute_statement(statement, table) {
        Ok(text) => {
            append_bytes(&mut out, &text);
            append_lit(&mut out, "Executed.\n");
        },
        Err(e) => {
            let msg = e.message();
            append_lit(&mut out, "Error: ");
            append_bytes(&mut out, &msg);
            append_lit(&mut out, "\n");
        },
    }
    proof {
        assert(out@ =~= spec_step(input@, old(table).cells()).out);
    }
    (out, false)
}

} // verus!
