use vstd::prelude::*;
use crate::blocks::{param_key_is, Parameter};
use crate::document::Document;
use crate::errors::{Error, ErrorKind};
use crate::html::{encode_into, encode_seq};
use crate::strutil::{dec_seq, digits_val, fmt_usize, parse_usize, parses_as_usize, str_is, strip_plus};
use crate::text::{doc_fuel, render_inlines, view_inlines, InlineV, Text};

verus! {

/// The opening tag of a cell: a header cell with its scope when its row
/// or column is marked as a header.
pub open spec fn cell_open(cell: Cell, row_header: bool, header_col: bool) -> Seq<char> {
    if row_header {
        "<th "@ + (if cell.cols > 1 {
            "scope=\"colgroup\" "@
        } else {
            "scope=\"col\" "@
        })
    } else if header_col {
        "<th "@ + (if cell.rows > 1 {
            "scope=\"rowgroup\" "@
        } else {
            "scope=\"row\" "@
        })
    } else {
        "<td "@
    }
}

/// The span attributes of a cell, present only above one.
pub open spec fn cell_spans(cell: Cell) -> Seq<char> {
    (if cell.cols > 1 {
        "colspan=\""@ + dec_seq(cell.cols as nat) + "\" "@
    } else {
        Seq::empty()
    }) + (if cell.rows > 1 {
        "rowspan=\""@ + dec_seq(cell.rows as nat) + "\" "@
    } else {
        Seq::empty()
    })
}

/// The class attribute of a cell: its own class, then its column's.
pub open spec fn cell_class(cell: Cell, col: Option<Column>) -> Seq<char> {
    "class=\""@ + encode_seq(cell.class@) + (match col {
        Option::Some(c) => " "@ + encode_seq(c.class@),
        Option::None => Seq::empty(),
    }) + "\">"@
}

/// The closing tag of a cell.
pub open spec fn cell_close(row_header: bool, header_col: bool) -> Seq<char> {
    if row_header || header_col {
        "</th>"@
    } else {
        "</td>"@
    }
}

/// The rendering of one cell: its opening tag, spans, classes, text and
/// closing tag.
pub open spec fn render_cell(
    cell: Cell,
    row_header: bool,
    col: Option<Column>,
    doc: Document,
    fuel: nat,
) -> Seq<char> {
    let header_col = match col {
        Option::Some(c) => c.header,
        Option::None => false,
    };
    cell_open(cell, row_header, header_col) + cell_spans(cell) + cell_class(cell, col)
        + render_inlines(view_inlines(cell.text.0@), doc, fuel, false) + cell_close(
        row_header,
        header_col,
    )
}

/// A table: its caption, its rows, and an independent list of column
/// definitions that carry header and class information.
#[derive(Debug)]
pub struct Table {
    pub title: Text,
    pub numbered: bool,
    pub number: usize,
    pub rows: Vec<Row>,
    pub columns: Vec<Column>,
}

impl Table {
    /// A fresh, numbered, empty table.
    pub fn new() -> (r: Table)
        ensures
            r.title@ == Seq::<InlineV>::empty(),
            r.numbered,
            r.number == 0,
            r.rows@ == Seq::<Row>::empty(),
            r.columns@ == Seq::<Column>::empty(),
    {
        Table {
            title: Text::new(),
            numbered: true,
            number: 0,
            rows: Vec::new(),
            columns: Vec::new(),
        }
    }

    /// Consumes the bare word `nonumber`; hands every other parameter back.
    pub fn update_param(&mut self, param: Parameter) -> (r: Result<Option<Parameter>, Error>)
        ensures
            r is Ok,
            ({
                let back = r->Ok_0;
                if param.0 is None && param.1@ == "nonumber"@ {
                    back is None && *final(self) == (Table { numbered: false, ..*old(self) })
                } else {
                    back == Some(param) && *final(self) == *old(self)
                }
            }),
    {
        match &param.0 {
            Option::Some(_) => Ok(Some(param)),
            Option::None => {
                if str_is(&param.1, "nonumber") {
                    self.numbered = false;
                    Ok(None)
                } else {
                    Ok(Some(param))
                }
            },
        }
    }
}

/// One table row: its cells, whether it is a header row, and its class.
#[derive(Debug)]
pub struct Row {
    pub cells: Vec<Cell>,
    pub header: bool,
    pub class: String,
}

impl Row {
    /// A fresh, empty row.
    pub fn new() -> (r: Row)
        ensures
            r.cells@ == Seq::<Cell>::empty(),
            !r.header,
            r.class@ == Seq::<char>::empty(),
    {
        Row { cells: Vec::new(), header: false, class: String::new() }
    }

    /// Consumes a keyed `class`, the bare word `header`, and any other bare
    /// word as the class; hands keyed parameters it does not know back.
    pub fn update_param(&mut self, param: Parameter) -> (r: Result<Option<Parameter>, Error>)
        ensures
            r is Ok,
            ({
                let back = r->Ok_0;
                if param_key_is(param, "class"@) {
                    back is None && final(self).class@ == param.1@ && final(self).header == old(self).header && final(self).cells == old(self).cells
                } else if param.0 is None && param.1@ == "header"@ {
                    back is None && final(self).header && final(self).class == old(self).class
                        && final(self).cells == old(self).cells
                } else if param.0 is None {
                    back is None && final(self).class@ == param.1@ && final(self).header == old(self).header && final(self).cells == old(self).cells
                } else {
                    back == Some(param) && *final(self) == *old(self)
                }
            }),
    {
        match &param.0 {
            Option::Some(name) => {
                if str_is(name, "class") {
                    self.class = param.1;
                    Ok(None)
                } else {
                    Ok(Some(param))
                }
            },
            Option::None => {
                if str_is(&param.1, "header") {
                    self.header = true;
                    Ok(None)
                } else {
                    self.class = param.1;
                    Ok(None)
                }
            },
        }
    }
}

/// One column definition: whether its cells are headers, and its class.
#[derive(Debug)]
pub struct Column {
    pub header: bool,
    pub class: String,
}

impl Column {
    /// A fresh column definition.
    pub fn new() -> (r: Column)
        ensures
            !r.header,
            r.class@ == Seq::<char>::empty(),
    {
        Column { header: false, class: String::new() }
    }

    /// Consumes a keyed `class`, the bare word `header`, and any other bare
    /// word as the class; hands keyed parameters it does not know back.
    pub fn update_param(&mut self, param: Parameter) -> (r: Result<Option<Parameter>, Error>)
        ensures
            r is Ok,
            ({
                let back = r->Ok_0;
                if param_key_is(param, "class"@) {
                    back is None && final(self).class@ == param.1@ && final(self).header == old(self).header
                } else if param.0 is None && param.1@ == "header"@ {
                    back is None && final(self).header && final(self).class == old(self).class
                } else if param.0 is None {
                    back is None && final(self).class@ == param.1@ && final(self).header == old(self).header
                } else {
                    back == Some(param) && *final(self) == *old(self)
                }
            }),
    {
        match &param.0 {
            Option::Some(name) => {
                if str_is(name, "class") {
                    self.class = param.1;
                    Ok(None)
                } else {
                    Ok(Some(param))
                }
            },
            Option::None => {
                if str_is(&param.1, "header") {
                    self.header = true;
                    Ok(None)
                } else {
                    self.class = param.1;
                    Ok(None)
                }
            },
        }
    }
}

/// One table cell: how many rows and columns it spans, its class, and its
/// text. Span counts are at least 1.
#[derive(Debug)]
pub struct Cell {
    pub rows: usize,
    pub cols: usize,
    pub class: String,
    pub text: Text,
}

impl Cell {
    /// A fresh cell spanning one row and one column.
    pub fn new() -> (r: Cell)
        ensures
            r.rows == 1,
            r.cols == 1,
            r.class@ == Seq::<char>::empty(),
            r.text@ == Seq::<InlineV>::empty(),
    {
        Cell { rows: 1, cols: 1, class: String::new(), text: Text::new() }
    }

    /// Consumes `class` (keyed or bare), `rows` and `cols` parameters; a
    /// `rows` or `cols` value that is not a number is a parse fault. Hands
    /// every other parameter back.
    pub fn update_param(&mut self, param: Parameter) -> (r: Result<Option<Parameter>, Error>)
        ensures
            ({
                if param.0 is None || param.0->0@ == "class"@ {
                    r is Ok && r->Ok_0 is None && final(self).class@ == param.1@
                        && final(self).rows == old(self).rows
                        && final(self).cols == old(self).cols
                        && final(self).text == old(self).text
                } else if param_key_is(param, "rows"@) {
                    if parses_as_usize(param.1@) {
                        r is Ok && r->Ok_0 is None
                            && final(self).rows == digits_val(strip_plus(param.1@))
                            && final(self).cols == old(self).cols
                            && final(self).class == old(self).class
                            && final(self).text == old(self).text
                    } else {
                        r is Err && r->Err_0.kinds@ == seq![ErrorKind::Parse]
                    }
                } else if param_key_is(param, "cols"@) {
                    if parses_as_usize(param.1@) {
                        r is Ok && r->Ok_0 is None
                            && final(self).cols == digits_val(strip_plus(param.1@))
                            && final(self).rows == old(self).rows
                            && final(self).class == old(self).class
                            && final(self).text == old(self).text
                    } else {
                        r is Err && r->Err_0.kinds@ == seq![ErrorKind::Parse]
                    }
                } else {
                    r is Ok && r->Ok_0 == Some(param) && *final(self) == *old(self)
                }
            }),
    {
        let is_class = match &param.0 {
            Option::None => true,
            Option::Some(name) => str_is(name, "class"),
        };
        if is_class {
            self.class = param.1;
            return Ok(None);
        }
        let is_rows = match &param.0 {
            Option::None => false,
            Option::Some(name) => str_is(name, "rows"),
        };
        if is_rows {
            return match parse_usize(&param.1) {
                Option::Some(n) => {
                    self.rows = n;
                    Ok(None)
                },
                Option::None => Err(ErrorKind::Parse.into_error()),
            };
        }
        let is_cols = match &param.0 {
            Option::None => false,
            Option::Some(name) => str_is(name, "cols"),
        };
        if is_cols {
            match parse_usize(&param.1) {
                Option::Some(n) => {
                    self.cols = n;
                    Ok(None)
                },
                Option::None => Err(ErrorKind::Parse.into_error()),
            }
        } else {
            Ok(Some(param))
        }
    }
}

/// The first free column at or after `col`: occupied columns (those whose
/// continuation count is positive) are skipped.
pub open spec fn adv_col(cont: Seq<usize>, col: int) -> int
    decreases cont.len() - col,
{
    if 0 <= col < cont.len() && cont[col] > 0 {
        adv_col(cont, col + 1)
    } else {
        col
    }
}

/// The continuation counts after skipping to the first free column:
/// every occupied column passed on the way is consumed once.
pub open spec fn adv_cont(cont: Seq<usize>, col: int) -> Seq<usize>
    decreases cont.len() - col,
{
    if 0 <= col < cont.len() && cont[col] > 0 {
        adv_cont(cont.update(col, (cont[col] - 1) as usize), col + 1)
    } else {
        cont
    }
}

impl Table {
    /// Moves the column cursor past every column a cell from an earlier
    /// row still spans, consuming one row of each such span.
    pub fn advance_columns(cont: &mut Vec<usize>, col: usize) -> (r: usize)
        requires
            col <= usize::MAX,
        ensures
            r == adv_col(old(cont)@, col as int),
            final(cont)@ == adv_cont(old(cont)@, col as int),
            col <= r,
            final(cont)@.len() == old(cont)@.len(),
        decreases old(cont)@.len() - col,
    {
        if col < cont.len() && cont[col] > 0 {
            let v = cont[col];
            let ghost pre = cont@;
            let e = &mut cont[col];
            *e = v - 1;
            proof {
                assert(cont@ =~= pre.update(col as int, (pre[col as int] - 1) as usize));
                lemma_adv_col_agree(pre, cont@, col + 1);
            }
            Table::advance_columns(cont, col + 1)
        } else {
            col
        }
    }

    /// Records that a cell at column `col`, spanning `cols` columns and
    /// `rows` rows, occupies those columns for the following rows.
    pub fn mark_spans(cont: &mut Vec<usize>, col: usize, cols: usize, rows: usize)
        requires
            col + cols <= usize::MAX,
        ensures
            final(cont)@.len() == (if old(cont)@.len() >= col + cols {
                old(cont)@.len() as int
            } else {
                col + cols
            }),
            forall|i: int|
                0 <= i < final(cont)@.len() ==> #[trigger] final(cont)@[i] == (if col <= i < col
                    + cols {
                    let existing: usize = if i < old(cont)@.len() {
                        old(cont)@[i]
                    } else {
                        0
                    };
                    let m: usize = if rows > existing {
                        rows
                    } else {
                        existing
                    };
                    if m == 0 {
                        0usize
                    } else {
                        (m - 1) as usize
                    }
                } else if i < old(cont)@.len() {
                    old(cont)@[i]
                } else {
                    0
                }),
    {
        let ghost pre = cont@;
        while cont.len() < col + cols
            invariant
                col + cols <= usize::MAX,
                cont@.len() <= pre.len() || cont@.len() <= col + cols,
                forall|i: int| 0 <= i < pre.len() && i < cont@.len() ==> #[trigger] cont@[i] == pre[i],
                forall|i: int| pre.len() <= i < cont@.len() ==> #[trigger] cont@[i] == 0,
                cont@.len() >= pre.len(),
            decreases col + cols - cont@.len(),
        {
            cont.push(0);
        }
        let mut i = col;
        while i < col + cols
            invariant
                col + cols <= usize::MAX,
                col <= i <= col + cols,
                cont@.len() == (if pre.len() >= col + cols {
                    pre.len() as int
                } else {
                    col + cols
                }),
                forall|j: int|
                    0 <= j < cont@.len() ==> #[trigger] cont@[j] == (if col <= j < i {
                        let existing: usize = if j < pre.len() {
                            pre[j]
                        } else {
                            0
                        };
                        let m: usize = if rows > existing {
                            rows
                        } else {
                            existing
                        };
                        if m == 0 {
                            0usize
                        } else {
                            (m - 1) as usize
                        }
                    } else if j < pre.len() {
                        pre[j]
                    } else {
                        0
                    }),
            decreases col + cols - i,
        {
            let existing = cont[i];
            let m = if rows > existing {
                rows
            } else {
                existing
            };
            let v = if m == 0 {
                0
            } else {
                m - 1
            };
            let e = &mut cont[i];
            *e = v;
            i = i + 1;
        }
    }
}

/// Span accounting: after a cell spanning `rows` rows and `cols` columns
/// is placed at the first column of a fresh row (which `mark_spans`
/// records as `rows - 1` pending rows in each of those columns), the next
/// row's cursor skips to column `cols`, not column 0, for any `rows` of
/// at least 2.
pub proof fn lemma_span_round_trip(cols: usize, rows: usize)
    requires
        cols >= 1,
        rows >= 2,
        cols < usize::MAX,
    ensures
        ({
            let marked = Seq::new(cols as nat, |i: int| (rows - 1) as usize);
            adv_col(marked, 0) == cols
        }),
{
    let marked = Seq::new(cols as nat, |i: int| (rows - 1) as usize);
    lemma_adv_col_full(marked, 0);
}

proof fn lemma_adv_col_agree(c1: Seq<usize>, c2: Seq<usize>, col: int)
    requires
        c1.len() == c2.len(),
        forall|i: int| col <= i < c1.len() ==> #[trigger] c1[i] == #[trigger] c2[i],
    ensures
        adv_col(c1, col) == adv_col(c2, col),
    decreases c1.len() - col,
{
    if 0 <= col < c1.len() && c1[col] > 0 {
        lemma_adv_col_agree(c1, c2, col + 1);
    }
}

proof fn lemma_adv_col_full(cont: Seq<usize>, col: int)
    requires
        0 <= col <= cont.len(),
        forall|i: int| 0 <= i < cont.len() ==> #[trigger] cont[i] > 0,
    ensures
        adv_col(cont, col) == cont.len(),
    decreases cont.len() - col,
{
    if col < cont.len() {
        lemma_adv_col_full(cont, col + 1);
    }
}

fn write_cell_open(w: &mut String, cell: &Cell, header_row: bool, header_col: bool)
    ensures
        final(w)@ == old(w)@ + cell_open(*cell, header_row, header_col),
{
    if header_row {
        w.push_str("<th ");
        if cell.cols > 1 {
            w.push_str("scope=\"colgroup\" ");
        } else {
            w.push_str("scope=\"col\" ");
        }
    } else if header_col {
        w.push_str("<th ");
        if cell.rows > 1 {
            w.push_str("scope=\"rowgroup\" ");
        } else {
            w.push_str("scope=\"row\" ");
        }
    } else {
        w.push_str("<td ");
    }
    proof {
        assert(final(w)@ =~= old(w)@ + cell_open(*cell, header_row, header_col));
    }
}

fn write_cell_spans(w: &mut String, cell: &Cell)
    ensures
        final(w)@ == old(w)@ + cell_spans(*cell),
{
    let ghost w0 = w@;
    if cell.cols > 1 {
        w.push_str("colspan=\"");
        let d = fmt_usize(cell.cols);
        w.push_str(d.as_str());
        w.push_str("\" ");
    }
    if cell.rows > 1 {
        w.push_str("rowspan=\"");
        let d = fmt_usize(cell.rows);
        w.push_str(d.as_str());
        w.push_str("\" ");
    }
    proof {
        assert(final(w)@ =~= old(w)@ + cell_spans(*cell));
    }
}

fn write_cell_class(w: &mut String, cell: &Cell, col: Option<&Column>)
    ensures
        final(w)@ == old(w)@ + cell_class(
            *cell,
            match col {
                Option::Some(c) => Some(*c),
                Option::None => None,
            },
        ),
{
    w.push_str("class=\"");
    encode_into(w, cell.class.as_str());
    match col {
        Option::Some(c) => {
            w.push_str(" ");
            encode_into(w, c.class.as_str());
        },
        Option::None => {},
    }
    w.push_str("\">");
    proof {
        assert(final(w)@ =~= old(w)@ + cell_class(
            *cell,
            match col {
                Option::Some(c) => Some(*c),
                Option::None => None,
            },
        ));
    }
}

impl Cell {
    /// Renders the cell: its opening tag with a header scope where its
    /// row or column is a header, its spans, its classes, and its text.
    pub fn write(
        &self,
        w: &mut String,
        row: &Row,
        col: Option<&Column>,
        document: &Document,
        fuel: usize,
    )
        ensures
            final(w)@ == old(w)@ + render_cell(
                *self,
                row.header,
                match col {
                    Option::Some(c) => Some(*c),
                    Option::None => None,
                },
                *document,
                fuel as nat,
            ),
    {
        let ghost cv = match col {
            Option::Some(c) => Some(*c),
            Option::None => None,
        };
        let header_row = row.header;
        let header_col = match col {
            Option::Some(c) => c.header,
            Option::None => false,
        };
        write_cell_open(w, self, header_row, header_col);
        write_cell_spans(w, self);
        write_cell_class(w, self, col);
        self.text.write_fueled(w, document, fuel, false);
        if header_row || header_col {
            w.push_str("</th>");
        } else {
            w.push_str("</td>");
        }
        proof {
            assert(final(w)@ =~= old(w)@ + render_cell(
                *self,
                header_row,
                cv,
                *document,
                fuel as nat,
            ));
        }
    }
}

/// The column span a cell takes at physical column `col`: its own span,
/// clipped at the machine limit.
pub open spec fn clip_cols(cell: Cell, col: int) -> int {
    if cell.cols as int > usize::MAX as int - col {
        usize::MAX as int - col
    } else {
        cell.cols as int
    }
}

/// The continuation counts after a cell spanning `cols` columns and
/// `rows` rows is placed at column `col`: each of its columns records the
/// rows still pending, keeping a longer span already recorded there.
pub open spec fn mark_cont(cont: Seq<usize>, col: int, cols: int, rows: usize) -> Seq<usize> {
    Seq::new(
        (if cont.len() >= col + cols {
            cont.len() as int
        } else {
            col + cols
        }) as nat,
        |i: int|
            if col <= i < col + cols {
                let existing: usize = if i < cont.len() {
                    cont[i]
                } else {
                    0
                };
                let m: usize = if rows > existing {
                    rows
                } else {
                    existing
                };
                if m == 0 {
                    0usize
                } else {
                    (m - 1) as usize
                }
            } else if i < cont.len() {
                cont[i]
            } else {
                0usize
            },
    )
}

/// The rendering of a row's cells from column cursor `col` with the
/// pending spans `cont`: each cell first skips the columns still occupied
/// from earlier rows, consults the column definition at the physical
/// column so reached, and records its own spans for the rows below.
pub open spec fn render_cells(
    cells: Seq<Cell>,
    row: Row,
    columns: Seq<Column>,
    cont: Seq<usize>,
    col: int,
    doc: Document,
    fuel: nat,
) -> Seq<char>
    decreases cells.len(),
{
    if cells.len() == 0 {
        Seq::empty()
    } else {
        let ncol = adv_col(cont, col);
        let cont1 = adv_cont(cont, col);
        let cols = clip_cols(cells[0], ncol);
        let colref = if ncol < columns.len() {
            Some(columns[ncol])
        } else {
            None::<Column>
        };
        render_cell(cells[0], row.header, colref, doc, fuel) + render_cells(
            cells.drop_first(),
            row,
            columns,
            mark_cont(cont1, ncol, cols, cells[0].rows),
            ncol + cols,
            doc,
            fuel,
        )
    }
}

/// The pending spans a row's cells leave for the row below.
pub open spec fn cells_after(cells: Seq<Cell>, cont: Seq<usize>, col: int) -> Seq<usize>
    decreases cells.len(),
{
    if cells.len() == 0 {
        cont
    } else {
        let ncol = adv_col(cont, col);
        let cont1 = adv_cont(cont, col);
        let cols = clip_cols(cells[0], ncol);
        cells_after(
            cells.drop_first(),
            mark_cont(cont1, ncol, cols, cells[0].rows),
            ncol + cols,
        )
    }
}

/// The rendering of the rows: each row opens with its class, renders its
/// cells against the spans pending from the rows above, and passes the
/// spans it leaves on to the next row.
pub open spec fn render_rows(
    rows: Seq<Row>,
    columns: Seq<Column>,
    cont: Seq<usize>,
    doc: Document,
    fuel: nat,
) -> Seq<char>
    decreases rows.len(),
{
    if rows.len() == 0 {
        Seq::empty()
    } else {
        "<tr class=\""@ + encode_seq(rows[0].class@) + "\">"@ + render_cells(
            rows[0].cells@,
            rows[0],
            columns,
            cont,
            0,
            doc,
            fuel,
        ) + "</tr>\n"@ + render_rows(
            rows.drop_first(),
            columns,
            cells_after(rows[0].cells@, cont, 0),
            doc,
            fuel,
        )
    }
}

/// The full rendering of a table block: its identifying attributes, the
/// caption with the table number, and the rows with no spans pending.
pub open spec fn render_table(t: Table, common: crate::blocks::BlockCommon, doc: Document) -> Seq<
    char,
> {
    "<table "@ + "id=\""@ + encode_seq(common.id@) + "\" "@ + "class=\""@ + encode_seq(
        common.class@,
    ) + "\">"@ + "<caption>"@ + "<span class=\"table-heading-prefix\">Table"@ + (if t.numbered {
        " "@ + dec_seq(t.number as nat)
    } else {
        Seq::empty()
    }) + ":</span> "@ + render_inlines(view_inlines(t.title.0@), doc, doc_fuel(doc), false)
        + "</caption>\n"@ + render_rows(t.rows@, t.columns@, Seq::empty(), doc, doc_fuel(doc))
        + "</table>\n\n"@
}

impl Table {
    /// Renders the table: its caption with the table number, the rows with
    /// cells placed by the span-accounting of `advance_columns` and
    /// `mark_spans`, each cell at its physical column.
    #[verifier::rlimit(100)]
    pub fn write(&self, w: &mut String, common: &crate::blocks::BlockCommon, document: &Document)
        ensures
            final(w)@ == old(w)@ + render_table(*self, *common, *document),
    {
        let ghost base = w@;
        w.push_str("<table ");
        w.push_str("id=\"");
        encode_into(w, common.id.as_str());
        w.push_str("\" ");
        w.push_str("class=\"");
        encode_into(w, common.class.as_str());
        w.push_str("\">");
        w.push_str("<caption>");
        w.push_str("<span class=\"table-heading-prefix\">Table");
        if self.numbered {
            w.push_str(" ");
            let d = fmt_usize(self.number);
            w.push_str(d.as_str());
        }
        w.push_str(":</span> ");
        let fuel = crate::text::document_fuel(document);
        self.title.write_fueled(w, document, fuel, false);
        w.push_str("</caption>\n");
        let ghost whead = w@;
        let mut continuation: Vec<usize> = Vec::new();
        let ghost all_rows = render_rows(
            self.rows@,
            self.columns@,
            Seq::<usize>::empty(),
            *document,
            fuel as nat,
        );
        let ghost mut rowsout: Seq<char> = Seq::empty();
        let mut r: usize = 0;
        proof {
            assert(self.rows@.skip(0) =~= self.rows@);
            assert(continuation@ =~= Seq::<usize>::empty());
            assert(rowsout + all_rows =~= all_rows);
            assert(w@ =~= whead + rowsout);
        }
        while r < self.rows.len()
            invariant
                r <= self.rows@.len(),
                fuel as nat == doc_fuel(*document),
                w@ == whead + rowsout,
                rowsout + render_rows(
                    self.rows@.skip(r as int),
                    self.columns@,
                    continuation@,
                    *document,
                    fuel as nat,
                ) == all_rows,
                all_rows == render_rows(
                    self.rows@,
                    self.columns@,
                    Seq::<usize>::empty(),
                    *document,
                    fuel as nat,
                ),
            decreases self.rows@.len() - r,
        {
            let row = &self.rows[r];
            let ghost row_v = self.rows@[r as int];
            let ghost cont_row = continuation@;
            w.push_str("<tr class=\"");
            encode_into(w, row.class.as_str());
            w.push_str("\">");
            let ghost wrow = w@;
            let ghost all_cells = render_cells(
                row_v.cells@,
                row_v,
                self.columns@,
                cont_row,
                0,
                *document,
                fuel as nat,
            );
            let ghost mut cellsout: Seq<char> = Seq::empty();
            let mut col: usize = 0;
            let mut c: usize = 0;
            proof {
                assert(row_v.cells@.skip(0) =~= row_v.cells@);
                assert(cellsout + all_cells =~= all_cells);
            }
            while c < row.cells.len()
                invariant
                    c <= row_v.cells@.len(),
                    r < self.rows@.len(),
                    row == &self.rows[r as int],
                    row_v == self.rows@[r as int],
                    fuel as nat == doc_fuel(*document),
                    w@ == wrow + cellsout,
                    cellsout + render_cells(
                        row_v.cells@.skip(c as int),
                        row_v,
                        self.columns@,
                        continuation@,
                        col as int,
                        *document,
                        fuel as nat,
                    ) == all_cells,
                    cells_after(row_v.cells@.skip(c as int), continuation@, col as int)
                        == cells_after(row_v.cells@, cont_row, 0),
                    all_cells == render_cells(
                        row_v.cells@,
                        row_v,
                        self.columns@,
                        cont_row,
                        0,
                        *document,
                        fuel as nat,
                    ),
                decreases row.cells@.len() - c,
            {
                let ghost cells_rem = row_v.cells@.skip(c as int);
                let ghost cont_pre = continuation@;
                let ghost col_pre = col as int;
                let cell = &row.cells[c];
                let newcol = Table::advance_columns(&mut continuation, col);
                col = newcol;
                let cols = if cell.cols > usize::MAX - col {
                    usize::MAX - col
                } else {
                    cell.cols
                };
                let ghost cont_adv = continuation@;
                Table::mark_spans(&mut continuation, col, cols, cell.rows);
                proof {
                    assert(cells_rem[0] == row_v.cells@[c as int]);
                    assert(cells_rem.drop_first() =~= row_v.cells@.skip(c as int + 1));
                    assert(cols as int == clip_cols(*cell, newcol as int));
                    assert(continuation@ =~= mark_cont(
                        cont_adv,
                        newcol as int,
                        cols as int,
                        cell.rows,
                    ));
                }
                let colref = if col < self.columns.len() {
                    Some(&self.columns[col])
                } else {
                    None
                };
                cell.write(w, row, colref, document, fuel);
                proof {
                    let colv = if (newcol as int) < self.columns@.len() {
                        Some(self.columns@[newcol as int])
                    } else {
                        None::<Column>
                    };
                    let piece = render_cell(*cell, row_v.header, colv, *document, fuel as nat);
                    assert(w@ == wrow + cellsout + piece);
                    assert(render_cells(
                        cells_rem,
                        row_v,
                        self.columns@,
                        cont_pre,
                        col_pre,
                        *document,
                        fuel as nat,
                    ) == piece + render_cells(
                        cells_rem.drop_first(),
                        row_v,
                        self.columns@,
                        continuation@,
                        newcol as int + cols as int,
                        *document,
                        fuel as nat,
                    ));
                    assert(cells_after(cells_rem, cont_pre, col_pre) == cells_after(
                        cells_rem.drop_first(),
                        continuation@,
                        newcol as int + cols as int,
                    ));
                    cellsout = cellsout + piece;
                    assert(w@ =~= wrow + cellsout);
                    assert(cellsout + render_cells(
                        row_v.cells@.skip(c as int + 1),
                        row_v,
                        self.columns@,
                        continuation@,
                        newcol as int + cols as int,
                        *document,
                        fuel as nat,
                    ) =~= all_cells);
                }
                col = col + cols;
                c = c + 1;
            }
            proof {
                assert(row_v.cells@.skip(c as int) =~= Seq::<Cell>::empty());
                assert(cellsout + Seq::<char>::empty() =~= cellsout);
                assert(cellsout == all_cells);
                assert(continuation@ == cells_after(row_v.cells@, cont_row, 0));
            }
            w.push_str("</tr>\n");
            proof {
                let rows_rem = self.rows@.skip(r as int);
                assert(rows_rem[0] == row_v);
                assert(rows_rem.drop_first() =~= self.rows@.skip(r as int + 1));
                assert(render_rows(
                    rows_rem,
                    self.columns@,
                    cont_row,
                    *document,
                    fuel as nat,
                ) == "<tr class=\""@ + encode_seq(row_v.class@) + "\">"@ + all_cells + "</tr>\n"@
                    + render_rows(
                    rows_rem.drop_first(),
                    self.columns@,
                    cells_after(row_v.cells@, cont_row, 0),
                    *document,
                    fuel as nat,
                ));
                rowsout = rowsout + "<tr class=\""@ + encode_seq(row_v.class@) + "\">"@ + all_cells
                    + "</tr>\n"@;
                assert(w@ =~= whead + rowsout);
                assert(rowsout + render_rows(
                    self.rows@.skip(r as int + 1),
                    self.columns@,
                    continuation@,
                    *document,
                    fuel as nat,
                ) =~= all_rows);
            }
            r = r + 1;
        }
        proof {
            assert(self.rows@.skip(r as int) =~= Seq::<Row>::empty());
            assert(rowsout + Seq::<char>::empty() =~= rowsout);
            assert(rowsout == all_rows);
        }
        w.push_str("</table>\n\n");
        proof {
            assert(whead =~= base + "<table "@ + "id=\""@ + encode_seq(common.id@) + "\" "@
                + "class=\""@ + encode_seq(common.class@) + "\">"@ + "<caption>"@
                + "<span class=\"table-heading-prefix\">Table"@ + (if self.numbered {
                " "@ + dec_seq(self.number as nat)
            } else {
                Seq::empty()
            }) + ":</span> "@ + render_inlines(
                view_inlines(self.title.0@),
                *document,
                doc_fuel(*document),
                false,
            ) + "</caption>\n"@);
            assert(w@ =~= base + render_table(*self, *common, *document));
        }
    }
}

} // verus!
