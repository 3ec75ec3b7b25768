//! The boxed text layout of a printed matrix, from the text of its cells.
//!
//! Widths are counted in characters. The cells that a number formats to
//! are ASCII, so for them a character is a byte.
use vstd::prelude::*;
use vstd::string::{StrSliceExecFns, StringExecFns};
use crate::grid::{is_rect, ncols};
use crate::matrix::{
    kept, lemma_widest_cell_bound, lemma_widest_first_bound, print_widths, rows_of, widest_cell,
    widest_first,
};

verus! {

/// `n` spaces (none when `n` is not positive).
pub open spec fn spaces(n: int) -> Seq<char> {
    Seq::new(if n > 0 { n as nat } else { 0 }, |_i: int| ' ')
}

/// The vertical bar of the box.
pub open spec fn bar() -> char {
    '\u{2502}'
}

/// One cell: the ellipsis column marker when `ellipsis`, then the cell
/// right-aligned in `width` characters, then a space.
pub open spec fn cell_text(cell: Seq<char>, width: int, ellipsis: bool) -> Seq<char> {
    (if ellipsis {
        seq![' ', '\u{22ef}', ' ', ' ']
    } else {
        Seq::<char>::empty()
    }) + spaces(width - cell.len()) + cell + seq![' ']
}

/// A padded cell is right-aligned: after the optional ellipsis marker it
/// has exactly `width - len` spaces, then the cell's text, then one space,
/// whatever the cell's length.
pub proof fn lemma_cell_right_aligned(cell: Seq<char>, width: int, ellipsis: bool)
    requires
        width >= cell.len(),
    ensures
        ({
            let t = cell_text(cell, width, ellipsis);
            let m: int = if ellipsis {
                4
            } else {
                0
            };
            &&& t.len() == m + width + 1
            &&& t[t.len() - 1] == ' '
            &&& t.subrange(t.len() - 1 - cell.len(), t.len() - 1) == cell
            &&& forall|i: int| m <= i < t.len() - 1 - cell.len() ==> #[trigger] t[i] == ' '
        }),
{
    let t = cell_text(cell, width, ellipsis);
    let m: int = if ellipsis {
        4
    } else {
        0
    };
    let marker = if ellipsis {
        seq![' ', '\u{22ef}', ' ', ' ']
    } else {
        Seq::<char>::empty()
    };
    assert(t == marker + spaces(width - cell.len()) + cell + seq![' ']);
    assert(t.subrange(t.len() - 1 - cell.len(), t.len() - 1) =~= cell);
}

/// In every printed row, the cells that come before index `k` take the
/// same number of characters: `front + 1` for the first, `req + 1` for each
/// other, and 4 more for the ellipsis marker when it is among them; so the
/// columns of all rows line up.
pub proof fn lemma_row_cells_len(
    row: Seq<Seq<char>>,
    k: int,
    front: int,
    req: int,
    cols_elided: bool,
)
    requires
        0 <= k <= row.len(),
        row.len() > 0 ==> front >= row[0].len(),
        forall|x: int| 0 < x < row.len() ==> req >= #[trigger] row[x].len(),
    ensures
        row_cells(row, k, front, req, cols_elided).len() == (if k > 0 {
            front + 1 + (k - 1) * (req + 1)
        } else {
            0
        }) + if cols_elided && k > 3 {
            4int
        } else {
            0
        },
    decreases k,
{
    if k > 0 {
        lemma_row_cells_len(row, k - 1, front, req, cols_elided);
        let w = if k - 1 == 0 {
            front
        } else {
            req
        };
        lemma_cell_right_aligned(row[k - 1], w, k - 1 == 3 && cols_elided);
        assert((k - 1) * (req + 1) == (k - 2) * (req + 1) + req + 1) by (nonlinear_arith);
    }
}

/// Eliding rows changes the printed rows in one way only: the ellipsis line
/// stands right after the third row. Before it nothing changes, and after
/// it come the same rows as without elision.
pub proof fn lemma_row_elision_inserts_dots(
    cells: Seq<Seq<Seq<char>>>,
    k: int,
    front: int,
    req: int,
    cols_elided: bool,
)
    requires
        0 <= k <= cells.len(),
    ensures
        k < 3 ==> body(cells, k, front, req, true, cols_elided) == body(cells, k, front, req, false, cols_elided),
        k >= 3 ==> body(cells, k, front, req, false, cols_elided).len() >= body(cells, 3, front, req, false, cols_elided).len(),
        k >= 3 ==> body(cells, k, front, req, true, cols_elided) == body(cells, 3, front, req, false, cols_elided) + dots_line(front, req) + body(cells, k, front, req, false, cols_elided).subrange(
            body(cells, 3, front, req, false, cols_elided).len() as int,
            body(cells, k, front, req, false, cols_elided).len() as int,
        ),
    decreases k,
{
    if k > 0 {
        lemma_row_elision_inserts_dots(cells, k - 1, front, req, cols_elided);
        let b3 = body(cells, 3, front, req, false, cols_elided);
        let bk = body(cells, k, front, req, false, cols_elided);
        if k < 3 {
            assert(body(cells, k, front, req, true, cols_elided) =~= bk);
        } else if k == 3 {
            assert(bk.subrange(b3.len() as int, bk.len() as int) =~= Seq::<char>::empty());
            assert(body(cells, k, front, req, true, cols_elided) =~= b3 + dots_line(front, req)
                + bk.subrange(b3.len() as int, bk.len() as int));
        } else {
            let bk1 = body(cells, k - 1, front, req, false, cols_elided);
            if k - 1 == 3 {
                assert(bk1.subrange(b3.len() as int, bk1.len() as int) =~= Seq::<char>::empty());
            }
            assert(bk.subrange(b3.len() as int, bk.len() as int) =~= bk1.subrange(
                b3.len() as int,
                bk1.len() as int,
            ) + row_line(cells[k - 1], front, req, cols_elided));
            assert(body(cells, k, front, req, true, cols_elided) =~= b3 + dots_line(front, req)
                + bk.subrange(b3.len() as int, bk.len() as int));
        }
    }
}

/// Eliding columns changes a printed row in one way only: the ellipsis
/// marker stands right before the fourth cell. Before it nothing changes,
/// and after it come the same cells as without elision.
pub proof fn lemma_col_elision_inserts_marker(
    row: Seq<Seq<char>>,
    k: int,
    front: int,
    req: int,
)
    requires
        0 <= k <= row.len(),
    ensures
        k <= 3 ==> row_cells(row, k, front, req, true) == row_cells(row, k, front, req, false),
        k >= 3 ==> row_cells(row, k, front, req, false).len() >= row_cells(
            row,
            3,
            front,
            req,
            false,
        ).len(),
        k > 3 ==> row_cells(row, k, front, req, true) == row_cells(row, 3, front, req, false)
            + seq![' ', '\u{22ef}', ' ', ' '] + row_cells(row, k, front, req, false).subrange(
            row_cells(row, 3, front, req, false).len() as int,
            row_cells(row, k, front, req, false).len() as int,
        ),
    decreases k,
{
    if k > 0 {
        lemma_col_elision_inserts_marker(row, k - 1, front, req);
        let r3 = row_cells(row, 3, front, req, false);
        let rk = row_cells(row, k, front, req, false);
        let rk1 = row_cells(row, k - 1, front, req, false);
        let w = if k - 1 == 0 {
            front
        } else {
            req
        };
        if k <= 3 {
            assert(row_cells(row, k, front, req, true) =~= rk);
        } else {
            let plain = cell_text(row[k - 1], w, false);
            if k - 1 == 3 {
                assert(rk1 == r3);
                assert(rk1.subrange(r3.len() as int, rk1.len() as int) =~= Seq::<char>::empty());
                assert(cell_text(row[k - 1], w, true) =~= seq![' ', '\u{22ef}', ' ', ' '] + plain);
            } else {
                assert(cell_text(row[k - 1], w, false) == plain);
            }
            assert(rk.subrange(r3.len() as int, rk.len() as int) =~= rk1.subrange(
                r3.len() as int,
                rk1.len() as int,
            ) + plain);
            assert(row_cells(row, k, front, req, true) =~= r3 + seq![' ', '\u{22ef}', ' ', ' ']
                + rk.subrange(r3.len() as int, rk.len() as int));
        }
    }
}

/// When all rows have the same number of cells and the widths cover every
/// cell, each printed row (with its bars and newline) is three characters
/// longer than the border width: the box closes on every row.
pub proof fn lemma_rows_fit_border(
    cells: Seq<Seq<Seq<char>>>,
    front: int,
    req: int,
    cols_elided: bool,
    y: int,
)
    requires
        0 <= y < cells.len(),
        forall|i: int| 0 <= i < cells.len() ==> #[trigger] cells[i].len() == cells[0].len(),
        forall|i: int| 0 <= i < cells.len() && cells[i].len() > 0 ==> front >= #[trigger] cells[i][0].len(),
        forall|i: int, x: int|
            0 <= i < cells.len() && 0 < x < cells[i].len() ==> req >= #[trigger] cells[i][x].len(),
    ensures
        row_line(cells[y], front, req, cols_elided).len() == border_width(
            cells,
            front,
            req,
            cols_elided,
        ) + 3,
{
    let last = cells.len() - 1;
    assert(cells[y].len() == cells[0].len());
    assert(cells[last].len() == cells[0].len());
    lemma_row_cells_len(cells[y], cells[y].len() as int, front, req, cols_elided);
    lemma_row_cells_len(cells[last], cells[last].len() as int, front, req, cols_elided);
}

/// The first `k` cells of a row, the first of them right-aligned in
/// `front` characters and the others in `req`; the ellipsis marker comes
/// before the cell at index 3 when `cols_elided`.
pub open spec fn row_cells(
    row: Seq<Seq<char>>,
    k: int,
    front: int,
    req: int,
    cols_elided: bool,
) -> Seq<char>
    decreases k,
{
    if k <= 0 {
        Seq::<char>::empty()
    } else {
        row_cells(row, k - 1, front, req, cols_elided) + cell_text(
            row[k - 1],
            if k - 1 == 0 {
                front
            } else {
                req
            },
            k - 1 == 3 && cols_elided,
        )
    }
}

/// One printed row: a bar and a space, the cells, a bar and a newline.
pub open spec fn row_line(row: Seq<Seq<char>>, front: int, req: int, cols_elided: bool) -> Seq<
    char,
> {
    seq![bar(), ' '] + row_cells(row, row.len() as int, front, req, cols_elided) + seq![
        bar(),
        '\n',
    ]
}

/// The line of vertical ellipses that stands for the elided rows.
pub open spec fn dots_line(front: int, req: int) -> Seq<char> {
    seq![bar()] + spaces(front) + seq!['\u{22ee}'] + spaces(req) + seq!['\u{22ee}'] + spaces(req)
        + seq!['\u{22ee}', ' ', ' ', ' ', ' '] + spaces(req) + seq!['\u{22ee}'] + spaces(req)
        + seq!['\u{22ee}'] + spaces(req) + seq!['\u{22ee}', ' ', bar(), '\n']
}

/// The first `k` printed rows, the ellipsis line after the row at index 2
/// when `rows_elided`.
pub open spec fn body(
    cells: Seq<Seq<Seq<char>>>,
    k: int,
    front: int,
    req: int,
    rows_elided: bool,
    cols_elided: bool,
) -> Seq<char>
    decreases k,
{
    if k <= 0 {
        Seq::<char>::empty()
    } else {
        body(cells, k - 1, front, req, rows_elided, cols_elided) + row_line(
            cells[k - 1],
            front,
            req,
            cols_elided,
        ) + if k - 1 == 2 && rows_elided {
            dots_line(front, req)
        } else {
            Seq::<char>::empty()
        }
    }
}

/// The width of the top and bottom borders: one more than the length of
/// the last row's cells (zero without rows).
pub open spec fn border_width(
    cells: Seq<Seq<Seq<char>>>,
    front: int,
    req: int,
    cols_elided: bool,
) -> int {
    if cells.len() == 0 {
        0
    } else {
        let last = cells[cells.len() - 1];
        row_cells(last, last.len() as int, front, req, cols_elided).len() as int + 1
    }
}

/// The lengths of the cells.
pub open spec fn cell_lengths(cells: Seq<Seq<Seq<char>>>) -> Seq<Seq<usize>> {
    Seq::new(
        cells.len(),
        |i: int| Seq::new(cells[i].len(), |j: int| cells[i][j].len() as usize),
    )
}

/// The whole printout: a top border, the rows, a bottom border.
pub open spec fn printout(
    cells: Seq<Seq<Seq<char>>>,
    rows_elided: bool,
    cols_elided: bool,
) -> Seq<char> {
    let lengths = cell_lengths(cells);
    let front = widest_first(lengths, cells.len() as int);
    let req = widest_cell(lengths, cells.len() as int);
    let pad = border_width(cells, front, req, cols_elided);
    seq!['\u{250c}'] + spaces(pad) + seq!['\u{2510}', '\n'] + body(
        cells,
        cells.len() as int,
        front,
        req,
        rows_elided,
        cols_elided,
    ) + seq!['\u{2514}'] + spaces(pad) + seq!['\u{2518}']
}

/// The text of every cell.
pub open spec fn cells_text(cells: Seq<Vec<String>>) -> Seq<Seq<Seq<char>>> {
    Seq::new(cells.len(), |i: int| cells[i]@.map_values(|s: String| s@))
}

/// Appends `n` spaces.
fn push_spaces(out: &mut String, n: usize)
    ensures
        final(out)@ == old(out)@ + spaces(n as int),
{
    let ghost start = out@;
    let mut i: usize = 0;
    while i < n
        invariant
            i <= n,
            out@ == start + spaces(i as int),
        decreases n - i,
    {
        proof {
            reveal_strlit(" ");
        }
        out.append(" ");
        i = i + 1;
        assert(out@ =~= start + spaces(i as int));
    }
}

/// The printout of a matrix whose cells read `cells`: each row boxed
/// between bars, the first cell of a row right-aligned to the widest first
/// cell and the others to the widest cell of all; an ellipsis column before
/// the cell at index 3 when `cols_elided`, an ellipsis line after the row at
/// index 2 when `rows_elided`; top and bottom borders one character wider
/// than the last row's cells. Every row must have a cell.
#[verifier::rlimit(60)]
pub fn print_layout(cells: &Vec<Vec<String>>, rows_elided: bool, cols_elided: bool) -> (out:
    String)
    requires
        forall|i: int| 0 <= i < cells@.len() ==> #[trigger] cells@[i]@.len() > 0,
    ensures
        out@ == printout(cells_text(cells@), rows_elided, cols_elided),
{
    let ghost ct = cells_text(cells@);
    let n = cells.len();
    let mut lengths: Vec<Vec<usize>> = Vec::new();
    let mut i: usize = 0;
    while i < n
        invariant
            n == cells@.len(),
            ct == cells_text(cells@),
            i <= n,
            lengths.len() == i,
            forall|k: int| 0 <= k < i ==> #[trigger] lengths@[k]@ == cell_lengths(ct)[k],
        decreases n - i,
    {
        let row = &cells[i];
        let m = row.len();
        let mut lrow: Vec<usize> = Vec::new();
        let mut j: usize = 0;
        while j < m
            invariant
                m == row@.len(),
                row == &cells@[i as int],
                ct == cells_text(cells@),
                i < n,
                n == cells@.len(),
                j <= m,
                lrow.len() == j,
                forall|t: int| 0 <= t < j ==> #[trigger] lrow@[t] == ct[i as int][t].len() as usize,
            decreases m - j,
        {
            let len = row[j].as_str().unicode_len();
            assert(ct[i as int][j as int] == row@[j as int]@);
            lrow.push(len);
            j = j + 1;
        }
        assert(lrow@ =~= cell_lengths(ct)[i as int]);
        lengths.push(lrow);
        i = i + 1;
    }
    assert(rows_of(lengths@) =~= cell_lengths(ct));
    let (front_req_len, req_len) = print_widths(&lengths);
    let ghost ls = cell_lengths(ct);
    let ghost front = front_req_len as int;
    let ghost req = req_len as int;
    let mut output = String::new();
    let mut pad_len: usize = 0;
    let mut y: usize = 0;
    while y < n
        invariant
            n == cells@.len(),
            ct == cells_text(cells@),
            ls == cell_lengths(ct),
            forall|k: int| 0 <= k < n ==> #[trigger] cells@[k]@.len() > 0,
            front == front_req_len,
            req == req_len,
            front == widest_first(ls, n as int),
            req == widest_cell(ls, n as int),
            y <= n,
            output@ == body(ct, y as int, front, req, rows_elided, cols_elided),
            y == 0 ==> pad_len == 0,
            y > 0 ==> pad_len == row_cells(
                ct[y - 1],
                ct[y - 1].len() as int,
                front,
                req,
                cols_elided,
            ).len() + 1,
        decreases n - y,
    {
        let row = &cells[y];
        let m = row.len();
        let mut output_row = String::from_str("\u{2502} ");
        proof {
            reveal_strlit("\u{2502} ");
            assert(output_row@ =~= seq![bar(), ' '] + row_cells(ct[y as int], 0, front, req, cols_elided));
        }
        let mut x: usize = 0;
        while x < m
            invariant
                m == row@.len(),
                row == &cells@[y as int],
                ct == cells_text(cells@),
                ls == cell_lengths(ct),
                y < n,
                n == cells@.len(),
                front == front_req_len,
                req == req_len,
                front == widest_first(ls, n as int),
                req == widest_cell(ls, n as int),
                x <= m,
                output_row@ == seq![bar(), ' '] + row_cells(
                    ct[y as int],
                    x as int,
                    front,
                    req,
                    cols_elided,
                ),
            decreases m - x,
        {
            let ghost before = output_row@;
            let cell = row[x].as_str();
            assert(cell@ == ct[y as int][x as int]);
            if x == 3 && cols_elided {
                proof {
                    reveal_strlit(" \u{22ef}  ");
                }
                output_row.append(" \u{22ef}  ");
            }
            let ghost after_marker = output_row@;
            let len = cell.unicode_len();
            let width = if x == 0 {
                front_req_len
            } else {
                req_len
            };
            proof {
                assert(ls[y as int][x as int] == len);
                if x == 0 {
                    lemma_widest_first_bound(ls, n as int, y as int);
                } else {
                    lemma_widest_cell_bound(ls, n as int, y as int, x as int);
                }
            }
            push_spaces(&mut output_row, width - len);
            output_row.append(cell);
            proof {
                reveal_strlit(" ");
            }
            output_row.append(" ");
            proof {
                let ct_cell = cell_text(ct[y as int][x as int], width as int, x == 3 && cols_elided);
                assert(after_marker =~= before + (if x == 3 && cols_elided {
                    seq![' ', '\u{22ef}', ' ', ' ']
                } else {
                    Seq::<char>::empty()
                }));
                assert(output_row@ =~= before + ct_cell);
                assert(row_cells(ct[y as int], x + 1, front, req, cols_elided) == row_cells(
                    ct[y as int],
                    x as int,
                    front,
                    req,
                    cols_elided,
                ) + ct_cell);
                assert(output_row@ =~= seq![bar(), ' '] + row_cells(
                    ct[y as int],
                    x + 1,
                    front,
                    req,
                    cols_elided,
                ));
            }
            x = x + 1;
        }
        let row_chars = output_row.as_str().unicode_len();
        pad_len = row_chars - 1;
        let ghost row_part = output_row@;
        proof {
            reveal_strlit("\u{2502}\n");
        }
        output_row.append("\u{2502}\n");
        assert(output_row@ =~= row_line(ct[y as int], front, req, cols_elided));
        let ghost before_rows = output@;
        output.append(output_row.as_str());
        if y == 2 && rows_elided {
            proof {
                reveal_strlit("\u{2502}");
                reveal_strlit("\u{22ee}");
                reveal_strlit("\u{22ee}    ");
                reveal_strlit("\u{22ee} \u{2502}\n");
            }
            let ghost before_dots = output@;
            output.append("\u{2502}");
            push_spaces(&mut output, front_req_len);
            output.append("\u{22ee}");
            push_spaces(&mut output, req_len);
            output.append("\u{22ee}");
            push_spaces(&mut output, req_len);
            output.append("\u{22ee}    ");
            push_spaces(&mut output, req_len);
            output.append("\u{22ee}");
            push_spaces(&mut output, req_len);
            output.append("\u{22ee}");
            push_spaces(&mut output, req_len);
            output.append("\u{22ee} \u{2502}\n");
            assert(output@ =~= before_dots + dots_line(front, req));
        }
        proof {
            assert(body(ct, y + 1, front, req, rows_elided, cols_elided) == body(
                ct,
                y as int,
                front,
                req,
                rows_elided,
                cols_elided,
            ) + row_line(ct[y as int], front, req, cols_elided) + if y == 2 && rows_elided {
                dots_line(front, req)
            } else {
                Seq::<char>::empty()
            });
            assert(output@ =~= body(ct, y + 1, front, req, rows_elided, cols_elided));
        }
        y = y + 1;
    }
    proof {
        reveal_strlit("\u{250c}");
        reveal_strlit("\u{2510}\n");
        reveal_strlit("\u{2514}");
        reveal_strlit("\u{2518}");
    }
    let mut result = String::from_str("\u{250c}");
    push_spaces(&mut result, pad_len);
    result.append("\u{2510}\n");
    result.append(output.as_str());
    result.append("\u{2514}");
    push_spaces(&mut result, pad_len);
    result.append("\u{2518}");
    assert(pad_len == border_width(ct, front, req, cols_elided));
    assert(result@ =~= printout(ct, rows_elided, cols_elided));
    result
}

/// The index in a line of `n` items of the `k`-th item that a printout
/// keeps.
pub open spec fn kept_index(n: int, k: int) -> int {
    if n > 6 && k >= 3 {
        n - 6 + k
    } else {
        k
    }
}

proof fn lemma_kept_index<A>(s: Seq<A>, k: int)
    requires
        0 <= k < kept(s).len(),
    ensures
        kept(s).len() == if s.len() > 6 {
            6
        } else {
            s.len()
        },
        0 <= kept_index(s.len() as int, k) < s.len(),
        kept(s)[k] == s[kept_index(s.len() as int, k)],
{
}

/// How many items of a line of `n` a printout keeps.
fn kept_count(n: usize) -> (c: usize)
    ensures
        c == if n > 6 {
            6
        } else {
            n
        },
{
    if n > 6 {
        6
    } else {
        n
    }
}

/// The printout of a whole matrix from the text of all of its cells: the
/// first three and last three rows are shown when there are more than six,
/// likewise for columns, with the ellipsis line and column exactly then.
/// The cells must form a rectangular, non-empty matrix.
pub fn print_text(cells: &Vec<Vec<String>>) -> (out: String)
    requires
        is_rect(cells_text(cells@)),
    ensures
        out@ == printout(
            kept(cells_text(cells@)).map_values(|r: Seq<Seq<char>>| kept(r)),
            cells@.len() > 6,
            ncols(cells_text(cells@)) > 6,
        ),
{
    let ghost ct = cells_text(cells@);
    let ghost target = kept(ct).map_values(|r: Seq<Seq<char>>| kept(r));
    let nrows = cells.len();
    let ncols = cells[0].len();
    assert(ct[0].len() == ncols);
    let krows = kept_count(nrows);
    let kcols = kept_count(ncols);
    let mut shown: Vec<Vec<String>> = Vec::new();
    let mut r: usize = 0;
    while r < krows
        invariant
            ct == cells_text(cells@),
            target == kept(ct).map_values(|r: Seq<Seq<char>>| kept(r)),
            is_rect(ct),
            nrows == cells@.len(),
            ncols == ct[0].len(),
            krows == kept(ct).len(),
            kcols == if ncols > 6 {
                6
            } else {
                ncols
            },
            r <= krows,
            shown.len() == r,
            forall|k: int| 0 <= k < r ==> #[trigger] cells_text(shown@)[k] == target[k],
        decreases krows - r,
    {
        let src_index = if nrows > 6 && r >= 3 {
            nrows - 6 + r
        } else {
            r
        };
        proof {
            lemma_kept_index(ct, r as int);
        }
        let src = &cells[src_index];
        assert(ct[src_index as int] == src@.map_values(|s: String| s@));
        assert(ct[src_index as int].len() == ncols);
        let mut row: Vec<String> = Vec::new();
        let mut c: usize = 0;
        while c < kcols
            invariant
                src@.len() == ncols,
                kcols == if ncols > 6 {
                    6
                } else {
                    ncols
                },
                c <= kcols,
                row.len() == c,
                forall|k: int|
                    0 <= k < c ==> #[trigger] row@[k]@ == src@[kept_index(ncols as int, k)]@,
            decreases kcols - c,
        {
            let col_index = if ncols > 6 && c >= 3 {
                ncols - 6 + c
            } else {
                c
            };
            let cell = src[col_index].clone();
            row.push(cell);
            c = c + 1;
        }
        proof {
            let srow = src@.map_values(|s: String| s@);
            assert forall|k: int| 0 <= k < kcols implies #[trigger] kept(srow)[k] == row@[k]@ by {
                lemma_kept_index(srow, k);
            }
            assert(row@.map_values(|s: String| s@) =~= kept(srow));
        }
        let ghost row_text = row@.map_values(|s: String| s@);
        let ghost old_shown = shown@;
        assert(row_text == target[r as int]) by {
            assert(kept(ct)[r as int] == ct[src_index as int]);
        }
        shown.push(row);
        proof {
            assert forall|k: int| 0 <= k < r + 1 implies #[trigger] cells_text(shown@)[k]
                == target[k] by {
                if k == r {
                    assert(cells_text(shown@)[k] == shown@[k]@.map_values(|s: String| s@));
                } else {
                    assert(shown@[k] == old_shown[k]);
                    assert(cells_text(old_shown)[k] == target[k]);
                }
            }
        }
        r = r + 1;
    }
    assert(cells_text(shown@) =~= target);
    assert forall|i: int| 0 <= i < shown@.len() implies #[trigger] shown@[i]@.len() > 0 by {
        assert(cells_text(shown@)[i].len() == shown@[i]@.len());
    }
    print_layout(&shown, nrows > 6, ncols > 6)
}

} // verus!
