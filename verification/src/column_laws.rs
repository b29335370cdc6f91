//! What holds of lists in columns and of the commands of pagers.
use crate::colours::ColourPalette;
use crate::decoded_laws::stands_in;
use crate::display::{at_least_one, row_cells, row_count, value_cell, value_rows, EnumLayout};
use crate::listing::{cell_row, cell_rows, cells_in_columns, padded_cell, widest_cell};
use crate::pager_command::{
    is_compact, is_sideways, pager_for, stripped, stripped_from, takes_value, PagingMode,
};
use crate::schema::ValueView;
use crate::text::trimmed;
use vstd::arithmetic::div_mod::lemma_fundamental_div_mod;
use vstd::prelude::*;

verus! {

proof fn lemma_in_itself(part: Seq<char>)
    ensures
        stands_in(part, part),
{
    let n = part.len() as int;
    assert(part.subrange(0, 0 + n) =~= part);
}

proof fn lemma_in_first(part: Seq<char>, a: Seq<char>, b: Seq<char>)
    requires
        stands_in(part, a),
    ensures
        stands_in(part, a + b),
{
    let i = choose|i: int|
        0 <= i <= a.len() - part.len() && #[trigger] a.subrange(i, i + part.len()) == part;
    assert((a + b).subrange(i, i + part.len()) =~= a.subrange(i, i + part.len()));
}

proof fn lemma_in_second(part: Seq<char>, a: Seq<char>, b: Seq<char>)
    requires
        stands_in(part, b),
    ensures
        stands_in(part, a + b),
{
    let i = choose|i: int|
        0 <= i <= b.len() - part.len() && #[trigger] b.subrange(i, i + part.len()) == part;
    assert((a + b).subrange(a.len() + i, a.len() + i + part.len()) =~= b.subrange(
        i,
        i + part.len(),
    ));
}

proof fn lemma_in_row(
    cells: Seq<Seq<char>>,
    from: int,
    col: int,
    rows: int,
    cols: int,
    width: int,
    idx: int,
    steps: nat,
)
    requires
        0 <= from <= idx < cells.len(),
        idx == from + steps * rows,
        rows >= 1,
        0 <= col,
        col + steps < cols,
    ensures
        stands_in(padded_cell(cells[idx], width), cell_row(cells, from, col, rows, cols, width)),
    decreases steps,
{
    let here = padded_cell(cells[from], width);
    let wanted = padded_cell(cells[idx], width);
    let rest = if from + rows >= cells.len() {
        seq![]
    } else {
        cell_row(cells, from + rows, col + 1, rows, cols, width)
    };
    assert(cell_row(cells, from, col, rows, cols, width) == here + rest);
    if steps == 0 {
        assert(steps * rows == 0) by (nonlinear_arith)
            requires
                steps == 0,
        ;
        lemma_in_itself(wanted);
        lemma_in_first(wanted, wanted, rest);
    } else {
        assert(steps * rows == (steps - 1) * rows + rows && (steps - 1) * rows >= 0)
            by (nonlinear_arith)
            requires
                steps >= 1,
                rows >= 1,
        ;
        lemma_in_row(cells, from + rows, col + 1, rows, cols, width, idx, (steps - 1) as nat);
        lemma_in_second(wanted, here, rest);
    }
}

proof fn lemma_in_rows(
    cells: Seq<Seq<char>>,
    n: int,
    rows: int,
    cols: int,
    width: int,
    row: int,
    part: Seq<char>,
)
    requires
        0 <= row < n,
        stands_in(part, cell_row(cells, row, 0, rows, cols, width)),
    ensures
        stands_in(part, cell_rows(cells, n, rows, cols, width)),
    decreases n,
{
    let before = cell_rows(cells, n - 1, rows, cols, width);
    let last = cell_row(cells, n - 1, 0, rows, cols, width);
    if row < n - 1 {
        lemma_in_rows(cells, n - 1, rows, cols, width, row, part);
        lemma_in_first(part, before, last);
    } else {
        lemma_in_second(part, before, last);
    }
    lemma_in_first(part, before + last, "\n"@);
}

proof fn lemma_enough_rows(n: int, cols: int)
    requires
        n > 0,
        cols > 0,
    ensures
        row_count(n, cols) >= 1,
        row_count(n, cols) * cols >= n,
{
    lemma_fundamental_div_mod(n, cols);
    let rows = row_count(n, cols);
    let q = n / cols;
    assert(q * cols == cols * q) by (nonlinear_arith);
    assert((q + 1) * cols == cols * q + cols) by (nonlinear_arith);
    assert(0 <= n % cols < cols) by (nonlinear_arith)
        requires
            cols > 0,
    ;
    if n % cols == 0 {
        assert(q >= 1) by (nonlinear_arith)
            requires
                cols * q == n,
                n > 0,
                cols > 0,
        ;
    } else {
        assert(q >= 0) by (nonlinear_arith)
            requires
                cols * q + n % cols == n,
                0 <= n % cols < cols,
                n > 0,
                cols > 0,
        ;
    }
}

proof fn lemma_place(idx: int, rows: int, cols: int, n: int) -> (place: (int, nat))
    requires
        0 <= idx < n,
        rows >= 1,
        cols >= 1,
        rows * cols >= n,
    ensures
        0 <= place.0 < rows,
        idx == place.0 + place.1 * rows,
        place.1 < cols,
{
    lemma_fundamental_div_mod(idx, rows);
    let row = idx % rows;
    let k = idx / rows;
    assert(0 <= row < rows && k >= 0) by (nonlinear_arith)
        requires
            rows >= 1,
            idx >= 0,
            row == idx % rows,
            k == idx / rows,
    ;
    assert(rows * k == k * rows) by (nonlinear_arith);
    assert(k < cols) by (nonlinear_arith)
        requires
            rows * k + row == idx,
            row >= 0,
            idx < n,
            rows * cols >= n,
            rows >= 1,
    ;
    (row, k as nat)
}

/// Texts in columns are all there, each with its padding.
pub proof fn law_columns_hold_all_texts(cells: Seq<Seq<char>>, terminal_width: usize, idx: int)
    requires
        0 <= idx < cells.len(),
        widest_cell(cells) + 2 <= usize::MAX,
    ensures
        stands_in(
            padded_cell(cells[idx], widest_cell(cells) + 2),
            cells_in_columns(cells, terminal_width),
        ),
        stands_in(cells[idx], cells_in_columns(cells, terminal_width)),
{
    let width = widest_cell(cells) + 2;
    let cols = at_least_one(terminal_width as int / width);
    let n = cells.len() as int;
    let rows = row_count(n, cols);
    lemma_enough_rows(n, cols);
    let (row, steps) = lemma_place(idx, rows, cols, n);
    assert(steps * rows >= 0) by (nonlinear_arith)
        requires
            rows >= 1,
    ;
    let cell = padded_cell(cells[idx], width);
    lemma_in_row(cells, row, 0, rows, cols, width, idx, steps);
    lemma_in_rows(cells, rows, rows, cols, width, row, cell);
    let text = cells[idx];
    let blanks = cell.skip(text.len() as int);
    assert(cell =~= text + blanks);
    lemma_in_itself(text);
    lemma_in_first(text, text, blanks);
    lemma_in_row_text(cells, row, 0, rows, cols, width, idx, steps, text);
    lemma_in_rows(cells, rows, rows, cols, width, row, text);
}

proof fn lemma_in_row_text(
    cells: Seq<Seq<char>>,
    from: int,
    col: int,
    rows: int,
    cols: int,
    width: int,
    idx: int,
    steps: nat,
    text: Seq<char>,
)
    requires
        0 <= from <= idx < cells.len(),
        idx == from + steps * rows,
        rows >= 1,
        0 <= col,
        col + steps < cols,
        stands_in(text, padded_cell(cells[idx], width)),
    ensures
        stands_in(text, cell_row(cells, from, col, rows, cols, width)),
{
    lemma_in_row(cells, from, col, rows, cols, width, idx, steps);
    let cell = padded_cell(cells[idx], width);
    let whole = cell_row(cells, from, col, rows, cols, width);
    let i = choose|i: int|
        0 <= i <= whole.len() - cell.len() && #[trigger] whole.subrange(i, i + cell.len()) == cell;
    let j = choose|j: int|
        0 <= j <= cell.len() - text.len() && #[trigger] cell.subrange(j, j + text.len()) == text;
    let at = i + j;
    assert(whole.subrange(at, at + text.len()) =~= whole.subrange(i, i + cell.len()).subrange(
        j,
        j + text.len(),
    ));
}

proof fn lemma_value_in_row(
    values: Seq<ValueView>,
    from: int,
    col: int,
    rows: int,
    level: usize,
    params: EnumLayout,
    c: ColourPalette,
    idx: int,
    steps: nat,
)
    requires
        0 <= from <= idx < values.len(),
        idx == from + steps * rows,
        rows >= 1,
        0 <= col,
        col + steps < params.cols,
    ensures
        stands_in(
            value_cell(values[idx], level, col + steps, params, c),
            row_cells(values, from, col, rows, level, params, c),
        ),
    decreases steps,
{
    let here = value_cell(values[from], level, col, params, c);
    let wanted = value_cell(values[idx], level, col + steps, params, c);
    let rest = if from + rows >= values.len() {
        seq![]
    } else {
        row_cells(values, from + rows, col + 1, rows, level, params, c)
    };
    assert(row_cells(values, from, col, rows, level, params, c) == here + rest);
    if steps == 0 {
        assert(steps * rows == 0) by (nonlinear_arith)
            requires
                steps == 0,
        ;
        lemma_in_itself(wanted);
        lemma_in_first(wanted, wanted, rest);
    } else {
        assert(steps * rows == (steps - 1) * rows + rows && (steps - 1) * rows >= 0)
            by (nonlinear_arith)
            requires
                steps >= 1,
                rows >= 1,
        ;
        lemma_value_in_row(
            values,
            from + rows,
            col + 1,
            rows,
            level,
            params,
            c,
            idx,
            (steps - 1) as nat,
        );
        lemma_in_second(wanted, here, rest);
    }
}

proof fn lemma_value_in_rows(
    values: Seq<ValueView>,
    n: int,
    rows: int,
    level: usize,
    params: EnumLayout,
    c: ColourPalette,
    row: int,
    part: Seq<char>,
)
    requires
        0 <= row < n,
        stands_in(part, row_cells(values, row, 0, rows, level, params, c)),
    ensures
        stands_in(part, value_rows(values, n, rows, level, params, c)),
    decreases n,
{
    let before = value_rows(values, n - 1, rows, level, params, c);
    let last = row_cells(values, n - 1, 0, rows, level, params, c);
    if row < n - 1 {
        lemma_value_in_rows(values, n - 1, rows, level, params, c, row, part);
        lemma_in_first(part, before, last);
    } else {
        lemma_in_second(part, before, last);
    }
    lemma_in_first(part, before + last, "\n"@);
}

/// Values in columns are all there: with as many rows as they need, each has its cell.
pub proof fn law_columns_hold_all_values(
    values: Seq<ValueView>,
    level: usize,
    params: EnumLayout,
    c: ColourPalette,
    idx: int,
)
    requires
        0 <= idx < values.len(),
        params.cols > 0,
    ensures
        ({
            let rows = row_count(values.len() as int, params.cols as int);
            exists|col: int|
                0 <= col < params.cols && stands_in(
                    #[trigger] value_cell(values[idx], level, col, params, c),
                    value_rows(values, rows, rows, level, params, c),
                )
        }),
{
    let n = values.len() as int;
    let cols = params.cols as int;
    let rows = row_count(n, cols);
    lemma_enough_rows(n, cols);
    let (row, steps) = lemma_place(idx, rows, cols, n);
    assert(steps * rows >= 0) by (nonlinear_arith)
        requires
            rows >= 1,
    ;
    lemma_value_in_row(values, row, 0, rows, level, params, c, idx, steps);
    let cell = value_cell(values[idx], level, steps as int, params, c);
    lemma_value_in_rows(values, rows, rows, level, params, c, row, cell);
}

/// The pager is the one that is asked for, else the one that the environment names, else
/// `less` in its usual form; blank ones do not count.
pub proof fn law_pager_asked_for_goes_first(
    asked: Seq<char>,
    named: Seq<char>,
    mode: PagingMode,
    nowrap: bool,
)
    ensures
        trimmed(asked).len() > 0 ==> pager_for(Some(asked), Some(named), mode, nowrap) == asked,
        trimmed(named).len() > 0 ==> pager_for(None, Some(named), mode, nowrap) == named,
        trimmed(asked).len() == 0 && trimmed(named).len() > 0 ==> pager_for(
            Some(asked),
            Some(named),
            mode,
            nowrap,
        ) == named,
        pager_for(None, None, PagingMode::Never, nowrap) == "cat"@,
        pager_for(None, None, PagingMode::Auto, false) == "less -FRX"@,
        pager_for(None, None, PagingMode::Always, false) == "less -RX"@,
        pager_for(None, None, PagingMode::Auto, true) == "less -FRX"@ + " -S --shift=10"@,
        pager_for(None, None, PagingMode::Always, true) == "less -RX"@ + " -S --shift=10"@,
{
    assert("less -FRX"@ + seq![] =~= "less -FRX"@);
    assert("less -RX"@ + seq![] =~= "less -RX"@);
}

proof fn lemma_stripped_shift(tokens: Seq<Seq<char>>, k: int, at: int)
    requires
        0 <= k,
        0 <= at,
        k + at <= tokens.len(),
    ensures
        stripped_from(tokens, k + at) == stripped_from(tokens.skip(k), at),
    decreases tokens.len() - k - at,
{
    let rest = tokens.skip(k);
    if k + at < tokens.len() {
        assert(rest[at] == tokens[k + at]);
        if takes_value(tokens[k + at]) {
            if k + at + 2 < tokens.len() {
                lemma_stripped_shift(tokens, k, at + 2);
            }
        } else {
            lemma_stripped_shift(tokens, k, at + 1);
        }
    }
}

/// Options for scrolling sideways are taken out, with their values, and all others stay in
/// their order.
pub proof fn law_sideways_options_are_taken_out(
    token: Seq<char>,
    value: Seq<char>,
    rest: Seq<Seq<char>>,
)
    ensures
        token == "-S"@ || token == "--chop-long-lines"@ ==> stripped(seq![token] + rest)
            == stripped(rest),
        token == "-#"@ || token == "--shift"@ ==> stripped(seq![token, value] + rest) == stripped(
            rest,
        ),
        !takes_value(token) && !is_sideways(token) && !is_compact(token) ==> stripped(
            seq![token] + rest,
        ) == seq![token] + stripped(rest),
        stripped(seq![]).len() == 0,
{
    let one = seq![token] + rest;
    let two = seq![token, value] + rest;
    assert(one[0] == token && two[0] == token);
    assert(one.skip(1) =~= rest);
    assert(two.skip(2) =~= rest);
    lemma_stripped_shift(one, 1, 0);
    lemma_stripped_shift(two, 2, 0);
    reveal_strlit("-S");
    reveal_strlit("--chop-long-lines");
    reveal_strlit("-#");
    reveal_strlit("--shift");
    assert("-S"@[1] == 'S' && "-#"@[1] == '#' && "-S"@.len() == 2);
    assert("--chop-long-lines"@[2] == 'c' && "--shift"@[2] == 's');
    if rest.len() == 0 {
        assert(stripped(rest) =~= seq![]);
        if takes_value(token) {
            assert(stripped_from(two, 0) =~= seq![]);
        }
    }
}

} // verus!
