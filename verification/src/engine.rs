//! The expression engine: the meaning of every evaluation step is given by
//! spec functions over the mathematical shadows of the stack, the literals
//! and the table, and each executable step is proved to compute exactly
//! that meaning.
//!
//! A formula body is scanned left to right onto a stack; a closing delimiter
//! or the end of the input collapses the top of the stack back to a single
//! literal; references are resolved against the table as they are met.

use crate::literal::{EvalError, Item, ItemV, LitV, LiteralValue};
use crate::strutil::{
    dec_str, digit_run, digit_val, digits_parse, prefix_len, spec_is_alpha,
    spec_is_digit, spec_is_operator, spec_is_separator, spec_is_upper, split_text, word_run,
    alpha_run,
};
use crate::table::{CellV, ColV, TableData, col_at, table_cell, table_last};
use vstd::prelude::*;
use vstd::string::StrSliceExecFns;
use vstd::string::StringExecFns;

verus! {

// ---------------------------------------------------------------------------
// Numbers and arithmetic
// ---------------------------------------------------------------------------

/// The numeric reading of a literal, as arithmetic sees it: a `Num` is
/// itself, an `Int` is promoted when it fits, anything else is a type error.
pub open spec fn lit_as_num(v: LitV) -> Result<int, EvalError> {
    match v {
        LitV::Num(n) => Ok(n),
        LitV::Int(n) => if n <= i64::MAX {
            Ok(n as int)
        } else {
            Err(EvalError::NumberOverflow)
        },
        _ => Err(EvalError::TypeMismatch),
    }
}

/// An integer result, when it fits the engine's numeric range.
pub open spec fn num_in_range(x: int) -> Result<int, EvalError> {
    if x < i64::MIN || x > i64::MAX {
        Err(EvalError::NumberOverflow)
    } else {
        Ok(x)
    }
}

/// Division truncated toward zero, as the machine computes it.
pub open spec fn trunc_div(x: int, d: int) -> int {
    if x == 0 {
        0
    } else if x > 0 && d > 0 {
        x / d
    } else if x < 0 && d < 0 {
        (x * -1) / (d * -1)
    } else if x < 0 {
        ((x * -1) / d) * -1
    } else {
        (x / (d * -1)) * -1
    }
}

/// Remainder of division truncated toward zero.
pub open spec fn trunc_rem(x: int, d: int) -> int {
    if x == 0 {
        0
    } else if x > 0 && d > 0 {
        x % d
    } else if x < 0 && d < 0 {
        ((x * -1) % (d * -1)) * -1
    } else if x < 0 {
        ((x * -1) % d) * -1
    } else {
        x % (d * -1)
    }
}

/// What one operator yields on two numbers.  Division is exact or fails:
/// a zero divisor and a non-whole quotient are errors, as is any result
/// outside the numeric range.
pub open spec fn spec_apply_op(op: char, a: int, b: int) -> Result<int, EvalError> {
    if op == '+' {
        num_in_range(a + b)
    } else if op == '-' {
        num_in_range(a - b)
    } else if op == '*' {
        num_in_range(a * b)
    } else if op == '/' {
        if b == 0 {
            Err(EvalError::DivisionByZero)
        } else if trunc_rem(a, b) != 0 {
            Err(EvalError::InexactDivision)
        } else {
            num_in_range(trunc_div(a, b))
        }
    } else {
        Err(EvalError::MalformedExpression)
    }
}

/// Arithmetic over an operand list: exactly two numeric operands, the left
/// one first, folded by `spec_apply_op`.
pub open spec fn spec_arith(op: char, args: Seq<LitV>) -> Result<LitV, EvalError> {
    if args.len() != 2 {
        Err(EvalError::MalformedExpression)
    } else {
        match lit_as_num(args[0]) {
            Err(e) => Err(e),
            Ok(a) => match lit_as_num(args[1]) {
                Err(e) => Err(e),
                Ok(b) => match spec_apply_op(op, a, b) {
                    Err(e) => Err(e),
                    Ok(c) => Ok(LitV::Num(c)),
                },
            },
        }
    }
}

// ---------------------------------------------------------------------------
// Built-in functions
// ---------------------------------------------------------------------------

/// `incFrom(i)`: adds the `Int` operand to the running counter and yields
/// the new counter value.  The counter belongs to one cell's evaluation.
pub open spec fn spec_inc_from(args: Seq<LitV>, inc: nat) -> Result<(LitV, nat), EvalError> {
    if args.len() != 1 {
        Err(EvalError::MalformedExpression)
    } else {
        match args[0] {
            LitV::Int(i) => if inc + i > usize::MAX {
                Err(EvalError::NumberOverflow)
            } else {
                Ok((LitV::Int(inc + i), inc + i))
            },
            _ => Err(EvalError::TypeMismatch),
        }
    }
}

/// `split(text, sep)`: both operands text, the separator exactly one
/// character; yields the pieces of the first between occurrences of it.
pub open spec fn spec_split(args: Seq<LitV>) -> Result<LitV, EvalError> {
    if args.len() != 2 {
        Err(EvalError::MalformedExpression)
    } else {
        match (args[0], args[1]) {
            (LitV::Text(s), LitV::Text(sep)) => {
                if sep.len() != 1 {
                    Err(EvalError::SeparatorNotSingle)
                } else {
                    Ok(LitV::TextArray(split_text(s, sep[0])))
                }
            },
            _ => Err(EvalError::TypeMismatch),
        }
    }
}

/// The placeholder text an unknown function name yields.
pub open spec fn unknown_fn_text(name: Seq<char>) -> Seq<char> {
    "["@ + name + "(wtf)]"@
}

/// Function dispatch: the two built-ins by name; any other name yields its
/// placeholder text unchanged, with the counter untouched.
pub open spec fn spec_calc(name: Seq<char>, args: Seq<LitV>, inc: nat) -> Result<
    (LitV, nat),
    EvalError,
> {
    if name == "incFrom"@ {
        spec_inc_from(args, inc)
    } else if name == "split"@ {
        match spec_split(args) {
            Ok(v) => Ok((v, inc)),
            Err(e) => Err(e),
        }
    } else {
        Ok((LitV::Text(unknown_fn_text(name)), inc))
    }
}

// ---------------------------------------------------------------------------
// The stack reducer
// ---------------------------------------------------------------------------

/// Collapses the top of the stack down to the nearest `(`: literals are
/// collected as operands (in pop order, so reversed), an operator folds the
/// two most recent operands, and at the `(` either a function named just
/// below it is dispatched, or a single collected operand is the group's
/// value.  Anything else is malformed.
pub open spec fn spec_reduce(stack: Seq<ItemV>, operands: Seq<LitV>, inc: nat) -> Result<
    (Seq<ItemV>, nat),
    EvalError,
>
    decreases stack.len(),
{
    if stack.len() == 0 {
        Err(EvalError::UnmatchedZone)
    } else {
        match stack.last() {
            ItemV::Literal(v) => spec_reduce(stack.drop_last(), operands.push(v), inc),
            ItemV::ZoneStart(c) => {
                if c != '(' {
                    Err(EvalError::MalformedExpression)
                } else {
                    let rest = stack.drop_last();
                    if rest.len() > 0 && (rest.last() is Token) {
                        match rest.last() {
                            ItemV::Token(name) => match spec_calc(name, operands.reverse(), inc) {
                                Ok(p) => Ok(
                                    (rest.drop_last().push(ItemV::Literal(p.0)), p.1),
                                ),
                                Err(e) => Err(e),
                            },
                            _ => Err(EvalError::MalformedExpression),
                        }
                    } else if operands.len() == 1 {
                        Ok((rest.push(ItemV::Literal(operands[0])), inc))
                    } else {
                        Err(EvalError::MalformedExpression)
                    }
                }
            },
            ItemV::Operator(op) => {
                let rest = stack.drop_last();
                if rest.len() == 0 {
                    Err(EvalError::MalformedExpression)
                } else {
                    match rest.last() {
                        ItemV::Literal(left) => {
                            match spec_arith(op, operands.push(left).reverse()) {
                                Ok(v) => spec_reduce(
                                    rest.drop_last().push(ItemV::Literal(v)),
                                    Seq::empty(),
                                    inc,
                                ),
                                Err(e) => Err(e),
                            }
                        },
                        _ => Err(EvalError::TypeMismatch),
                    }
                }
            },
            _ => Err(EvalError::MalformedExpression),
        }
    }
}

/// Resolves a `@column<row>` reference zone: below the `>` sit, in order, an
/// `Int` row key, the `<` opener, and a token that must begin with `@` and
/// carries the column name after it; the named cell's text replaces them on
/// the stack.  Any other shape is fatal.
pub open spec fn spec_col_ref(t: Seq<ColV>, stack: Seq<ItemV>) -> Result<Seq<ItemV>, EvalError> {
    if stack.len() == 0 {
        Err(EvalError::MalformedExpression)
    } else {
        match stack.last() {
            ItemV::Literal(LitV::Int(key)) => {
                let s1 = stack.drop_last();
                if s1.len() == 0 {
                    Err(EvalError::MalformedExpression)
                } else {
                    match s1.last() {
                        ItemV::ZoneStart(c) => {
                            if c != '<' {
                                Err(EvalError::MalformedExpression)
                            } else {
                                let s2 = s1.drop_last();
                                if s2.len() == 0 {
                                    Err(EvalError::MalformedExpression)
                                } else {
                                    match s2.last() {
                                        ItemV::Token(tok) => {
                                            if tok.len() < 1 || tok[0] != '@' {
                                                Err(EvalError::MalformedExpression)
                                            } else {
                                                let nm = tok.skip(1);
                                                if col_at(t, nm) == -1 {
                                                    Err(EvalError::MissingColumn)
                                                } else if key > u32::MAX {
                                                    Err(EvalError::MissingRow)
                                                } else {
                                                    match crate::table::col_cell(
                                                        t[col_at(t, nm)],
                                                        key as u32,
                                                    ) {
                                                        Ok(txt) => Ok(
                                                            s2.drop_last().push(
                                                                ItemV::Literal(LitV::Text(txt)),
                                                            ),
                                                        ),
                                                        Err(e) => Err(e),
                                                    }
                                                }
                                            }
                                        },
                                        _ => Err(EvalError::TypeMismatch),
                                    }
                                }
                            }
                        },
                        _ => Err(EvalError::TypeMismatch),
                    }
                }
            },
            _ => Err(EvalError::TypeMismatch),
        }
    }
}

/// A zone end on top of the stack: `>` closes a column reference, anything
/// else closes a value zone reduced by `spec_reduce`.
pub open spec fn spec_end_zone(t: Seq<ColV>, stack: Seq<ItemV>, inc: nat) -> Result<
    (Seq<ItemV>, nat),
    EvalError,
> {
    if stack.len() == 0 {
        Err(EvalError::MalformedExpression)
    } else {
        match stack.last() {
            ItemV::ZoneEnd(c) => {
                if c == '>' {
                    match spec_col_ref(t, stack.drop_last()) {
                        Ok(s) => Ok((s, inc)),
                        Err(e) => Err(e),
                    }
                } else {
                    spec_reduce(stack.drop_last(), Seq::empty(), inc)
                }
            },
            _ => Err(EvalError::TypeMismatch),
        }
    }
}

// ---------------------------------------------------------------------------
// The tokenizer
// ---------------------------------------------------------------------------

/// Resolves a coordinate reference at position `i` (an uppercase column
/// letter): a digit names that row directly, `^v` the column's last value,
/// a single `^` the previous row.  Yields the cell text and the number of
/// characters the reference occupies.
pub open spec fn spec_resolve(t: Seq<ColV>, s: Seq<char>, i: int, row: u32) -> Result<
    (Seq<char>, int),
    EvalError,
> {
    if i + 1 >= s.len() {
        Err(EvalError::UnsupportedReference)
    } else if spec_is_digit(s[i + 1]) {
        match table_cell(t, seq![s[i]], digit_val(s[i + 1]) as u32) {
            Ok(txt) => Ok((txt, 2)),
            Err(e) => Err(e),
        }
    } else if i + 2 < s.len() && s[i + 1] == '^' && s[i + 2] == 'v' {
        match table_last(t, seq![s[i]]) {
            Ok(txt) => Ok((txt, 3)),
            Err(e) => Err(e),
        }
    } else if s[i + 1] == '^' {
        if row == 0 {
            Err(EvalError::RowZeroPrevious)
        } else {
            match table_cell(t, seq![s[i]], (row - 1) as u32) {
                Ok(txt) => Ok((txt, 2)),
                Err(e) => Err(e),
            }
        }
    } else {
        Err(EvalError::UnsupportedReference)
    }
}

/// One left-to-right pass of the tokenizer from position `i`: classifies
/// each position, pushes the item it denotes, and collapses zones as their
/// ends are met.  Yields the stack and counter at end of input.
pub open spec fn spec_scan(
    t: Seq<ColV>,
    s: Seq<char>,
    i: int,
    stack: Seq<ItemV>,
    inc: nat,
    row: u32,
) -> Result<(Seq<ItemV>, nat), EvalError>
    decreases s.len() - i,
    via spec_scan_decreases
{
    if i < 0 || i >= s.len() {
        Ok((stack, inc))
    } else {
        let c = s[i];
        if spec_is_upper(c) && (i + 1 >= s.len() || !spec_is_alpha(s[i + 1])) {
            match spec_resolve(t, s, i, row) {
                Ok(p) => spec_scan(
                    t,
                    s,
                    i + p.1,
                    stack.push(ItemV::Literal(LitV::Text(p.0))),
                    inc,
                    row,
                ),
                Err(e) => Err(e),
            }
        } else if spec_is_alpha(c) {
            let w = alpha_run(s.skip(i + 1));
            spec_scan(t, s, i + w + 1, stack.push(ItemV::Token(s.subrange(i, i + w + 1))), inc, row)
        } else if spec_is_digit(c) {
            let w = digit_run(s.skip(i + 1));
            match digits_parse(s.subrange(i, i + w + 1)) {
                Some(v) => spec_scan(
                    t,
                    s,
                    i + w + 1,
                    stack.push(ItemV::Literal(LitV::Int(v))),
                    inc,
                    row,
                ),
                None => Err(EvalError::NumberOverflow),
            }
        } else if c == '(' || c == '<' {
            spec_scan(t, s, i + 1, stack.push(ItemV::ZoneStart(c)), inc, row)
        } else if c == ')' || c == '>' {
            match spec_end_zone(t, stack.push(ItemV::ZoneEnd(c)), inc) {
                Ok(p) => spec_scan(t, s, i + 1, p.0, p.1, row),
                Err(e) => Err(e),
            }
        } else if c == '"' {
            let q = prefix_len(s.skip(i + 1), '"');
            if i + 1 + q >= s.len() {
                Err(EvalError::MalformedExpression)
            } else {
                spec_scan(
                    t,
                    s,
                    i + q + 2,
                    stack.push(ItemV::Literal(LitV::Text(s.subrange(i + 1, i + 1 + q)))),
                    inc,
                    row,
                )
            }
        } else if c == '@' {
            let w = word_run(s.skip(i + 1));
            spec_scan(t, s, i + w + 1, stack.push(ItemV::Token(s.subrange(i, i + w + 1))), inc, row)
        } else if spec_is_separator(c) {
            spec_scan(t, s, i + 1, stack, inc, row)
        } else if spec_is_operator(c) {
            spec_scan(t, s, i + 1, stack.push(ItemV::Operator(c)), inc, row)
        } else {
            Err(EvalError::UnknownSymbol { pos: i as usize })
        }
    }
}

#[via_fn]
proof fn spec_scan_decreases(
    t: Seq<ColV>,
    s: Seq<char>,
    i: int,
    stack: Seq<ItemV>,
    inc: nat,
    row: u32,
) {
    if 0 <= i && i < s.len() {
        crate::strutil::lemma_run_len_le(s.skip(i + 1), |c: char| spec_is_alpha(c));
        crate::strutil::lemma_run_len_le(s.skip(i + 1), |c: char| spec_is_digit(c));
        crate::strutil::lemma_run_len_le(s.skip(i + 1), |c: char| crate::strutil::spec_is_word(c));
    }
}

/// End of input: a single literal is the result, in its text form; more
/// items are collapsed under a synthesized enclosing zone, repeatedly, as
/// long as each collapse makes progress; no progress means an unmatched
/// zone, and an empty stack a malformed expression.
pub open spec fn spec_finish(stack: Seq<ItemV>, inc: nat) -> Result<Seq<char>, EvalError>
    decreases stack.len(),
{
    if stack.len() == 0 {
        Err(EvalError::MalformedExpression)
    } else if stack.len() == 1 {
        match stack[0] {
            ItemV::Literal(v) => crate::literal::lit_text(v),
            _ => Err(EvalError::TypeMismatch),
        }
    } else {
        match spec_reduce(seq![ItemV::ZoneStart('(')] + stack, Seq::empty(), inc) {
            Ok(p) => {
                if p.0.len() < stack.len() {
                    spec_finish(p.0, p.1)
                } else {
                    Err(EvalError::UnmatchedZone)
                }
            },
            Err(e) => Err(e),
        }
    }
}

/// The value of a formula body (the text after `=`): scanned from the left
/// with an empty stack and a zero counter, then finished.
pub open spec fn spec_execute(t: Seq<ColV>, s: Seq<char>, row: u32) -> Result<
    Seq<char>,
    EvalError,
> {
    match spec_scan(t, s, 0, Seq::empty(), 0, row) {
        Ok(p) => spec_finish(p.0, p.1),
        Err(e) => Err(e),
    }
}

/// The value of a cell's text: a body is evaluated when the text starts
/// with `=`; any other text (the empty text included) passes through
/// unchanged.
pub open spec fn spec_parse(t: Seq<ColV>, s: Seq<char>, row: u32) -> Result<Seq<char>, EvalError> {
    if s.len() >= 1 && s[0] == '=' {
        spec_execute(t, s.skip(1), row)
    } else {
        Ok(s)
    }
}

// ---------------------------------------------------------------------------
// The row driver
// ---------------------------------------------------------------------------

/// The copy-down shift: every occurrence of an uppercase letter followed by
/// the decimal digits of `prev` becomes that letter followed by the digits
/// of `prev + 1`; everything else is kept.
pub open spec fn spec_shift(s: Seq<char>, prev: nat) -> Seq<char>
    decreases s.len(),
{
    let d = dec_str(prev);
    if s.len() == 0 {
        Seq::empty()
    } else if spec_is_upper(s[0]) && 1 + d.len() <= s.len() && s.subrange(1, 1 + d.len() as int)
        == d {
        seq![s[0]] + dec_str(prev + 1) + spec_shift(s.skip(1 + d.len() as int), prev)
    } else {
        seq![s[0]] + spec_shift(s.skip(1), prev)
    }
}

/// The updated table after writing `txt` into cell `ri` of column `ci`.
pub open spec fn cell_updated(t: Seq<ColV>, ci: int, ri: int, txt: Seq<char>) -> Seq<ColV> {
    t.update(
        ci,
        ColV {
            name: t[ci].name,
            cells: t[ci].cells.update(ri, CellV { row: t[ci].cells[ri].row, text: txt }),
        },
    )
}

/// One column's pass from row position `ri` on: the `=^^` sentinel re-uses
/// the previous raw text with its row references shifted down one row; any
/// other cell is evaluated as it stands and becomes the new previous raw
/// text.  Each result is written back before the next row is visited, so
/// later rows observe earlier results.  The pass stops at the first error,
/// leaving the table as written so far.
pub open spec fn spec_fill_rows(t: Seq<ColV>, ci: int, ri: int, prev: Seq<char>) -> (
    Seq<ColV>,
    Option<EvalError>,
)
    decreases t[ci].cells.len() - ri,
{
    if ci < 0 || ri < 0 || ci >= t.len() || ri >= t[ci].cells.len() {
        (t, None)
    } else {
        let cell = t[ci].cells[ri];
        if cell.text == "=^^"@ {
            if cell.row == 0 {
                (t, Some(EvalError::RowZeroPrevious))
            } else {
                let derived = spec_shift(prev, (cell.row - 1) as nat);
                match spec_parse(t, derived, cell.row) {
                    Ok(res) => spec_fill_rows(cell_updated(t, ci, ri, res), ci, ri + 1, prev),
                    Err(e) => (t, Some(e)),
                }
            }
        } else {
            match spec_parse(t, cell.text, cell.row) {
                Ok(res) => spec_fill_rows(cell_updated(t, ci, ri, res), ci, ri + 1, cell.text),
                Err(e) => (t, Some(e)),
            }
        }
    }
}

/// A pass writes cell texts only: it keeps the number of columns, their
/// names, and every row key exactly as they were.
pub proof fn lemma_fill_rows_shape(t: Seq<ColV>, ci: int, ri: int, prev: Seq<char>)
    ensures
        spec_fill_rows(t, ci, ri, prev).0.len() == t.len(),
        forall|j: int|
            0 <= j < t.len() ==> (#[trigger] spec_fill_rows(t, ci, ri, prev).0[j]).name
                == t[j].name && spec_fill_rows(t, ci, ri, prev).0[j].cells.len()
                == t[j].cells.len(),
        forall|j: int, k: int|
            0 <= j < t.len() && 0 <= k < t[j].cells.len() ==> (#[trigger] spec_fill_rows(
                t,
                ci,
                ri,
                prev,
            ).0[j].cells[k]).row == t[j].cells[k].row,
    decreases t[ci].cells.len() - ri,
{
    if ci < 0 || ri < 0 || ci >= t.len() || ri >= t[ci].cells.len() {
    } else {
        let cell = t[ci].cells[ri];
        if cell.text == "=^^"@ {
            if cell.row != 0 {
                let derived = spec_shift(prev, (cell.row - 1) as nat);
                match spec_parse(t, derived, cell.row) {
                    Ok(res) => lemma_fill_rows_shape(
                        cell_updated(t, ci, ri, res),
                        ci,
                        ri + 1,
                        prev,
                    ),
                    Err(e) => {},
                }
            }
        } else {
            match spec_parse(t, cell.text, cell.row) {
                Ok(res) => lemma_fill_rows_shape(
                    cell_updated(t, ci, ri, res),
                    ci,
                    ri + 1,
                    cell.text,
                ),
                Err(e) => {},
            }
        }
    }
}

/// The whole table's pass: columns in order, each from its first row, each
/// starting with an empty previous raw text; the first error stops the run.
pub open spec fn spec_fill_cols(t: Seq<ColV>, ci: int) -> (Seq<ColV>, Option<EvalError>)
    decreases t.len() - ci,
    via spec_fill_cols_decreases
{
    if ci < 0 || ci >= t.len() {
        (t, None)
    } else {
        let p = spec_fill_rows(t, ci, 0, Seq::empty());
        match p.1 {
            Some(e) => p,
            None => spec_fill_cols(p.0, ci + 1),
        }
    }
}

#[via_fn]
proof fn spec_fill_cols_decreases(t: Seq<ColV>, ci: int) {
    if 0 <= ci && ci < t.len() {
        lemma_fill_rows_shape(t, ci, 0, Seq::empty());
    }
}

/// The whole pass keeps the table's shape: column count, names, row keys.
pub proof fn lemma_fill_cols_shape(t: Seq<ColV>, ci: int)
    ensures
        spec_fill_cols(t, ci).0.len() == t.len(),
        forall|j: int|
            0 <= j < t.len() ==> (#[trigger] spec_fill_cols(t, ci).0[j]).name == t[j].name
                && spec_fill_cols(t, ci).0[j].cells.len() == t[j].cells.len(),
        forall|j: int, k: int|
            0 <= j < t.len() && 0 <= k < t[j].cells.len() ==> (#[trigger] spec_fill_cols(
                t,
                ci,
            ).0[j].cells[k]).row == t[j].cells[k].row,
    decreases t.len() - ci,
{
    if ci < 0 || ci >= t.len() {
    } else {
        let p = spec_fill_rows(t, ci, 0, Seq::empty());
        lemma_fill_rows_shape(t, ci, 0, Seq::empty());
        match p.1 {
            Some(e) => {},
            None => {
                lemma_fill_cols_shape(p.0, ci + 1);
            },
        }
    }
}

/// A pass over a well-formed table leaves it well formed: only cell texts
/// change, and well-formedness speaks of the row keys alone.
pub proof fn lemma_fill_preserves_wf(t: Seq<ColV>)
    requires
        crate::table::table_wf(t),
    ensures
        crate::table::table_wf(spec_fill_cols(t, 0).0),
{
    lemma_fill_cols_shape(t, 0);
    let r = spec_fill_cols(t, 0).0;
    assert forall|j: int| 0 <= j < r.len() implies crate::table::col_wf(#[trigger] r[j]) by {
        assert(crate::table::col_wf(t[j]));
        assert(forall|a: int, b: int|
            0 <= a < b < r[j].cells.len() ==> r[j].cells[a].row == t[j].cells[a].row
                && r[j].cells[b].row == t[j].cells[b].row);
    }
}

/// The resumption point of a pass standing at column `ci`, row `ri`, with
/// previous raw text `prev`: finish this column, then the following ones.
pub open spec fn spec_fill_from(t: Seq<ColV>, ci: int, ri: int, prev: Seq<char>) -> (
    Seq<ColV>,
    Option<EvalError>,
) {
    let q = spec_fill_rows(t, ci, ri, prev);
    match q.1 {
        Some(e) => q,
        None => spec_fill_cols(q.0, ci + 1),
    }
}

// ---------------------------------------------------------------------------
// Laws
// ---------------------------------------------------------------------------

/// Law: evaluating a plain cell (text that does not start with `=`) is a
/// no-op, so re-evaluating an already-evaluated plain cell changes nothing.
pub proof fn lemma_plain_text_unchanged(t: Seq<ColV>, s: Seq<char>, row: u32)
    requires
        s.len() == 0 || s[0] != '=',
    ensures
        spec_parse(t, s, row) == Ok::<Seq<char>, EvalError>(s),
{
}

/// Law: `incFrom` works from the counter it is given, and every cell's
/// evaluation starts that counter at zero (see `spec_execute`), so
/// `incFrom(i)` in a fresh cell yields `i` no matter what earlier cells did.
pub proof fn lemma_inc_from_fresh(i: nat)
    requires
        i <= usize::MAX,
    ensures
        spec_calc("incFrom"@, seq![LitV::Int(i)], 0) == Ok::<(LitV, nat), EvalError>(
            (LitV::Int(i), i),
        ),
{
    assert(seq![LitV::Int(i)].len() == 1);
    assert(seq![LitV::Int(i)][0] == LitV::Int(i));
}

/// Reverses an operand list from pop order back to source order.
fn reverse_literals(v: Vec<LiteralValue>) -> (r: Vec<LiteralValue>)
    ensures
        r.deep_view() == v.deep_view().reverse(),
{
    let ghost orig = v.deep_view();
    let mut src: Vec<LiteralValue> = v;
    let mut r: Vec<LiteralValue> = Vec::new();
    proof {
        assert(orig =~= src.deep_view() + r.deep_view().reverse());
    }
    loop
        invariant
            orig =~= src.deep_view() + r.deep_view().reverse(),
        decreases src.len(),
    {
        match src.pop() {
            Some(x) => {
                r.push(x);
                proof {
                    assert(orig =~= src.deep_view() + r.deep_view().reverse());
                }
            },
            None => {
                proof {
                    assert(r.deep_view() =~= orig.reverse());
                }
                return r;
            },
        }
    }
}

// ---------------------------------------------------------------------------
// Executable arithmetic and dispatch
// ---------------------------------------------------------------------------

/// The numeric reading of a literal, as `lit_as_num` states it.
fn lit_num(v: &LiteralValue) -> (r: Result<i64, EvalError>)
    ensures
        match r {
            Ok(n) => lit_as_num(v@) == Ok::<int, EvalError>(n as int),
            Err(e) => lit_as_num(v@) == Err::<int, EvalError>(e),
        },
{
    match v {
        LiteralValue::Num(n) => Ok(*n),
        LiteralValue::Int(i) => {
            if (*i as u64) <= (i64::MAX as u64) {
                Ok(*i as i64)
            } else {
                Err(EvalError::NumberOverflow)
            }
        },
        _ => Err(EvalError::TypeMismatch),
    }
}

impl TableData {
    /// Folds one operator over exactly two numeric operands, left first.
    pub fn evaluate_arithmetic(&self, operator: char, args: &Vec<LiteralValue>) -> (r: Result<
        LiteralValue,
        EvalError,
    >)
        ensures
            match r {
                Ok(v) => spec_arith(operator, args.deep_view()) == Ok::<LitV, EvalError>(v@),
                Err(e) => spec_arith(operator, args.deep_view()) == Err::<LitV, EvalError>(e),
            },
{
        if args.len() != 2 {
            return Err(EvalError::MalformedExpression);
        }
        let a: i64 = match lit_num(&args[0]) {
            Ok(n) => n,
            Err(e) => {
                return Err(e);
            },
        };
        let b: i64 = match lit_num(&args[1]) {
            Ok(n) => n,
            Err(e) => {
                return Err(e);
            },
        };
        if operator == '+' {
            match a.checked_add(b) {
                Some(c) => Ok(LiteralValue::Num(c)),
                None => Err(EvalError::NumberOverflow),
            }
        } else if operator == '-' {
            match a.checked_sub(b) {
                Some(c) => Ok(LiteralValue::Num(c)),
                None => Err(EvalError::NumberOverflow),
            }
        } else if operator == '*' {
            match a.checked_mul(b) {
                Some(c) => Ok(LiteralValue::Num(c)),
                None => Err(EvalError::NumberOverflow),
            }
        } else if operator == '/' {
            if b == 0 {
                return Err(EvalError::DivisionByZero);
            }
            match a.checked_rem(b) {
                None => Err(EvalError::NumberOverflow),
                Some(rm) => {
                    if rm != 0 {
                        Err(EvalError::InexactDivision)
                    } else {
                        match a.checked_div(b) {
                            Some(q) => Ok(LiteralValue::Num(q)),
                            None => Err(EvalError::NumberOverflow),
                        }
                    }
                },
            }
        } else {
            Err(EvalError::MalformedExpression)
        }
    }

    /// Adds the single `Int` operand to the per-cell counter and yields the
    /// new counter value, as `spec_inc_from` states it.
    pub fn inc_from(&self, args: Vec<LiteralValue>, inc_from: &mut usize) -> (r: Result<
        LiteralValue,
        EvalError,
    >)
        ensures
            match spec_inc_from(args.deep_view(), *old(inc_from) as nat) {
                Ok(p) => (match r {
                    Ok(v) => v@ == p.0 && *final(inc_from) as nat == p.1,
                    Err(_) => false,
                }),
                Err(e) => r == Err::<LiteralValue, EvalError>(e) && *final(inc_from) == *old(
                    inc_from,
                ),
            },
    {
        if args.len() != 1 {
            return Err(EvalError::MalformedExpression);
        }
        match &args[0] {
            LiteralValue::Int(i) => {
                match inc_from.checked_add(*i) {
                    Some(v) => {
                        *inc_from = v;
                        Ok(LiteralValue::Int(v))
                    },
                    None => Err(EvalError::NumberOverflow),
                }
            },
            _ => Err(EvalError::TypeMismatch),
        }
    }

    /// Splits the first text operand on the single-character separator, as
    /// `spec_split` states it.
    pub fn split(&self, args: Vec<LiteralValue>) -> (r: Result<LiteralValue, EvalError>)
        ensures
            match r {
                Ok(v) => spec_split(args.deep_view()) == Ok::<LitV, EvalError>(v@),
                Err(e) => spec_split(args.deep_view()) == Err::<LitV, EvalError>(e),
            },
    {
        if args.len() != 2 {
            return Err(EvalError::MalformedExpression);
        }
        let from_column: &String = match &args[0] {
            LiteralValue::Text(s) => s,
            _ => {
                return Err(EvalError::TypeMismatch);
            },
        };
        let separator: &String = match &args[1] {
            LiteralValue::Text(s) => s,
            _ => {
                return Err(EvalError::TypeMismatch);
            },
        };
        if separator.as_str().unicode_len() != 1 {
            return Err(EvalError::SeparatorNotSingle);
        }
        let x: char = separator.as_str().get_char(0);
        let pieces: Vec<&str> = crate::strutil::str_to_vector(from_column.as_str(), x);
        let mut array_strs: Vec<String> = Vec::new();
        let mut j: usize = 0;
        while j < pieces.len()
            invariant
                j <= pieces.len(),
                array_strs.deep_view() == pieces.deep_view().take(j as int),
            decreases pieces.len() - j,
        {
            array_strs.push(String::from_str(pieces[j]));
            proof {
                assert(array_strs.deep_view() =~= pieces.deep_view().take(j + 1));
            }
            j = j + 1;
        }
        proof {
            assert(array_strs.deep_view() =~= pieces.deep_view());
        }
        Ok(LiteralValue::TextArray(array_strs))
    }

    /// Dispatches a function name over its operands, as `spec_calc` states
    /// it: the two built-ins by name, a placeholder text for any other name.
    pub fn calc_function(&self, name: &str, args: Vec<LiteralValue>, inc_from: &mut usize) -> (r:
        Result<LiteralValue, EvalError>)
        ensures
            match spec_calc(name@, args.deep_view(), *old(inc_from) as nat) {
                Ok(p) => (match r {
                    Ok(v) => v@ == p.0 && *final(inc_from) as nat == p.1,
                    Err(_) => false,
                }),
                Err(e) => r == Err::<LiteralValue, EvalError>(e) && *final(inc_from) == *old(
                    inc_from,
                ),
            },
    {
        if crate::strutil::str_eq(name, "incFrom") {
            return self.inc_from(args, inc_from);
        }
        if crate::strutil::str_eq(name, "split") {
            return self.split(args);
        }
        let text: String = String::from_str("[").concat(name).concat("(wtf)]");
        proof {
            assert(text@ =~= unknown_fn_text(name@));
        }
        Ok(LiteralValue::Text(text))
    }

    /// Resolves the `@column<row>` zone on top of the stack, as
    /// `spec_col_ref` states it.  On an error the stack is left partly
    /// popped; the evaluation of the cell is over and the stack discarded.
    pub fn evaluate_column_reference(&self, stack: &mut Vec<Item>) -> (r: Result<(), EvalError>)
        ensures
            match spec_col_ref(self@, old(stack).deep_view()) {
                Ok(s) => r is Ok && final(stack).deep_view() == s,
                Err(e) => r == Err::<(), EvalError>(e),
            },
    {
        let ghost dv0 = stack.deep_view();
        let column_with_index: Item = match stack.pop() {
            Some(it) => it,
            None => {
                return Err(EvalError::MalformedExpression);
            },
        };
        proof {
            assert(stack.deep_view() =~= dv0.drop_last());
        }
        let column_index: usize = match column_with_index.get_literal_as_number() {
            Ok(n) => n,
            Err(e) => {
                return Err(e);
            },
        };
        let opener: Item = match stack.pop() {
            Some(it) => it,
            None => {
                return Err(EvalError::MalformedExpression);
            },
        };
        proof {
            assert(stack.deep_view() =~= dv0.drop_last().drop_last());
        }
        match opener.expect_start_of('<') {
            Ok(_) => {},
            Err(e) => {
                return Err(e);
            },
        }
        let token_item: Item = match stack.pop() {
            Some(it) => it,
            None => {
                return Err(EvalError::MalformedExpression);
            },
        };
        proof {
            assert(stack.deep_view() =~= dv0.drop_last().drop_last().drop_last());
        }
        let column_name: String = match token_item.get_token() {
            Ok(s) => s,
            Err(e) => {
                return Err(e);
            },
        };
        if column_name.as_str().unicode_len() < 1 || column_name.as_str().get_char(0) != '@' {
            return Err(EvalError::MalformedExpression);
        }
        let name: &str = crate::strutil::remove_first_symbol(column_name.as_str());
        let column = match self.get_by_name_unmut(name) {
            Ok(c) => c,
            Err(e) => {
                return Err(e);
            },
        };
        let res: String = match column.get_cell_by_index(column_index) {
            Ok(s) => s,
            Err(e) => {
                return Err(e);
            },
        };
        stack.push(Item::conduct_string_literal(res));
        proof {
            let s2 = dv0.drop_last().drop_last();
            assert(final(stack).deep_view() =~= s2.drop_last().push(
                final(stack).deep_view().last(),
            ));
        }
        Ok(())
    }

    /// Collapses the top value zone of the stack, as `spec_reduce` states
    /// it: the collapse starts with no operands collected.  On an error the
    /// stack is left partly collapsed; the evaluation of the cell is over
    /// and the stack discarded.
    pub fn evaluate_curly_zone(&self, stack: &mut Vec<Item>, inc_from: &mut usize) -> (r: Result<
        (),
        EvalError,
    >)
        ensures
            match spec_reduce(old(stack).deep_view(), Seq::empty(), *old(inc_from) as nat) {
                Ok(p) => r is Ok && final(stack).deep_view() == p.0 && *final(inc_from) as nat
                    == p.1,
                Err(e) => r == Err::<(), EvalError>(e),
            },
    {
        let ghost goal = spec_reduce(old(stack).deep_view(), Seq::empty(), *old(inc_from) as nat);
        let mut operands: Vec<LiteralValue> = Vec::new();
        proof {
            assert(operands.deep_view() =~= Seq::<LitV>::empty());
        }
        loop
            invariant
                goal == spec_reduce(stack.deep_view(), operands.deep_view(), *inc_from as nat),
            decreases stack.len(),
        {
            let ghost dv = stack.deep_view();
            let ghost ops = operands.deep_view();
            let item_inner: Item = match stack.pop() {
                Some(it) => it,
                None => {
                    return Err(EvalError::UnmatchedZone);
                },
            };
            proof {
                assert(stack.deep_view() =~= dv.drop_last());
            }
            match item_inner {
                Item::Literal(value) => {
                    operands.push(value);
                    proof {
                        assert(operands.deep_view() =~= ops.push(dv.last()->Literal_0));
                    }
                },
                Item::ZoneStart(value) => {
                    if value != '(' {
                        return Err(EvalError::MalformedExpression);
                    }
                    if stack.len() > 0 {
                        let ghost rest = stack.deep_view();
                        let item_before_braces: Item = match stack.pop() {
                            Some(it) => it,
                            None => {
                                return Err(EvalError::MalformedExpression);
                            },
                        };
                        proof {
                            assert(stack.deep_view() =~= rest.drop_last());
                        }
                        match item_before_braces {
                            Item::Token(operation) => {
                                let args: Vec<LiteralValue> = reverse_literals(operands);
                                let res: LiteralValue = match self.calc_function(
                                    operation.as_str(),
                                    args,
                                    inc_from,
                                ) {
                                    Ok(v) => v,
                                    Err(e) => {
                                        return Err(e);
                                    },
                                };
                                stack.push(Item::Literal(res));
                                proof {
                                    assert(final(stack).deep_view() =~= rest.drop_last().push(
                                        final(stack).deep_view().last(),
                                    ));
                                }
                                return Ok(());
                            },
                            other => {
                                stack.push(other);
                                proof {
                                    assert(stack.deep_view() =~= rest);
                                }
                            },
                        }
                    }
                    if operands.len() == 1 {
                        let single: LiteralValue = match operands.pop() {
                            Some(v) => v,
                            None => {
                                return Err(EvalError::MalformedExpression);
                            },
                        };
                        let ghost mid = stack.deep_view();
                        stack.push(Item::Literal(single));
                        proof {
                            assert(final(stack).deep_view() =~= mid.push(
                                final(stack).deep_view().last(),
                            ));
                            assert(final(stack).deep_view().last() == ItemV::Literal(ops[0]));
                        }
                        return Ok(());
                    } else {
                        return Err(EvalError::MalformedExpression);
                    }
                },
                Item::Operator(operator) => {
                    let ghost rest = stack.deep_view();
                    let left_item: Item = match stack.pop() {
                        Some(it) => it,
                        None => {
                            return Err(EvalError::MalformedExpression);
                        },
                    };
                    proof {
                        assert(stack.deep_view() =~= rest.drop_last());
                    }
                    let left_operand: LiteralValue = match left_item {
                        Item::Literal(v) => v,
                        _ => {
                            return Err(EvalError::TypeMismatch);
                        },
                    };
                    operands.push(left_operand);
                    proof {
                        assert(operands.deep_view() =~= ops.push(rest.last()->Literal_0));
                    }
                    let args: Vec<LiteralValue> = reverse_literals(operands);
                    operands = Vec::new();
                    proof {
                        assert(operands.deep_view() =~= Seq::<LitV>::empty());
                    }
                    let res: LiteralValue = match self.evaluate_arithmetic(operator, &args) {
                        Ok(v) => v,
                        Err(e) => {
                            return Err(e);
                        },
                    };
                    let ghost mid = stack.deep_view();
                    stack.push(Item::Literal(res));
                    proof {
                        assert(stack.deep_view() =~= mid.push(stack.deep_view().last()));
                    }
                },
                _ => {
                    return Err(EvalError::MalformedExpression);
                },
            }
        }
    }

    /// Pops the zone end on top of the stack and collapses the zone it
    /// closes, as `spec_end_zone` states it.
    pub fn revaluate_from_end_zone(&self, stack: &mut Vec<Item>, inc_from: &mut usize) -> (r:
        Result<(), EvalError>)
        ensures
            match spec_end_zone(self@, old(stack).deep_view(), *old(inc_from) as nat) {
                Ok(p) => r is Ok && final(stack).deep_view() == p.0 && *final(inc_from) as nat
                    == p.1,
                Err(e) => r == Err::<(), EvalError>(e),
            },
    {
        let ghost dv0 = stack.deep_view();
        let top: Item = match stack.pop() {
            Some(it) => it,
            None => {
                return Err(EvalError::MalformedExpression);
            },
        };
        proof {
            assert(stack.deep_view() =~= dv0.drop_last());
        }
        let end_zone_symbol: char = match top.get_end_zone_character() {
            Ok(c) => c,
            Err(e) => {
                return Err(e);
            },
        };
        if end_zone_symbol == '>' {
            self.evaluate_column_reference(stack)
        } else {
            self.evaluate_curly_zone(stack, inc_from)
        }
    }

    /// Resolves the coordinate reference at position `i`, as `spec_resolve`
    /// states it; on success the width consumed keeps the scan in bounds.
    pub fn resolve_literal_at(&self, s: &str, i: usize, current_row_number: u32) -> (r: Result<
        (String, usize),
        EvalError,
    >)
        requires
            i < s@.len(),
        ensures
            match r {
                Ok(p) => spec_resolve(self@, s@, i as int, current_row_number) == Ok::<
                    (Seq<char>, int),
                    EvalError,
                >((p.0@, p.1 as int)) && i + p.1 <= s@.len(),
                Err(e) => spec_resolve(self@, s@, i as int, current_row_number) == Err::<
                    (Seq<char>, int),
                    EvalError,
                >(e),
            },
    {
        let n: usize = s.unicode_len();
        if i + 1 >= n {
            return Err(EvalError::UnsupportedReference);
        }
        let letter: char = s.get_char(i);
        let c1: char = s.get_char(i + 1);
        if crate::strutil::is_digit(c1) {
            let key: u32 = (c1 as u32) - 48;
            match self.get_by_coordinate(letter, key) {
                Ok(v) => Ok((v, 2)),
                Err(e) => Err(e),
            }
        } else if i + 2 < n && c1 == '^' && s.get_char(i + 2) == 'v' {
            match self.get_last_value_of_the_column(letter) {
                Ok(v) => Ok((v, 3)),
                Err(e) => Err(e),
            }
        } else if c1 == '^' {
            if current_row_number == 0 {
                Err(EvalError::RowZeroPrevious)
            } else {
                match self.get_by_coordinate(letter, current_row_number - 1) {
                    Ok(v) => Ok((v, 2)),
                    Err(e) => Err(e),
                }
            }
        } else {
            Err(EvalError::UnsupportedReference)
        }
    }

    /// Evaluates a formula body (the text after `=`) against this table,
    /// as `spec_execute` states it.
    pub fn execute_str(&self, s: &str, index: u32) -> (r: Result<String, EvalError>)
        ensures
            match r {
                Ok(v) => spec_execute(self@, s@, index) == Ok::<Seq<char>, EvalError>(v@),
                Err(e) => spec_execute(self@, s@, index) == Err::<Seq<char>, EvalError>(e),
            },
    {
        let ghost t = self@;
        let mut stack: Vec<Item> = Vec::new();
        let mut inc_from: usize = 0;
        let mut i: usize = 0;
        let n: usize = s.unicode_len();
        proof {
            assert(stack.deep_view() =~= Seq::<ItemV>::empty());
        }
        while i < n
            invariant
                i <= n,
                n == s@.len(),
                spec_scan(t, s@, 0, Seq::empty(), 0, index) == spec_scan(
                    t,
                    s@,
                    i as int,
                    stack.deep_view(),
                    inc_from as nat,
                    index,
                ),
            decreases n - i,
        {
            let ghost dv = stack.deep_view();
            let c: char = s.get_char(i);
            if crate::strutil::is_upper(c) && (i + 1 >= n || !crate::strutil::is_alpha(
                s.get_char(i + 1),
            )) {
                match self.resolve_literal_at(s, i, index) {
                    Ok(p) => {
                        let (literal, literal_length): (String, usize) = p;
                        stack.push(Item::conduct_string_literal(literal));
                        proof {
                            assert(stack.deep_view() =~= dv.push(stack.deep_view().last()));
                        }
                        i = i + literal_length;
                    },
                    Err(e) => {
                        return Err(e);
                    },
                }
            } else if crate::strutil::is_alpha(c) {
                let j: usize = crate::strutil::alpha_run_end(s, i + 1);
                let token: &str = s.substring_char(i, j);
                stack.push(Item::Token(String::from_str(token)));
                proof {
                    assert(token@ =~= s@.subrange(i as int, j as int));
                    assert(stack.deep_view() =~= dv.push(stack.deep_view().last()));
                }
                i = j;
            } else if crate::strutil::is_digit(c) {
                let j: usize = crate::strutil::digit_run_end(s, i + 1);
                match crate::strutil::parse_digits(s, i, j) {
                    Some(v) => {
                        stack.push(Item::conduct_int_literal(v));
                        proof {
                            assert(stack.deep_view() =~= dv.push(stack.deep_view().last()));
                        }
                        i = j;
                    },
                    None => {
                        return Err(EvalError::NumberOverflow);
                    },
                }
            } else if c == '(' || c == '<' {
                stack.push(Item::ZoneStart(c));
                proof {
                    assert(stack.deep_view() =~= dv.push(ItemV::ZoneStart(c)));
                }
                i = i + 1;
            } else if c == ')' || c == '>' {
                stack.push(Item::ZoneEnd(c));
                proof {
                    assert(stack.deep_view() =~= dv.push(ItemV::ZoneEnd(c)));
                }
                match self.revaluate_from_end_zone(&mut stack, &mut inc_from) {
                    Ok(_) => {},
                    Err(e) => {
                        return Err(e);
                    },
                }
                i = i + 1;
            } else if c == '"' {
                let j: usize = crate::strutil::scan_to_char(s, i + 1, '"');
                if j >= n {
                    return Err(EvalError::MalformedExpression);
                }
                let val: &str = s.substring_char(i + 1, j);
                stack.push(Item::conduct_string_literal(String::from_str(val)));
                proof {
                    assert(val@ =~= s@.subrange(i + 1, j as int));
                    assert(stack.deep_view() =~= dv.push(stack.deep_view().last()));
                }
                i = j + 1;
            } else if c == '@' {
                let j: usize = crate::strutil::word_run_end(s, i + 1);
                let token: &str = s.substring_char(i, j);
                stack.push(Item::Token(String::from_str(token)));
                proof {
                    assert(token@ =~= s@.subrange(i as int, j as int));
                    assert(stack.deep_view() =~= dv.push(stack.deep_view().last()));
                }
                i = j;
            } else if crate::strutil::is_separator(c) {
                i = i + 1;
            } else if crate::strutil::is_operator(c) {
                stack.push(Item::Operator(c));
                proof {
                    assert(stack.deep_view() =~= dv.push(ItemV::Operator(c)));
                }
                i = i + 1;
            } else {
                return Err(EvalError::UnknownSymbol { pos: i });
            }
        }
        let ghost scanned = stack.deep_view();
        let ghost scanned_inc = inc_from as nat;
        proof {
            assert(spec_scan(t, s@, 0, Seq::empty(), 0, index) == Ok::<(Seq<ItemV>, nat), EvalError>(
                (scanned, scanned_inc),
            ));
        }
        loop
            invariant
                spec_execute(t, s@, index) == spec_finish(stack.deep_view(), inc_from as nat),
            decreases stack.len(),
        {
            let ghost dv = stack.deep_view();
            if stack.len() == 0 {
                return Err(EvalError::MalformedExpression);
            }
            if stack.len() == 1 {
                let single: Item = match stack.pop() {
                    Some(it) => it,
                    None => {
                        return Err(EvalError::MalformedExpression);
                    },
                };
                match single {
                    Item::Literal(v) => {
                        return v.to_text();
                    },
                    _ => {
                        return Err(EvalError::TypeMismatch);
                    },
                }
            }
            let prelen: usize = stack.len();
            stack.insert(0, Item::ZoneStart('('));
            proof {
                assert(stack.deep_view() =~= seq![ItemV::ZoneStart('(')] + dv);
            }
            match self.evaluate_curly_zone(&mut stack, &mut inc_from) {
                Ok(_) => {
                    if stack.len() < prelen {
                        // the synthesized zone was consumed: keep collapsing
                    } else {
                        return Err(EvalError::UnmatchedZone);
                    }
                },
                Err(e) => {
                    return Err(e);
                },
            }
        }
    }

    /// The value of one cell's text: a leading `=` marks a formula to
    /// evaluate; any other text passes through unchanged, so re-evaluating
    /// an already evaluated plain cell changes nothing.
    pub fn parse_string(&self, s: String, index: u32) -> (r: Result<String, EvalError>)
        ensures
            match r {
                Ok(v) => spec_parse(self@, s@, index) == Ok::<Seq<char>, EvalError>(v@),
                Err(e) => spec_parse(self@, s@, index) == Err::<Seq<char>, EvalError>(e),
            },
    {
        if s.as_str().unicode_len() >= 1 && s.as_str().get_char(0) == '=' {
            let body: &str = crate::strutil::remove_first_symbol(s.as_str());
            self.execute_str(body, index)
        } else {
            Ok(s)
        }
    }

    /// Applies the copy-down shift, as `spec_shift` states it: every
    /// `<uppercase letter><prev_num>` becomes `<same letter><prev_num + 1>`.
    pub fn increase_column_digits(text: String, prev_num: u32) -> (r: String)
        requires
            prev_num < u32::MAX,
        ensures
            r@ == spec_shift(text@, prev_num as nat),
    {
        let prev_str: String = crate::strutil::usize_to_string(prev_num as usize);
        let next_str: String = crate::strutil::usize_to_string(prev_num as usize + 1);
        let dlen: usize = prev_str.as_str().unicode_len();
        let n: usize = text.as_str().unicode_len();
        let mut out: String = String::new();
        let mut i: usize = 0;
        proof {
            assert(text@.skip(0) =~= text@);
            assert(out@ + spec_shift(text@, prev_num as nat) =~= spec_shift(
                text@,
                prev_num as nat,
            ));
        }
        while i < n
            invariant
                i <= n,
                n == text@.len(),
                dlen == dec_str(prev_num as nat).len(),
                spec_shift(text@, prev_num as nat) == out@ + spec_shift(
                    text@.skip(i as int),
                    prev_num as nat,
                ),
            decreases n - i,
        {
            let ghost rest = text@.skip(i as int);
            let c: char = text.as_str().get_char(i);
            if crate::strutil::is_upper(c) && dlen <= n - i - 1 && crate::strutil::str_eq(
                text.as_str().substring_char(i + 1, i + 1 + dlen),
                prev_str.as_str(),
            ) {
                crate::strutil::push_char(&mut out, c);
                out.append(next_str.as_str());
                proof {
                    assert(rest.subrange(1, 1 + dlen) =~= text@.subrange(i + 1, i + 1 + dlen));
                    assert(rest.subrange(1, 1 + dlen) == dec_str(prev_num as nat));
                    assert(rest.skip(1 + dlen) =~= text@.skip(i + 1 + dlen));
                    assert(spec_shift(rest, prev_num as nat) == seq![rest[0]] + dec_str(
                        prev_num as nat + 1,
                    ) + spec_shift(text@.skip(i + 1 + dlen), prev_num as nat));
                }
                i = i + 1 + dlen;
            } else {
                crate::strutil::push_char(&mut out, c);
                proof {
                    assert(rest.skip(1) =~= text@.skip(i + 1));
                    if rest.len() > 0 && spec_is_upper(rest[0]) && 1 + dlen <= rest.len() {
                        assert(rest.subrange(1, 1 + dlen) =~= text@.subrange(i + 1, i + 1 + dlen));
                    }
                }
                i = i + 1;
            }
        }
        proof {
            assert(text@.skip(n as int) =~= Seq::<char>::empty());
        }
        out
    }

    /// The row driver: every column in order, every row in ascending key
    /// order, evaluating each cell and writing the result back in place, so
    /// later rows of a column observe earlier results; `=^^` re-uses the
    /// previous raw formula with its row references shifted.  Stops at the
    /// first error, as `spec_fill_cols` states it.
    pub fn fill_data(&mut self) -> (r: Result<(), EvalError>)
        requires
            crate::table::table_wf(old(self)@),
        ensures
            final(self)@ == spec_fill_cols(old(self)@, 0).0,
            crate::table::table_wf(final(self)@),
            r == (match spec_fill_cols(old(self)@, 0).1 {
                Some(e) => Err::<(), EvalError>(e),
                None => Ok::<(), EvalError>(()),
            }),
    {
        let ghost t0 = self@;
        proof {
            lemma_fill_preserves_wf(t0);
        }
        let mut ci: usize = 0;
        while ci < self.columns.len()
            invariant
                ci <= self@.len(),
                self@.len() == t0.len(),
                spec_fill_cols(t0, 0) == spec_fill_cols(self@, ci as int),
            decreases self@.len() - ci,
        {
            let mut prev_val: String = String::new();
            let mut ri: usize = 0;
            while ri < self.columns[ci].cells.len()
                invariant
                    ci < self@.len(),
                    self@.len() == t0.len(),
                    ri <= self@[ci as int].cells.len(),
                    spec_fill_cols(t0, 0) == spec_fill_from(self@, ci as int, ri as int, prev_val@),
                decreases self@[ci as int].cells.len() - ri,
            {
                let ghost tcur = self@;
                let row_number: u32 = self.columns[ci].cells[ri].row;
                let cell: String = self.columns[ci].cells[ri].text.clone();
                if crate::strutil::str_eq(cell.as_str(), "=^^") {
                    if row_number == 0 {
                        return Err(EvalError::RowZeroPrevious);
                    }
                    let derived: String = TableData::increase_column_digits(
                        prev_val.clone(),
                        row_number - 1,
                    );
                    match self.parse_string(derived, row_number) {
                        Ok(calculated_data) => {
                            self.set_cell_text(ci, ri, calculated_data);
                            proof {
                                assert(self@ =~~= cell_updated(
                                    tcur,
                                    ci as int,
                                    ri as int,
                                    self@[ci as int].cells[ri as int].text,
                                ));
                            }
                            ri = ri + 1;
                        },
                        Err(e) => {
                            return Err(e);
                        },
                    }
                } else {
                    match self.parse_string(cell.clone(), row_number) {
                        Ok(calculated_data) => {
                            self.set_cell_text(ci, ri, calculated_data);
                            proof {
                                assert(self@ =~~= cell_updated(
                                    tcur,
                                    ci as int,
                                    ri as int,
                                    self@[ci as int].cells[ri as int].text,
                                ));
                            }
                            prev_val = cell;
                            ri = ri + 1;
                        },
                        Err(e) => {
                            return Err(e);
                        },
                    }
                }
            }
            ci = ci + 1;
        }
        Ok(())
    }
}

} // verus!
