//! Observations.
//!
//! The observations of a member are rows of fixed width. A row holds the
//! values of the variables one after the other, each as long as its variable,
//! in the variables' order: the declared positions play no part in cutting a
//! row. A writer may pad every row to a multiple of 8 bytes, and the last card
//! with blanks or zeros, so the distance from one row to the next is found
//! from the length of the whole block.

use crate::dataset::{
    rows_view, vars_view, vars_wf, Cell, CellView, VarMeta, VarMetaView, XPTRow,
};
use crate::ibm370::{ibm64_decoded, ibm64_to_f64};
use crate::text::{decode_char, text_decoded};
use vstd::arithmetic::div_mod::lemma_fundamental_div_mod_converse;
use vstd::prelude::*;
use vstd::slice::slice_subrange;

verus! {

/// The width of a row: the sum of the variables' lengths.
pub open spec fn storage_width(vars: Seq<VarMetaView>) -> nat
    decreases vars.len(),
{
    if vars.len() == 0 {
        0
    } else {
        storage_width(vars.drop_last()) + vars.last().length
    }
}

/// Where the `k`-th variable starts in a row: behind the variables before it.
pub open spec fn offset_of(vars: Seq<VarMetaView>, k: int) -> nat {
    storage_width(vars.take(k))
}

/// The eight bytes that a numeric field is read from: the field's first eight
/// bytes, or the whole field behind as many zero bytes as it is short of
/// eight.
pub open spec fn numeric_field(bytes: Seq<u8>) -> Seq<u8> {
    if bytes.len() >= 8 {
        bytes.subrange(0, 8)
    } else {
        Seq::new((8 - bytes.len()) as nat, |i: int| 0u8) + bytes
    }
}

/// The number in a numeric field, `None` where it is a missing value.
pub open spec fn numeric_decoded(bytes: Seq<u8>) -> Option<u64> {
    ibm64_decoded(numeric_field(bytes)).0
}

/// The value of a variable in the bytes of its field.
pub open spec fn cell_decoded(var: VarMetaView, bytes: Seq<u8>) -> CellView {
    if var.is_char {
        CellView::Character(text_decoded(bytes))
    } else {
        CellView::Numeric(numeric_decoded(bytes))
    }
}

/// The field of the `k`-th variable in a row.
pub open spec fn field_of(vars: Seq<VarMetaView>, row: Seq<u8>, k: int) -> Seq<u8> {
    row.subrange(offset_of(vars, k) as int, (offset_of(vars, k) + vars[k].length) as int)
}

/// The values of a row.
pub open spec fn row_decoded(vars: Seq<VarMetaView>, row: Seq<u8>) -> Seq<CellView> {
    Seq::new(vars.len(), |k: int| cell_decoded(vars[k], field_of(vars, row, k)))
}

/// A byte that fills the space behind the last row: NUL or blank.
pub open spec fn is_filler(b: u8) -> bool {
    b == 0x00 || b == 0x20
}

/// Every byte is filler.
pub open spec fn all_filler(bytes: Seq<u8>) -> bool {
    forall|i: int| 0 <= i < bytes.len() ==> is_filler(#[trigger] bytes[i])
}

/// `width` rounded up to a multiple of 8.
pub open spec fn round_up_8(width: nat) -> nat {
    (width + 7) / 8 * 8
}

/// What is left of the block behind its last whole row at `stride`.
pub open spec fn remainder_of(block: Seq<u8>, stride: nat) -> Seq<u8> {
    block.subrange(block.len() - block.len() % stride, block.len() as int)
}

/// The block is a whole number of rows at `stride`, or so but for filler.
pub open spec fn stride_fits(block: Seq<u8>, stride: nat) -> bool {
    stride > 0 && (block.len() % stride == 0 || all_filler(remainder_of(block, stride)))
}

/// The distance from one row to the next: the rows' width if the block fits
/// it, else that width rounded up to a multiple of 8 if the block fits that.
pub open spec fn resolved_stride(block: Seq<u8>, width: nat) -> Option<nat> {
    if stride_fits(block, width) {
        Some(width)
    } else if stride_fits(block, round_up_8(width)) {
        Some(round_up_8(width))
    } else {
        None
    }
}

/// The rows of a block at `stride`: row `i` is read from the first
/// `storage_width(vars)` bytes at `i * stride`.
pub open spec fn rows_decoded(vars: Seq<VarMetaView>, block: Seq<u8>, stride: nat) -> Seq<
    Seq<CellView>,
> {
    Seq::new(
        block.len() / stride,
        |i: int| row_decoded(vars, block.subrange(i * stride, i * stride + storage_width(vars))),
    )
}

/// The rows of a block of observations, `None` where no stride fits.
pub open spec fn observations_decoded(vars: Seq<VarMetaView>, block: Seq<u8>) -> Option<
    Seq<Seq<CellView>>,
> {
    match resolved_stride(block, storage_width(vars)) {
        Some(stride) => Some(rows_decoded(vars, block, stride)),
        None => None,
    }
}

/// The offsets grow by the lengths and stay within the width.
pub proof fn lemma_offsets(vars: Seq<VarMetaView>, k: int)
    requires
        0 <= k < vars.len(),
    ensures
        offset_of(vars, k + 1) == offset_of(vars, k) + vars[k].length,
        offset_of(vars, k + 1) <= storage_width(vars),
        offset_of(vars, 0) == 0,
    decreases vars.len(),
{
    assert(vars.take(k + 1).drop_last() == vars.take(k));
    assert(vars.take(0).len() == 0);
    if k + 1 == vars.len() {
        assert(vars.take(k + 1) == vars);
    } else {
        let shorter = vars.drop_last();
        lemma_offsets(shorter, k);
        assert(shorter.take(k + 1) == vars.take(k + 1));
        assert(shorter.take(k) == vars.take(k));
    }
}

/// A row of well-formed variables is at least as wide as they are many, and
/// at most `0xFFFF` bytes for each.
pub proof fn lemma_width_bounds(vars: Seq<VarMetaView>)
    requires
        vars_wf(vars),
    ensures
        vars.len() <= storage_width(vars) <= vars.len() * 0xFFFF,
    decreases vars.len(),
{
    if vars.len() > 0 {
        let shorter = vars.drop_last();
        assert(vars_wf(shorter)) by {
            assert forall|i: int| 0 <= i < shorter.len() implies (#[trigger] shorter[i]).wf() by {
                assert(shorter[i] == vars[i]);
            }
        }
        lemma_width_bounds(shorter);
        assert(vars.last() == vars[vars.len() - 1]);
    }
}

/// Filler behind the last whole row is dropped: whole rows followed by
/// filler that is shorter than a row decode to the same rows as without it.
pub proof fn lemma_trailing_filler_is_dropped(
    vars: Seq<VarMetaView>,
    rows: Seq<u8>,
    filler: Seq<u8>,
)
    requires
        storage_width(vars) > 0,
        rows.len() % storage_width(vars) == 0,
        filler.len() < storage_width(vars),
        all_filler(filler),
    ensures
        observations_decoded(vars, rows) == Some(rows_decoded(vars, rows, storage_width(vars))),
        observations_decoded(vars, rows + filler) == observations_decoded(vars, rows),
{
    let width = storage_width(vars);
    let block = rows + filler;
    let count = rows.len() as int / width as int;
    assert(rows.len() == count * width) by (nonlinear_arith)
        requires
            count == rows.len() as int / width as int,
            rows.len() as int % width as int == 0,
            width > 0,
    ;
    lemma_fundamental_div_mod_converse(
        block.len() as int,
        width as int,
        count,
        filler.len() as int,
    );
    assert(remainder_of(block, width) =~= filler);
    assert(stride_fits(block, width));
    assert(stride_fits(rows, width));
    assert forall|i: int| 0 <= i < count implies #[trigger] rows_decoded(vars, block, width)[i]
        == rows_decoded(vars, rows, width)[i] by {
        assert(i * width + width <= count * width) by (nonlinear_arith)
            requires
                0 <= i < count,
                width > 0,
        ;
        assert(0 <= i * width) by (nonlinear_arith)
            requires
                0 <= i,
                width > 0,
        ;
        assert(block.subrange(i * width, i * width + width) =~= rows.subrange(
            i * width,
            i * width + width,
        ));
    }
    assert(rows_decoded(vars, block, width) =~= rows_decoded(vars, rows, width));
}

/// A numeric variable of eight bytes whose field holds a missing value, `.`,
/// `_` or a letter `A` to `Z` before seven zero bytes, has the empty cell in
/// its row; the row is kept.
pub proof fn lemma_missing_value_in_a_row(
    vars: Seq<VarMetaView>,
    block: Seq<u8>,
    stride: nat,
    m: int,
    k: int,
)
    requires
        stride > 0,
        0 <= m < block.len() / stride,
        0 <= k < vars.len(),
        !vars[k].is_char,
        vars[k].length == 8,
        ({
            let row = block.subrange(m * stride, m * stride + storage_width(vars));
            let field = field_of(vars, row, k);
            &&& field.len() == 8
            &&& crate::ibm370::tail_is_zero(field)
            &&& (field[0] == 0x2E || field[0] == 0x5F || 0x41 <= field[0] <= 0x5A)
        }),
    ensures
        rows_decoded(vars, block, stride).len() == block.len() / stride,
        rows_decoded(vars, block, stride)[m].len() == vars.len(),
        rows_decoded(vars, block, stride)[m][k] == CellView::Numeric(None),
{
    let row = block.subrange(m * stride, m * stride + storage_width(vars));
    let field = field_of(vars, row, k);
    assert(numeric_field(field) =~= field);
    crate::ibm370::lemma_missing_values(field);
}

/// A block that is no whole number of rows, with something other than filler
/// behind its last whole row, is refused where the rows' width is already a
/// multiple of 8, so that no other stride is left to try.
pub proof fn lemma_remainder_that_is_not_filler(vars: Seq<VarMetaView>, block: Seq<u8>)
    requires
        storage_width(vars) > 0,
        storage_width(vars) % 8 == 0,
        block.len() % storage_width(vars) != 0,
        !all_filler(remainder_of(block, storage_width(vars))),
    ensures
        observations_decoded(vars, block).is_none(),
{
}

/// The width of a row.
pub fn row_width(vars: &Vec<VarMeta>) -> (width: u128)
    requires
        vars_wf(vars_view(vars@)),
    ensures
        width == storage_width(vars_view(vars@)),
{
    let ghost views = vars_view(vars@);
    let mut width: u128 = 0;
    let mut k: usize = 0;
    while k < vars.len()
        invariant
            views == vars_view(vars@),
            vars_wf(views),
            k <= vars@.len(),
            width == offset_of(views, k as int),
            width <= k * 0xFFFF,
        decreases vars@.len() - k,
    {
        proof {
            lemma_offsets(views, k as int);
            assert(views[k as int].wf());
        }
        width = width + vars[k].length as u128;
        k += 1;
    }
    assert(views.take(views.len() as int) == views);
    width
}

/// Decodes a numeric field. A field shorter than eight bytes is put behind
/// zero bytes; of a longer one the first eight bytes are read.
pub fn parse_numeric_value(data: &[u8]) -> (value: Option<u64>)
    ensures
        value == numeric_decoded(data@),
{
    if data.len() >= 8 {
        ibm64_to_f64(slice_subrange(data, 0, 8)).0
    } else {
        let mut eight: Vec<u8> = Vec::with_capacity(8);
        let pad: usize = 8 - data.len();
        let mut i: usize = 0;
        while i < pad
            invariant
                i <= pad,
                eight@ == Seq::new(i as nat, |j: int| 0u8),
            decreases pad - i,
        {
            eight.push(0);
            assert(eight@ =~= Seq::new((i + 1) as nat, |j: int| 0u8));
            i += 1;
        }
        let mut k: usize = 0;
        while k < data.len()
            invariant
                k <= data@.len(),
                eight@ == Seq::new(pad as nat, |j: int| 0u8) + data@.subrange(0, k as int),
            decreases data@.len() - k,
        {
            eight.push(data[k]);
            assert(eight@ =~= Seq::new(pad as nat, |j: int| 0u8) + data@.subrange(0, k + 1));
            k += 1;
        }
        assert(data@.subrange(0, data@.len() as int) == data@);
        ibm64_to_f64(eight.as_slice()).0
    }
}

/// Decodes the field of one variable.
pub fn parse_cell(data: &[u8], variable: &VarMeta) -> (cell: Cell)
    requires
        data@.len() <= crate::text::MAX_TEXT_LEN,
    ensures
        cell@ == cell_decoded(variable@, data@),
{
    if variable.is_char {
        Cell::Character(decode_char(data))
    } else {
        Cell::Numeric(parse_numeric_value(data))
    }
}

/// Decodes one row: a value for each variable, each from its own field.
pub fn decode_row(vars: &Vec<VarMeta>, row: &[u8]) -> (decoded: XPTRow)
    requires
        vars_wf(vars_view(vars@)),
        row@.len() >= storage_width(vars_view(vars@)),
    ensures
        decoded@ == row_decoded(vars_view(vars@), row@),
{
    let ghost views = vars_view(vars@);
    let total: usize = row.len();
    let mut values: Vec<Cell> = Vec::new();
    let mut offset: usize = 0;
    let mut k: usize = 0;
    while k < vars.len()
        invariant
            views == vars_view(vars@),
            vars_wf(views),
            row@.len() >= storage_width(views),
            row@.len() == total,
            k <= vars@.len(),
            offset == offset_of(views, k as int),
            offset <= storage_width(views),
            values@.len() == k,
            forall|j: int| 0 <= j < k ==> (#[trigger] values@[j])@ == row_decoded(views, row@)[j],
        decreases vars@.len() - k,
    {
        proof {
            lemma_offsets(views, k as int);
            assert(views[k as int].wf());
        }
        let length = vars[k].length;
        let field = slice_subrange(row, offset, offset + length);
        assert(field@ == field_of(views, row@, k as int));
        values.push(parse_cell(field, &vars[k]));
        offset = offset + length;
        k += 1;
    }
    proof {
        lemma_offsets_start(views);
    }
    let decoded = XPTRow { values };
    assert(decoded@ =~= row_decoded(views, row@));
    decoded
}

/// The first variable starts at the start of the row.
pub proof fn lemma_offsets_start(vars: Seq<VarMetaView>)
    ensures
        offset_of(vars, 0) == 0,
{
    assert(vars.take(0).len() == 0);
}

/// Whether every byte from `from` on is filler.
fn tail_is_filler(block: &[u8], from: usize) -> (r: bool)
    requires
        from <= block@.len(),
    ensures
        r == all_filler(block@.subrange(from as int, block@.len() as int)),
{
    let ghost tail = block@.subrange(from as int, block@.len() as int);
    let mut i: usize = from;
    while i < block.len()
        invariant
            from <= i <= block@.len(),
            tail == block@.subrange(from as int, block@.len() as int),
            forall|j: int| 0 <= j < i - from ==> is_filler(#[trigger] tail[j]),
        decreases block@.len() - i,
    {
        if block[i] != 0x00 && block[i] != 0x20 {
            assert(!is_filler(tail[i - from]));
            return false;
        }
        i += 1;
    }
    true
}

/// Whether the block is a whole number of rows at `stride`, but for filler.
fn fits(block: &[u8], stride: u128) -> (r: bool)
    ensures
        r == stride_fits(block@, stride as nat),
{
    if stride == 0 {
        return false;
    }
    let total: usize = block.len();
    let rest: u128 = (total as u128) % stride;
    if rest == 0 {
        return true;
    }
    assert(rest <= total) by (nonlinear_arith)
        requires
            rest == (total as int) % (stride as int),
            stride > 0,
    ;
    tail_is_filler(block, total - (rest as usize))
}

/// Decodes a block of observations into rows.
///
/// The distance between rows is the rows' width where the block is a whole
/// number of such rows, or is so but for trailing filler; else that width
/// rounded up to a multiple of 8, on the same condition; else the block is
/// refused with `None`. The filler behind the last whole row is dropped.
pub fn decode_observations(vars: &Vec<VarMeta>, block: &[u8]) -> (rows: Option<Vec<XPTRow>>)
    requires
        vars_wf(vars_view(vars@)),
    ensures
        match rows {
            Some(rows) => observations_decoded(vars_view(vars@), block@) == Some(rows_view(rows@)),
            None => observations_decoded(vars_view(vars@), block@).is_none(),
        },
{
    let ghost views = vars_view(vars@);
    let variables: usize = vars.len();
    proof {
        lemma_width_bounds(views);
        assert(storage_width(views) <= variables * 0xFFFF);
    }
    let width: u128 = row_width(vars);
    let stride: u128 = if fits(block, width) {
        width
    } else {
        let padded: u128 = (width + 7) / 8 * 8;
        if fits(block, padded) {
            padded
        } else {
            return None;
        }
    };
    let total: usize = block.len();
    let count: usize = ((total as u128) / stride) as usize;
    let mut rows: Vec<XPTRow> = Vec::new();
    let mut i: usize = 0;
    while i < count
        invariant
            views == vars_view(vars@),
            vars_wf(views),
            total == block@.len(),
            width == storage_width(views),
            0 < width <= stride || (width == 0 && stride > 0),
            count == total as int / stride as int,
            i <= count,
            rows@.len() == i,
            forall|j: int|
                0 <= j < i ==> (#[trigger] rows@[j])@ == rows_decoded(views, block@, stride as nat)[j],
        decreases count - i,
    {
        proof {
            let c = count as int;
            let s = stride as int;
            let t = total as int;
            let ii = i as int;
            assert(c * s <= t) by (nonlinear_arith)
                requires
                    c == t / s,
                    s > 0,
                    t >= 0,
            ;
            assert(ii * s + s <= c * s) by (nonlinear_arith)
                requires
                    0 <= ii < c,
                    s > 0,
            ;
            assert(0 <= ii * s) by (nonlinear_arith)
                requires
                    0 <= ii,
                    s > 0,
            ;
        }
        let start: usize = (i as u128 * stride) as usize;
        let row = slice_subrange(block, start, start + width as usize);
        rows.push(decode_row(vars, row));
        i += 1;
    }
    assert(rows_view(rows@) =~= rows_decoded(views, block@, stride as nat));
    Some(rows)
}

} // verus!
