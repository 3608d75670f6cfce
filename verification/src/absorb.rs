//! The sponge-absorption circuit component: a reusable gadget that produces
//! the next sponge state as the element-wise field sum of a previous state
//! and a chunk, under one custom gate, binding both inputs to previously
//! committed cells via copy constraints.
//!
//! The gadget works over a model of the assignment table: cells hold either
//! a concrete field element in canonical limb form or an `Unknown`
//! placeholder (circuit structure may be built ahead of concrete
//! witnesses), and a region records every write, copy constraint and
//! selector activation. The field arithmetic itself is the Pallas base
//! field's, reached through [`fp_add`].

use vstd::prelude::*;
use halo2_proofs::pasta::group::ff::PrimeField;

verus! {

/// A prime-field element in canonical little-endian 64-bit limb form.
#[derive(Clone, Copy, PartialEq, Eq, Structural, Debug)]
pub struct Felt {
    pub l0: u64,
    pub l1: u64,
    pub l2: u64,
    pub l3: u64,
}

impl View for Felt {
    type V = Seq<u64>;

    open spec fn view(&self) -> Seq<u64> {
        seq![self.l0, self.l1, self.l2, self.l3]
    }
}

/// The element with the given limbs.
pub open spec fn felt_from(s: Seq<u64>) -> Felt {
    Felt { l0: s[0], l1: s[1], l2: s[2], l3: s[3] }
}

/// The canonical limb form of the field sum of two limb-form elements.
pub uninterp spec fn fp_sum(a: Seq<u64>, b: Seq<u64>) -> Seq<u64>;

/// Relies on `halo2_proofs::pasta::Fp` (the Pallas base field):
/// `from_raw` maps little-endian limbs to the congruent field element, `+`
/// is addition modulo the field's prime, and `to_repr` returns the sum's
/// canonical little-endian byte representation. The result is a function of
/// the two arguments alone.
#[verifier::external_body]
fn fp_add(a: &Felt, b: &Felt) -> (r: Felt)
    ensures
        r@ == fp_sum(a@, b@),
{
    let x = halo2_proofs::pasta::Fp::from_raw([a.l0, a.l1, a.l2, a.l3]);
    let y = halo2_proofs::pasta::Fp::from_raw([b.l0, b.l1, b.l2, b.l3]);
    let rep = (x + y).to_repr();
    Felt {
        l0: u64::from_le_bytes(rep[0..8].try_into().unwrap()),
        l1: u64::from_le_bytes(rep[8..16].try_into().unwrap()),
        l2: u64::from_le_bytes(rep[16..24].try_into().unwrap()),
        l3: u64::from_le_bytes(rep[24..32].try_into().unwrap()),
    }
}

/// A table cell value: a concrete field element, or not yet known. Unknown
/// values are not errors; they stand for witnesses that do not exist yet
/// while the table's shape is being laid out.
#[derive(Clone, Copy, PartialEq, Eq, Structural, Debug)]
pub enum CellValue {
    Unknown,
    Known(Felt),
}

/// Element-wise sum with unknown propagation: the sum is unknown whenever
/// either operand is unknown.
pub open spec fn cell_sum(a: CellValue, b: CellValue) -> CellValue {
    match (a, b) {
        (CellValue::Known(x), CellValue::Known(y)) => CellValue::Known(felt_from(fp_sum(x@, y@))),
        _ => CellValue::Unknown,
    }
}

/// Unknown propagation: if either operand of a cell sum is unknown, so is
/// the result.
pub proof fn lemma_unknown_propagates(a: CellValue, b: CellValue)
    ensures
        (a is Unknown || b is Unknown) ==> cell_sum(a, b) is Unknown,
        (a is Known && b is Known) ==> cell_sum(a, b) is Known,
{
}

/// Compute the cell sum of two table values.
pub fn add_cells(a: &CellValue, b: &CellValue) -> (r: CellValue)
    ensures
        r == cell_sum(*a, *b),
{
    match (a, b) {
        (CellValue::Known(x), CellValue::Known(y)) => {
            let z = fp_add(x, y);
            proof {
                assert(z@ == fp_sum(x@, y@));
                assert(z == felt_from(fp_sum(x@, y@)));
            }
            CellValue::Known(z)
        },
        _ => CellValue::Unknown,
    }
}

/// A cell assigned at a fixed position in the two-dimensional table: a
/// value plus its row and column. Cells are assigned once and never mutated
/// afterward.
#[derive(Clone, Copy, PartialEq, Eq, Structural, Debug)]
pub struct AssignedCell {
    pub value: CellValue,
    pub row: u64,
    pub col: u64,
}

/// The cell with the given value at the given position.
pub open spec fn placed(value: CellValue, row: u64, col: u64) -> AssignedCell {
    AssignedCell { value, row, col }
}

/// The row of cells that assigning the values of `cells` at `row`, one per
/// column from column zero on, produces.
pub open spec fn placed_row(cells: Seq<AssignedCell>, row: u64) -> Seq<AssignedCell> {
    Seq::new(cells.len(), |c: int| placed(cells[c].value, row, c as u64))
}

/// The copy constraints that copy-assigning `cells` at `row` records: each
/// fresh cell is bound, as a table cell, to the original cell it was copied
/// from.
pub open spec fn copy_pairs(cells: Seq<AssignedCell>, row: u64) -> Seq<(AssignedCell, AssignedCell)> {
    Seq::new(cells.len(), |c: int| (placed(cells[c].value, row, c as u64), cells[c]))
}

/// The shared column configuration: the number of advice columns the table
/// declares.
#[derive(Clone, Copy, PartialEq, Eq, Structural, Debug)]
pub struct CommonConfig {
    pub advice_cols: u64,
}

/// The key returned when a gate is declared. An assignment call quotes
/// it, and only then does that gate apply to the rows in question.
#[derive(Clone, Copy, PartialEq, Eq, Structural, Debug)]
pub struct Selector {
    pub id: u64,
}

/// The declaration-phase handle: how many selectors have been allocated,
/// and, for each registered absorb gate, its selector and its width.
pub struct ConstraintSystem {
    pub num_selectors: u64,
    pub absorb_gates: Vec<(u64, u64)>,
}

impl ConstraintSystem {
    /// An empty constraint system: no selectors, no gates.
    pub fn new() -> (r: Self)
        ensures
            r.num_selectors == 0,
            r.absorb_gates@ == Seq::<(u64, u64)>::empty(),
    {
        Self { num_selectors: 0, absorb_gates: Vec::new() }
    }
}

/// The one "synthesis failed" error kind, with the position of the failing
/// assignment. A failed synthesis invalidates the whole proof build.
#[derive(Clone, Copy, PartialEq, Eq, Structural, Debug)]
pub struct SynthesisError {
    pub row: u64,
    pub col: u64,
}

/// An in-progress region: the current row offset and the bookkeeping of
/// every write, copy constraint and selector activation made so far.
pub struct RegionCtx {
    /// The row the next assignment goes to.
    pub offset: u64,
    /// Every cell written so far, in order.
    pub writes: Vec<AssignedCell>,
    /// Every copy constraint recorded so far: (fresh cell, source cell).
    pub copies: Vec<(AssignedCell, AssignedCell)>,
    /// Every selector activation so far: (selector id, row).
    pub enabled: Vec<(u64, u64)>,
}

impl RegionCtx {
    /// Open a region starting at the given row.
    pub fn new(offset: u64) -> (r: Self)
        ensures
            r.offset == offset,
            r.writes@ == Seq::<AssignedCell>::empty(),
            r.copies@ == Seq::<(AssignedCell, AssignedCell)>::empty(),
            r.enabled@ == Seq::<(u64, u64)>::empty(),
    {
        Self { offset, writes: Vec::new(), copies: Vec::new(), enabled: Vec::new() }
    }

    /// Enable a selector at the current row.
    pub fn enable(&mut self, s: &Selector)
        ensures
            final(self).offset == old(self).offset,
            final(self).writes@ == old(self).writes@,
            final(self).copies@ == old(self).copies@,
            final(self).enabled@ == old(self).enabled@.push((s.id, old(self).offset)),
    {
        self.enabled.push((s.id, self.offset));
    }

    /// Move to the next row.
    pub fn next(&mut self)
        requires
            old(self).offset < u64::MAX,
        ensures
            final(self).offset == old(self).offset + 1,
            final(self).writes@ == old(self).writes@,
            final(self).copies@ == old(self).copies@,
            final(self).enabled@ == old(self).enabled@,
    {
        self.offset = self.offset + 1;
    }

    /// Assign a fresh value at the current row in the given column, when
    /// the column lies in the declared column set; assigning outside it is
    /// a synthesis error and leaves the region untouched.
    pub fn assign_advice(&mut self, config: &CommonConfig, col: u64, value: CellValue) -> (r:
        Result<AssignedCell, SynthesisError>)
        ensures
            r is Ok <==> col < config.advice_cols,
            r matches Ok(cell) ==> {
                &&& cell == placed(value, old(self).offset, col)
                &&& final(self).offset == old(self).offset
                &&& final(self).writes@ == old(self).writes@.push(cell)
                &&& final(self).copies@ == old(self).copies@
                &&& final(self).enabled@ == old(self).enabled@
            },
            r is Err ==> *final(self) == *old(self),
    {
        if col >= config.advice_cols {
            return Err(SynthesisError { row: self.offset, col });
        }
        let cell = AssignedCell { value, row: self.offset, col };
        self.writes.push(cell);
        Ok(cell)
    }

    /// Copy-assign an existing cell at the current row in the given column:
    /// the fresh cell takes the source cell's value, and a copy constraint
    /// binding the two table cells is recorded. Assigning outside the
    /// declared column set is a synthesis error and leaves the region
    /// untouched.
    pub fn copy_assign(&mut self, config: &CommonConfig, col: u64, cell: AssignedCell) -> (r:
        Result<AssignedCell, SynthesisError>)
        ensures
            r is Ok <==> col < config.advice_cols,
            r matches Ok(fresh) ==> {
                &&& fresh == placed(cell.value, old(self).offset, col)
                &&& final(self).offset == old(self).offset
                &&& final(self).writes@ == old(self).writes@.push(fresh)
                &&& final(self).copies@ == old(self).copies@.push((fresh, cell))
                &&& final(self).enabled@ == old(self).enabled@
            },
            r is Err ==> *final(self) == *old(self),
    {
        if col >= config.advice_cols {
            return Err(SynthesisError { row: self.offset, col });
        }
        let fresh = AssignedCell { value: cell.value, row: self.offset, col };
        self.writes.push(fresh);
        self.copies.push((fresh, cell));
        Ok(fresh)
    }
}

/// Copy an intermediate sponge state into the region at the current row:
/// cell `c` of the state goes to column `c`, and every fresh cell is bound
/// to its source by a copy constraint.
pub fn copy_state(ctx: &mut RegionCtx, config: &CommonConfig, prev_state: &Vec<AssignedCell>) -> (r:
    Result<Vec<AssignedCell>, SynthesisError>)
    ensures
        r is Ok <==> prev_state@.len() <= config.advice_cols,
        r matches Ok(out) ==> {
            &&& out@ == placed_row(prev_state@, old(ctx).offset)
            &&& final(ctx).offset == old(ctx).offset
            &&& final(ctx).writes@ == old(ctx).writes@ + out@
            &&& final(ctx).copies@ == old(ctx).copies@ + copy_pairs(prev_state@, old(ctx).offset)
            &&& final(ctx).enabled@ == old(ctx).enabled@
        },
        r is Err ==> *final(ctx) == *old(ctx),
{
    let n = prev_state.len();
    if n as u64 > config.advice_cols {
        return Err(SynthesisError { row: ctx.offset, col: config.advice_cols });
    }
    let mut out: Vec<AssignedCell> = Vec::new();
    let mut c: usize = 0;
    while c < n
        invariant
            n == prev_state@.len(),
            n <= config.advice_cols,
            0 <= c <= n,
            out@.len() == c,
            ctx.offset == old(ctx).offset,
            ctx.enabled@ == old(ctx).enabled@,
            out@ == placed_row(prev_state@, old(ctx).offset).take(c as int),
            ctx.writes@ == old(ctx).writes@ + out@,
            ctx.copies@ == old(ctx).copies@ + copy_pairs(prev_state@, old(ctx).offset).take(
                c as int,
            ),
        decreases n - c,
    {
        let ghost prev_out = out@;
        match ctx.copy_assign(config, c as u64, prev_state[c]) {
            Ok(fresh) => {
                out.push(fresh);
            },
            Err(e) => {
                proof {
                    assert(false);
                }
                return Err(e);
            },
        }
        proof {
            assert(out@ =~= placed_row(prev_state@, old(ctx).offset).take(c + 1));
            assert(ctx.writes@ =~= old(ctx).writes@ + out@);
            assert(ctx.copies@ =~= old(ctx).copies@ + copy_pairs(
                prev_state@,
                old(ctx).offset,
            ).take(c + 1));
        }
        c += 1;
    }
    proof {
        assert(out@ =~= placed_row(prev_state@, old(ctx).offset));
        assert(ctx.copies@ =~= old(ctx).copies@ + copy_pairs(prev_state@, old(ctx).offset));
    }
    Ok(out)
}

/// Every value of the row is known.
pub open spec fn all_known(row: Seq<CellValue>) -> bool {
    forall|c: int| 0 <= c < row.len() ==> (#[trigger] row[c]) is Known
}

/// The absorb gate over three equally wide rows: column-parallel, with no
/// cross-column mixing — for every column, the first two rows hold
/// concrete values and the third row holds exactly their field sum.
pub open spec fn absorb_gate_ok(
    prev_row: Seq<CellValue>,
    chunk_row: Seq<CellValue>,
    next_row: Seq<CellValue>,
) -> bool {
    &&& chunk_row.len() == prev_row.len()
    &&& next_row.len() == prev_row.len()
    &&& forall|c: int|
        0 <= c < prev_row.len() ==> (#[trigger] prev_row[c]) is Known && chunk_row[c] is Known
            && next_row[c] == cell_sum(prev_row[c], chunk_row[c])
}

/// Decide whether three rows satisfy the absorb gate: any third row that
/// deviates from the exact element-wise sum, and any row with a missing
/// value, fails.
pub fn check_absorb_gate(
    prev_row: &Vec<CellValue>,
    chunk_row: &Vec<CellValue>,
    next_row: &Vec<CellValue>,
) -> (ok: bool)
    ensures
        ok == absorb_gate_ok(prev_row@, chunk_row@, next_row@),
{
    let n = prev_row.len();
    if chunk_row.len() != n || next_row.len() != n {
        return false;
    }
    let mut c: usize = 0;
    while c < n
        invariant
            n == prev_row@.len(),
            chunk_row@.len() == n,
            next_row@.len() == n,
            0 <= c <= n,
            forall|m: int|
                0 <= m < c ==> (#[trigger] prev_row@[m]) is Known && chunk_row@[m] is Known
                    && next_row@[m] == cell_sum(prev_row@[m], chunk_row@[m]),
        decreases n - c,
    {
        let pv = prev_row[c];
        let cv = chunk_row[c];
        match (pv, cv) {
            (CellValue::Known(x), CellValue::Known(y)) => {
                let s = fp_add(&x, &y);
                proof {
                    assert(s == felt_from(fp_sum(x@, y@)));
                    assert(CellValue::Known(s) == cell_sum(prev_row@[c as int], chunk_row@[c as int]));
                }
                if !(next_row[c] == CellValue::Known(s)) {
                    return false;
                }
            },
            _ => {
                return false;
            },
        }
        c += 1;
    }
    true
}

/// Gate satisfaction of what the gadget assigns: rows whose third row is
/// the exact element-wise cell sum of the first two satisfy the absorb gate
/// precisely when both input rows are fully known — an unknown input
/// surfaces as an unknown output, which no gate accepts.
pub proof fn lemma_sum_rows_meet_gate(
    prev_row: Seq<CellValue>,
    chunk_row: Seq<CellValue>,
    next_row: Seq<CellValue>,
)
    requires
        chunk_row.len() == prev_row.len(),
        next_row.len() == prev_row.len(),
        forall|c: int|
            0 <= c < prev_row.len() ==> #[trigger] next_row[c] == cell_sum(
                prev_row[c],
                chunk_row[c],
            ),
    ensures
        absorb_gate_ok(prev_row, chunk_row, next_row) <==> (all_known(prev_row) && all_known(
            chunk_row,
        )),
{
    if all_known(prev_row) && all_known(chunk_row) {
        assert forall|c: int|
            0 <= c < prev_row.len() implies (#[trigger] prev_row[c]) is Known
            && chunk_row[c] is Known && next_row[c] == cell_sum(prev_row[c], chunk_row[c]) by {
            assert(prev_row[c] is Known);
            assert(chunk_row[c] is Known);
        }
        assert(absorb_gate_ok(prev_row, chunk_row, next_row));
    }
    if absorb_gate_ok(prev_row, chunk_row, next_row) {
        assert forall|c: int| 0 <= c < prev_row.len() implies (#[trigger] prev_row[c]) is Known by {
            assert(prev_row[c] is Known && chunk_row[c] is Known);
        }
        assert forall|c: int| 0 <= c < chunk_row.len() implies (
        #[trigger] chunk_row[c]) is Known by {
            assert(prev_row[c] is Known && chunk_row[c] is Known);
        }
        assert(all_known(prev_row) && all_known(chunk_row));
    }
}

/// A chip for absorbing a chunk into the previous sponge state.
pub struct AbsorbChip {
    prev_state: Vec<AssignedCell>,
    state: Vec<AssignedCell>,
}

impl View for AbsorbChip {
    type V = (Seq<AssignedCell>, Seq<AssignedCell>);

    closed spec fn view(&self) -> (Seq<AssignedCell>, Seq<AssignedCell>) {
        (self.prev_state@, self.state@)
    }
}

impl AbsorbChip {
    /// Constructor for a chip holding the previous sponge state and the
    /// chunk to absorb, two equally wide vectors of committed cells.
    pub fn new(prev_state: Vec<AssignedCell>, state: Vec<AssignedCell>) -> (r: Self)
        requires
            prev_state@.len() == state@.len(),
        ensures
            r@ == (prev_state@, state@),
    {
        Self { prev_state, state }
    }

    /// Declare the gadget's structure, once per circuit shape: allocate a
    /// fresh selector and register the absorb gate of the given width
    /// under it. Witnessing later quotes the returned selector.
    pub fn configure(common: &CommonConfig, meta: &mut ConstraintSystem, width: u64) -> (s:
        Selector)
        requires
            old(meta).num_selectors < u64::MAX,
        ensures
            s.id == old(meta).num_selectors,
            final(meta).num_selectors == old(meta).num_selectors + 1,
            final(meta).absorb_gates@ == old(meta).absorb_gates@.push((s.id, width)),
    {
        let s = Selector { id: meta.num_selectors };
        meta.num_selectors = meta.num_selectors + 1;
        meta.absorb_gates.push((s.id, width));
        s
    }

    /// Assignment phase, once per instance: enable the selector at the
    /// region's current row, copy-assign the previous state into that row
    /// and the chunk into the next (binding both to the caller's committed
    /// cells), and assign the element-wise cell sums — unknown wherever
    /// either operand is unknown — into the row after. Returns the fresh
    /// next-state cells, still live for further copy-assignment downstream.
    /// A width beyond the declared column set is a synthesis error and
    /// leaves the region untouched.
    pub fn synthesize(self, common: &CommonConfig, selector: &Selector, ctx: &mut RegionCtx) -> (r:
        Result<Vec<AssignedCell>, SynthesisError>)
        requires
            self@.0.len() == self@.1.len(),
            old(ctx).offset <= u64::MAX - 2,
        ensures
            r is Ok <==> self@.0.len() <= common.advice_cols,
            r matches Ok(out) ==> ({
                let w = self@.0.len() as int;
                let start = old(ctx).offset;
                &&& out@.len() == w
                &&& forall|c: int|
                    0 <= c < w ==> #[trigger] out@[c] == placed(
                        cell_sum(self@.0[c].value, self@.1[c].value),
                        (start + 2) as u64,
                        c as u64,
                    )
                &&& final(ctx).offset == start + 2
                &&& final(ctx).enabled@ == old(ctx).enabled@.push((selector.id, start))
                &&& final(ctx).copies@ == old(ctx).copies@ + copy_pairs(self@.0, start)
                    + copy_pairs(self@.1, (start + 1) as u64)
                &&& final(ctx).writes@ == old(ctx).writes@ + placed_row(self@.0, start)
                    + placed_row(self@.1, (start + 1) as u64) + out@
            }),
            r is Err ==> *final(ctx) == *old(ctx),
    {
        let w = self.prev_state.len();
        if w as u64 > common.advice_cols {
            return Err(SynthesisError { row: ctx.offset, col: common.advice_cols });
        }
        let ghost start = ctx.offset;
        ctx.enable(selector);
        let loaded_state = match copy_state(ctx, common, &self.prev_state) {
            Ok(v) => v,
            Err(e) => {
                proof {
                    assert(false);
                }
                return Err(e);
            },
        };
        ctx.next();
        let loaded_chunk = match copy_state(ctx, common, &self.state) {
            Ok(v) => v,
            Err(e) => {
                proof {
                    assert(false);
                }
                return Err(e);
            },
        };
        ctx.next();
        let ghost base_writes = ctx.writes@;
        let mut out: Vec<AssignedCell> = Vec::new();
        let mut c: usize = 0;
        while c < w
            invariant
                w == self@.0.len(),
                w == self@.1.len(),
                w <= common.advice_cols,
                loaded_state@ == placed_row(self@.0, start),
                loaded_chunk@ == placed_row(self@.1, (start + 1) as u64),
                start == old(ctx).offset,
                start + 2 <= u64::MAX,
                ctx.offset == start + 2,
                ctx.enabled@ == old(ctx).enabled@.push((selector.id, start)),
                ctx.copies@ == old(ctx).copies@ + copy_pairs(self@.0, start) + copy_pairs(
                    self@.1,
                    (start + 1) as u64,
                ),
                base_writes == old(ctx).writes@ + placed_row(self@.0, start) + placed_row(
                    self@.1,
                    (start + 1) as u64,
                ),
                ctx.writes@ == base_writes + out@,
                0 <= c <= w,
                out@.len() == c,
                forall|m: int|
                    0 <= m < c ==> #[trigger] out@[m] == placed(
                        cell_sum(self@.0[m].value, self@.1[m].value),
                        (start + 2) as u64,
                        m as u64,
                    ),
            decreases w - c,
        {
            proof {
                assert(loaded_state@[c as int] == placed(self@.0[c as int].value, start, c as u64));
                assert(loaded_chunk@[c as int] == placed(
                    self@.1[c as int].value,
                    (start + 1) as u64,
                    c as u64,
                ));
            }
            let sum = add_cells(&loaded_state[c].value, &loaded_chunk[c].value);
            match ctx.assign_advice(common, c as u64, sum) {
                Ok(cell) => {
                    out.push(cell);
                    proof {
                        assert(ctx.writes@ =~= base_writes + out@);
                    }
                },
                Err(e) => {
                    proof {
                        assert(false);
                    }
                    return Err(e);
                },
            }
            c += 1;
        }
        Ok(out)
    }
}

} // verus!
