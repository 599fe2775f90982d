//! Folding telemetry into the snapshot: the GPIO mask is overwritten, matrix
//! cells and shift registers are inserted or replaced by key, and every
//! accepted event advances the sequence number.

use crate::serial::unified::types::{
    MatrixCell, ParsedEvent, ParsedEventView, RawStateSnapshot, ShiftRegEntry, SnapshotView,
};
use crate::seqs::{first_where, lemma_first_where, lemma_first_where_is};
use vstd::prelude::*;

verus! {

/// The cells at `(row, col)`.
pub open spec fn cell_at(row: u8, col: u8) -> spec_fn(MatrixCell) -> bool {
    |c: MatrixCell| c.row == row && c.col == col
}

/// The entries of register `register_id`.
pub open spec fn register_at(register_id: u8) -> spec_fn(ShiftRegEntry) -> bool {
    |r: ShiftRegEntry| r.register_id == register_id
}

/// No two cells stand at the same intersection.
pub open spec fn cells_unique(m: Seq<MatrixCell>) -> bool {
    forall|i: int, j: int|
        0 <= i < j < m.len() ==> !(#[trigger] m[i].row == #[trigger] m[j].row && m[i].col
            == m[j].col)
}

/// No two entries are of the same register.
pub open spec fn registers_unique(s: Seq<ShiftRegEntry>) -> bool {
    forall|i: int, j: int|
        0 <= i < j < s.len() ==> #[trigger] s[i].register_id != #[trigger] s[j].register_id
}

/// The matrix with the cell at `(row, col)` set: replaced in place if the
/// intersection is known, added at the end otherwise.
pub open spec fn upsert_cell(m: Seq<MatrixCell>, row: u8, col: u8, is_connected: bool) -> Seq<
    MatrixCell,
> {
    let i = first_where(m, cell_at(row, col));
    if 0 <= i < m.len() {
        m.update(i, MatrixCell { row, col, is_connected })
    } else {
        m.push(MatrixCell { row, col, is_connected })
    }
}

/// The registers with register `register_id` set: replaced in place if the
/// register is known, added at the end otherwise.
pub open spec fn upsert_register(
    s: Seq<ShiftRegEntry>,
    register_id: u8,
    value: u8,
    timestamp: u64,
) -> Seq<ShiftRegEntry> {
    let i = first_where(s, register_at(register_id));
    if 0 <= i < s.len() {
        s.update(i, ShiftRegEntry { register_id, value, timestamp })
    } else {
        s.push(ShiftRegEntry { register_id, value, timestamp })
    }
}

/// The sequence number after one more accepted event. It stays at the
/// largest value once it has reached it.
pub open spec fn next_seq(seq: u64) -> u64 {
    if seq < u64::MAX {
        (seq + 1) as u64
    } else {
        seq
    }
}

impl ParsedEventView {
    /// Whether the event carries hardware state.
    pub open spec fn changes_state(self) -> bool {
        self is Gpio || self is MatrixDelta || self is Shift
    }
}

impl SnapshotView {
    /// Every matrix intersection and every register occurs once.
    pub open spec fn well_formed(self) -> bool {
        cells_unique(self.matrix) && registers_unique(self.shift_regs)
    }

    /// The snapshot after `event`.
    pub open spec fn apply(self, event: ParsedEventView) -> SnapshotView {
        match event {
            ParsedEventView::Gpio { mask, timestamp } => SnapshotView {
                gpio_mask: mask,
                last_update_us: timestamp,
                seq: next_seq(self.seq),
                ..self
            },
            ParsedEventView::MatrixDelta { row, col, is_connected, timestamp } => SnapshotView {
                matrix: upsert_cell(self.matrix, row, col, is_connected),
                last_update_us: timestamp,
                seq: next_seq(self.seq),
                ..self
            },
            ParsedEventView::Shift { register_id, value, timestamp } => SnapshotView {
                shift_regs: upsert_register(self.shift_regs, register_id, value, timestamp),
                last_update_us: timestamp,
                seq: next_seq(self.seq),
                ..self
            },
            _ => self,
        }
    }

    /// The state of the intersection `(row, col)`, if it is known.
    pub open spec fn cell(self, row: u8, col: u8) -> Option<bool> {
        let i = first_where(self.matrix, cell_at(row, col));
        if 0 <= i < self.matrix.len() {
            Some(self.matrix[i].is_connected)
        } else {
            None
        }
    }
}

/// Setting a cell keeps the intersections unique: the cell stands where
/// the intersection stood before, or at the end, and every other cell is
/// as it was.
pub proof fn lemma_upsert_cell(m: Seq<MatrixCell>, row: u8, col: u8, is_connected: bool)
    requires
        cells_unique(m),
    ensures
        cells_unique(upsert_cell(m, row, col, is_connected)),
        ({
            let u = upsert_cell(m, row, col, is_connected);
            let i = first_where(u, cell_at(row, col));
            &&& 0 <= i < u.len()
            &&& i == first_where(m, cell_at(row, col))
            &&& u[i] == MatrixCell { row, col, is_connected }
            &&& forall|j: int| 0 <= j < u.len() && j != i ==> !cell_at(row, col)(u[j])
            &&& forall|j: int| 0 <= j < m.len() && j != i ==> u[j] == m[j]
        }),
{
    let i = first_where(m, cell_at(row, col));
    let u = upsert_cell(m, row, col, is_connected);
    lemma_first_where(m, cell_at(row, col));
    lemma_first_where_is(u, cell_at(row, col), i);
    assert forall|a: int, b: int| 0 <= a < b < u.len() implies !(u[a].row == u[b].row && u[a].col
        == u[b].col) by {
        if a != i && b != i {
            assert(u[a] == m[a] && u[b] == m[b]);
        } else if i < m.len() {
            assert(m[i].row == row && m[i].col == col);
            if a == i {
                assert(u[b] == m[b]);
            } else {
                assert(u[a] == m[a]);
            }
        }
    }
    assert forall|j: int| 0 <= j < u.len() && j != i implies !cell_at(row, col)(u[j]) by {
        if i < m.len() {
            assert(m[i].row == row && m[i].col == col);
            assert(u[j] == m[j]);
            if j < i {
            } else {
                assert(!(m[i].row == m[j].row && m[i].col == m[j].col));
            }
        }
    }
}

/// Setting a register keeps the registers unique: the entry stands where
/// the register stood before, or at the end, and every other entry is as
/// it was.
pub proof fn lemma_upsert_register(
    s: Seq<ShiftRegEntry>,
    register_id: u8,
    value: u8,
    timestamp: u64,
)
    requires
        registers_unique(s),
    ensures
        registers_unique(upsert_register(s, register_id, value, timestamp)),
        ({
            let u = upsert_register(s, register_id, value, timestamp);
            let i = first_where(u, register_at(register_id));
            &&& 0 <= i < u.len()
            &&& i == first_where(s, register_at(register_id))
            &&& u[i] == ShiftRegEntry { register_id, value, timestamp }
            &&& forall|j: int| 0 <= j < u.len() && j != i ==> u[j].register_id != register_id
            &&& forall|j: int| 0 <= j < s.len() && j != i ==> u[j] == s[j]
        }),
{
    let i = first_where(s, register_at(register_id));
    let u = upsert_register(s, register_id, value, timestamp);
    lemma_first_where(s, register_at(register_id));
    lemma_first_where_is(u, register_at(register_id), i);
    assert forall|a: int, b: int| 0 <= a < b < u.len() implies u[a].register_id
        != u[b].register_id by {
        if a != i && b != i {
            assert(u[a] == s[a] && u[b] == s[b]);
        } else if i < s.len() {
            assert(s[i].register_id == register_id);
            if a == i {
                assert(u[b] == s[b]);
            } else {
                assert(u[a] == s[a]);
            }
        }
    }
    assert forall|j: int| 0 <= j < u.len() && j != i implies u[j].register_id != register_id by {
        if i < s.len() {
            assert(s[i].register_id == register_id);
            assert(u[j] == s[j]);
        }
    }
}

/// Folding an event into a well-formed snapshot leaves it well formed.
pub proof fn lemma_apply_well_formed(s: SnapshotView, event: ParsedEventView)
    requires
        s.well_formed(),
    ensures
        s.apply(event).well_formed(),
{
    match event {
        ParsedEventView::MatrixDelta { row, col, is_connected, timestamp } => {
            lemma_upsert_cell(s.matrix, row, col, is_connected);
        },
        ParsedEventView::Shift { register_id, value, timestamp } => {
            lemma_upsert_register(s.shift_regs, register_id, value, timestamp);
        },
        _ => {},
    }
}

/// Replaying a matrix event changes nothing but the sequence number and
/// the time of the last update: after the first or the second application
/// the matrix holds the same cells, the intersection is known with the
/// reported state and no other cell stands there, and the sequence number
/// has advanced by one for each application.
pub proof fn lemma_matrix_replay(
    s: SnapshotView,
    row: u8,
    col: u8,
    is_connected: bool,
    first: u64,
    second: u64,
)
    requires
        s.well_formed(),
        s.seq < u64::MAX - 1,
    ensures
        ({
            let once = s.apply(
                ParsedEventView::MatrixDelta { row, col, is_connected, timestamp: first },
            );
            let twice = once.apply(
                ParsedEventView::MatrixDelta { row, col, is_connected, timestamp: second },
            );
            &&& twice.matrix == once.matrix
            &&& twice.well_formed()
            &&& twice.cell(row, col) == Some(is_connected)
            &&& forall|i: int, j: int|
                0 <= i < twice.matrix.len() && 0 <= j < twice.matrix.len() && cell_at(row, col)(
                    twice.matrix[i],
                ) && cell_at(row, col)(twice.matrix[j]) ==> i == j
            &&& once.seq == s.seq + 1
            &&& twice.seq == s.seq + 2
            &&& twice.gpio_mask == s.gpio_mask
            &&& twice.shift_regs == s.shift_regs
        }),
{
    let once = s.apply(ParsedEventView::MatrixDelta { row, col, is_connected, timestamp: first });
    let twice = once.apply(
        ParsedEventView::MatrixDelta { row, col, is_connected, timestamp: second },
    );
    lemma_upsert_cell(s.matrix, row, col, is_connected);
    lemma_upsert_cell(once.matrix, row, col, is_connected);
    assert(twice.matrix =~= once.matrix);
}

impl RawStateSnapshot {
    /// A copy of the snapshot.
    pub fn duplicate(&self) -> (r: RawStateSnapshot)
        ensures
            r@ == self@,
    {
        let mut matrix: Vec<MatrixCell> = Vec::new();
        let mut i: usize = 0;
        while i < self.matrix.len()
            invariant
                i <= self.matrix.len(),
                matrix@ == self.matrix@.take(i as int),
            decreases self.matrix.len() - i,
        {
            matrix.push(self.matrix[i]);
            assert(matrix@ =~= self.matrix@.take(i + 1));
            i = i + 1;
        }
        assert(self.matrix@.take(self.matrix@.len() as int) =~= self.matrix@);
        let mut shift_regs: Vec<ShiftRegEntry> = Vec::new();
        let mut j: usize = 0;
        while j < self.shift_regs.len()
            invariant
                j <= self.shift_regs.len(),
                shift_regs@ == self.shift_regs@.take(j as int),
            decreases self.shift_regs.len() - j,
        {
            shift_regs.push(self.shift_regs[j]);
            assert(shift_regs@ =~= self.shift_regs@.take(j + 1));
            j = j + 1;
        }
        assert(self.shift_regs@.take(self.shift_regs@.len() as int) =~= self.shift_regs@);
        RawStateSnapshot {
            gpio_mask: self.gpio_mask,
            matrix,
            shift_regs,
            last_update_us: self.last_update_us,
            seq: self.seq,
        }
    }

    fn advance(&mut self, timestamp: u64)
        ensures
            final(self).gpio_mask == old(self).gpio_mask,
            final(self).matrix == old(self).matrix,
            final(self).shift_regs == old(self).shift_regs,
            final(self).last_update_us == timestamp,
            final(self).seq == next_seq(old(self).seq),
    {
        self.last_update_us = timestamp;
        if self.seq < u64::MAX {
            self.seq = self.seq + 1;
        }
    }

    fn set_cell(&mut self, row: u8, col: u8, is_connected: bool)
        ensures
            final(self).matrix@ == upsert_cell(old(self).matrix@, row, col, is_connected),
            final(self).gpio_mask == old(self).gpio_mask,
            final(self).shift_regs == old(self).shift_regs,
            final(self).last_update_us == old(self).last_update_us,
            final(self).seq == old(self).seq,
    {
        let mut i: usize = 0;
        while i < self.matrix.len()
            invariant
                i <= self.matrix.len(),
                *self == *old(self),
                forall|j: int| 0 <= j < i ==> !cell_at(row, col)(self.matrix@[j]),
            decreases self.matrix.len() - i,
        {
            if self.matrix[i].row == row && self.matrix[i].col == col {
                proof {
                    lemma_first_where_is(self.matrix@, cell_at(row, col), i as int);
                }
                self.matrix.set(i, MatrixCell { row, col, is_connected });
                return ;
            }
            i = i + 1;
        }
        proof {
            lemma_first_where_is(self.matrix@, cell_at(row, col), i as int);
        }
        self.matrix.push(MatrixCell { row, col, is_connected });
    }

    fn set_register(&mut self, register_id: u8, value: u8, timestamp: u64)
        ensures
            final(self).shift_regs@ == upsert_register(
                old(self).shift_regs@,
                register_id,
                value,
                timestamp,
            ),
            final(self).gpio_mask == old(self).gpio_mask,
            final(self).matrix == old(self).matrix,
            final(self).last_update_us == old(self).last_update_us,
            final(self).seq == old(self).seq,
    {
        let mut i: usize = 0;
        while i < self.shift_regs.len()
            invariant
                i <= self.shift_regs.len(),
                *self == *old(self),
                forall|j: int| 0 <= j < i ==> !register_at(register_id)(self.shift_regs@[j]),
            decreases self.shift_regs.len() - i,
        {
            if self.shift_regs[i].register_id == register_id {
                proof {
                    lemma_first_where_is(self.shift_regs@, register_at(register_id), i as int);
                }
                self.shift_regs.set(i, ShiftRegEntry { register_id, value, timestamp });
                return ;
            }
            i = i + 1;
        }
        proof {
            lemma_first_where_is(self.shift_regs@, register_at(register_id), i as int);
        }
        self.shift_regs.push(ShiftRegEntry { register_id, value, timestamp });
    }

    /// Folds `event` into the snapshot and says whether it carried state.
    pub fn apply_event(&mut self, event: &ParsedEvent) -> (changed: bool)
        ensures
            final(self)@ == old(self)@.apply(event@),
            changed == event@.changes_state(),
    {
        match event {
            ParsedEvent::Gpio { mask, timestamp } => {
                self.gpio_mask = *mask;
                self.advance(*timestamp);
                true
            },
            ParsedEvent::MatrixDelta { row, col, is_connected, timestamp } => {
                self.set_cell(*row, *col, *is_connected);
                self.advance(*timestamp);
                true
            },
            ParsedEvent::Shift { register_id, value, timestamp } => {
                self.set_register(*register_id, *value, *timestamp);
                self.advance(*timestamp);
                true
            },
            _ => false,
        }
    }
}

} // verus!
