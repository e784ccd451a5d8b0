//! The highlight policy of the table: each row has 24 cells, one per hour of
//! the day, and the single cell whose column equals the row's hour is active —
//! active-and-local when the row's zone is the machine's own zone.
use vstd::prelude::*;

verus! {

/// The highlight state of one table cell.
#[derive(PartialEq, Eq, Structural, Clone, Copy, Debug)]
pub enum CellState {
    Inactive,
    Active,
    ActiveLocal,
}

/// The state of the cell in column `col` of a row whose zone's hour is
/// `row_hour`.
pub open spec fn cell_state(row_hour: int, local_row: bool, col: int) -> CellState {
    if col == row_hour {
        if local_row {
            CellState::ActiveLocal
        } else {
            CellState::Active
        }
    } else {
        CellState::Inactive
    }
}

/// Whether the machine's own zone (if any) names this row's zone.
pub open spec fn local_matches(name: Seq<char>, local: Option<Seq<char>>) -> bool {
    match local {
        Option::Some(l) => l == name,
        Option::None => false,
    }
}

/// The 24 cell states of one row.
pub fn row_states(row_hour: u8, local_row: bool) -> (r: Vec<CellState>)
    requires
        row_hour < 24,
    ensures
        r@.len() == 24,
        forall|c: int| 0 <= c < 24 ==> r@[c] == cell_state(row_hour as int, local_row, c),
{
    let mut states: Vec<CellState> = Vec::new();
    let mut c: u8 = 0;
    while c < 24
        invariant
            0 <= c <= 24,
            row_hour < 24,
            states@.len() == c,
            forall|j: int| 0 <= j < c ==> states@[j] == cell_state(row_hour as int, local_row, j),
        decreases 24 - c,
    {
        if c == row_hour {
            if local_row {
                states.push(CellState::ActiveLocal);
            } else {
                states.push(CellState::Active);
            }
        } else {
            states.push(CellState::Inactive);
        }
        c = c + 1;
    }
    states
}

/// Law: a row has exactly one cell that is active or active-and-local — the
/// cell in the column of the row's own hour — and every other cell is
/// inactive.
pub proof fn lemma_exactly_one_active(row_hour: int, local_row: bool)
    requires
        0 <= row_hour < 24,
    ensures
        cell_state(row_hour, local_row, row_hour) != CellState::Inactive,
        forall|c: int|
            0 <= c < 24 && c != row_hour ==> cell_state(row_hour, local_row, c)
                == CellState::Inactive,
{
}

/// Law: when the machine's own zone is unset or unknown, no cell of any row is
/// active-and-local.
pub proof fn lemma_no_local_without_override(row_hour: int, name: Seq<char>, col: int)
    ensures
        cell_state(row_hour, local_matches(name, Option::None), col) != CellState::ActiveLocal,
{
}

/// Law: when the machine's own zone names one of the rows' zones, exactly that
/// row carries the active-and-local cell (in the column of its hour), and no
/// other row carries one.
pub proof fn lemma_local_row_unique(pairs: Seq<(Seq<char>, int)>, local: Seq<char>)
    requires
        forall|i: int, j: int| 0 <= i < j < pairs.len() ==> pairs[i].0 != pairs[j].0,
    ensures
        forall|i: int, c: int|
            0 <= i < pairs.len() ==> (#[trigger] cell_state(
                pairs[i].1,
                local_matches(pairs[i].0, Option::Some(local)),
                c,
            ) == CellState::ActiveLocal <==> pairs[i].0 == local && c == pairs[i].1),
        forall|i: int, j: int|
            0 <= i < pairs.len() && 0 <= j < pairs.len() && (#[trigger] pairs[i]).0 == local && (
            #[trigger] pairs[j]).0 == local ==> i == j,
{
    assert forall|i: int, j: int|
        0 <= i < pairs.len() && 0 <= j < pairs.len() && (#[trigger] pairs[i]).0 == local && (
        #[trigger] pairs[j]).0 == local implies i == j by {
        if i < j {
            assert(pairs[i].0 != pairs[j].0);
        } else if j < i {
            assert(pairs[j].0 != pairs[i].0);
        }
    }
}

} // verus!
