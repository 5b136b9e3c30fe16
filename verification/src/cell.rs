use vstd::prelude::*;

verus! {

/// The state of one grid cell: `Empty` has never been populated (or was
/// cleared), `Alive` is currently live, and `Dead` was live until the last
/// generation and has just died. `Dead` and `Empty` both count as "not
/// alive", but a consumer may render them differently.
#[derive(Clone, Copy, Debug, PartialEq, Eq, Structural)]
pub enum Cell {
    Empty,
    Alive,
    Dead,
}

/// What toggling leaves in a cell: `Alive` becomes `Empty`, and any other
/// state (`Empty` or `Dead`) becomes `Alive`. A two-way switch, not a
/// three-state cycle.
pub open spec fn toggled(c: Cell) -> Cell {
    if c == Cell::Alive {
        Cell::Empty
    } else {
        Cell::Alive
    }
}

/// The fixed generation rule. A live cell survives exactly with 2 or 3 live
/// neighbors and otherwise becomes `Dead` (not `Empty`, so "just died" stays
/// distinguishable from "never alive"). A non-live cell becomes `Alive`
/// exactly with 3 live neighbors and is otherwise unchanged.
pub open spec fn transition(c: Cell, live_neighbors: nat) -> Cell {
    match c {
        Cell::Alive => if live_neighbors == 2 || live_neighbors == 3 {
            Cell::Alive
        } else {
            Cell::Dead
        },
        _ => if live_neighbors == 3 {
            Cell::Alive
        } else {
            c
        },
    }
}

/// Toggling is a two-cycle over {`Alive`, `Empty`}: `Alive` goes to `Empty`,
/// every non-`Alive` state goes to `Alive`, and toggling twice starting from
/// `Empty` returns to `Empty`.
pub proof fn lemma_toggle_two_cycle(c: Cell)
    ensures
        toggled(Cell::Alive) == Cell::Empty,
        toggled(Cell::Empty) == Cell::Alive,
        toggled(Cell::Dead) == Cell::Alive,
        c != Cell::Alive ==> toggled(c) == Cell::Alive,
        toggled(toggled(Cell::Empty)) == Cell::Empty,
{
}

/// The transition table, spelled out: a live cell with exactly 2 or 3 live
/// neighbors stays `Alive`; with fewer than 2 or more than 3 it becomes
/// `Dead`; a non-live cell with exactly 3 live neighbors becomes `Alive`;
/// every other non-live case is unchanged.
pub proof fn lemma_transition_rule(c: Cell, n: nat)
    ensures
        c == Cell::Alive && (n == 2 || n == 3) ==> transition(c, n) == Cell::Alive,
        c == Cell::Alive && (n < 2 || n > 3) ==> transition(c, n) == Cell::Dead,
        c != Cell::Alive && n == 3 ==> transition(c, n) == Cell::Alive,
        c != Cell::Alive && n != 3 ==> transition(c, n) == c,
{
}

/// Named probability thresholds for random seeding; each stands for the
/// percent chance that a cell is seeded live.
#[derive(Clone, Copy, Debug, PartialEq, Eq, Structural)]
pub enum Density {
    Low,
    Medium,
    High,
}

impl Density {
    /// The percent threshold this density stands for.
    pub open spec fn spec_percent(self) -> u8 {
        match self {
            Density::Low => 20,
            Density::Medium => 35,
            Density::High => 50,
        }
    }

    /// Returns the percent chance, out of 100, that a seeded cell is live.
    pub fn percent(self) -> (p: u8)
        ensures
            p == self.spec_percent(),
    {
        match self {
            Density::Low => 20,
            Density::Medium => 35,
            Density::High => 50,
        }
    }

    /// The cell that one random draw in `[0, 100)` seeds: `Alive` exactly
    /// when the draw falls strictly below this density's threshold, `Empty`
    /// otherwise.
    pub fn cell_for_draw(self, draw: u8) -> (c: Cell)
        ensures
            c == (if draw < self.spec_percent() {
                Cell::Alive
            } else {
                Cell::Empty
            }),
    {
        if draw < self.percent() {
            Cell::Alive
        } else {
            Cell::Empty
        }
    }
}

} // verus!
