//! Tile-grid environment descriptions.
//!
//! A simulation environment is described by a rectangular grid of tile
//! characters.  Only the grid structure is held here: loading the description
//! from disk and rendering it are jobs for the surrounding application.

use vstd::prelude::*;

verus! {

/// A rectangular grid of tile characters, one string per row.
pub struct TileGrid {
    pub rows_data: Vec<String>,
}

/// A cell coordinate in a tile grid.
#[derive(Clone, Copy, Debug, PartialEq, Eq, Structural)]
pub struct Cell {
    pub row: usize,
    pub col: usize,
}

/// The named environment layouts that can be selected.
#[derive(Clone, Copy, Debug, PartialEq, Eq, Structural)]
pub enum EnvironmentType {
    Intersection,
    Intermediate,
    Complex,
    Circle,
    Maze,
    Test,
}

/// The ways a grid can fail validation.
#[derive(Clone, Copy, Debug, PartialEq, Eq, Structural)]
pub enum EnvironmentError {
    /// The matrix representation is empty.
    EmptyGrid,
    /// The matrix representation has rows of different lengths.
    DifferentLengthRows,
}

impl EnvironmentError {
    /// A short human-readable description.
    pub fn message(&self) -> (r: &'static str)
        ensures
            self is EmptyGrid ==> r@ == "environment matrix representation is empty"@,
            self is DifferentLengthRows ==> r@
                == "environment matrix representation has rows of different lengths"@,
    {
        match self {
            EnvironmentError::EmptyGrid => "environment matrix representation is empty",
            EnvironmentError::DifferentLengthRows => "environment matrix representation has rows of different lengths",
        }
    }
}

impl TileGrid {
    /// Wrap a list of rows as a grid.
    pub fn new(tiles: Vec<String>) -> (r: TileGrid)
        ensures
            r.rows_data@ == tiles@,
    {
        TileGrid { rows_data: tiles }
    }

    /// Whether the grid has no rows.
    pub fn is_empty(&self) -> (r: bool)
        ensures
            r <==> self.rows_data@.len() == 0,
    {
        self.rows_data.len() == 0
    }

    /// The number of rows.
    pub fn nrows(&self) -> (r: usize)
        ensures
            r == self.rows_data@.len(),
    {
        self.rows_data.len()
    }

    /// The number of columns: the character count of the first row.
    pub fn ncols(&self) -> (r: usize)
        requires
            self.rows_data@.len() > 0,
        ensures
            r == self.rows_data@[0]@.len(),
    {
        self.rows_data[0].as_str().unicode_len()
    }

    /// The tile at the given coordinates, or nothing outside the grid.
    pub fn get_tile(&self, row: usize, col: usize) -> (r: Option<char>)
        ensures
            (row < self.rows_data@.len() && col < self.rows_data@[row as int]@.len()) <==> r
                is Some,
            r matches Some(c) ==> c == self.rows_data@[row as int]@[col as int],
    {
        if row >= self.rows_data.len() {
            return None;
        }
        let s: &str = self.rows_data[row].as_str();
        if col >= s.unicode_len() {
            return None;
        }
        Some(s.get_char(col))
    }

    /// Validate the grid: it must be non-empty and all rows must have the
    /// same length.
    pub fn validate(&self) -> (r: Result<(), EnvironmentError>)
        ensures
            self.rows_data@.len() == 0 <==> (r matches Err(e) && e is EmptyGrid),
            r matches Err(e) && e is DifferentLengthRows ==> exists|i: int|
                0 <= i < self.rows_data@.len() && (#[trigger] self.rows_data@[i])@.len()
                    != self.rows_data@[0]@.len(),
            r is Ok ==> self.rows_data@.len() > 0 && forall|i: int|
                0 <= i < self.rows_data@.len() ==> (#[trigger] self.rows_data@[i])@.len()
                    == self.rows_data@[0]@.len(),
    {
        let n: usize = self.rows_data.len();
        if n == 0 {
            return Err(EnvironmentError::EmptyGrid);
        }
        let cols: usize = self.ncols();
        let mut i: usize = 0;
        while i < n
            invariant
                i <= n,
                n == self.rows_data@.len(),
                n > 0,
                cols == self.rows_data@[0]@.len(),
                forall|i2: int|
                    0 <= i2 < i ==> (#[trigger] self.rows_data@[i2])@.len() == cols,
            decreases n - i,
        {
            if self.rows_data[i].as_str().unicode_len() != cols {
                return Err(EnvironmentError::DifferentLengthRows);
            }
            i += 1;
        }
        Ok(())
    }
}


impl TileGrid {
    /// The grid of the named environment layout.  Layouts that place only
    /// free-standing obstacles use the single solid tile.
    pub fn layout(which: EnvironmentType) -> (r: TileGrid)
        ensures
            r.rows_data@.len() > 0,
            forall|i: int|
                0 <= i < r.rows_data@.len() ==> (#[trigger] r.rows_data@[i])@.len()
                    == r.rows_data@[0]@.len(),
            which is Intersection ==> r.rows_data@.len() == 1,
            which is Intermediate ==> r.rows_data@.len() == 3,
            which is Complex ==> r.rows_data@.len() == 5,
            which is Circle ==> r.rows_data@.len() == 1,
            which is Maze ==> r.rows_data@.len() == 17,
            which is Test ==> r.rows_data@.len() == 4,
    {
        match which {
            EnvironmentType::Intersection => {
                proof {
                    reveal_strlit("┼");
                }
                TileGrid::new(vec!["┼".to_string()])
            },
            EnvironmentType::Intermediate => {
                proof {
                    reveal_strlit("┌┬┐ ");
                    reveal_strlit("┘└┼┬");
                    reveal_strlit("  └┘");
                }
                TileGrid::new(
                    vec!["┌┬┐ ".to_string(), "┘└┼┬".to_string(), "  └┘".to_string()],
                )
            },
            EnvironmentType::Complex => {
                proof {
                    reveal_strlit("┌─┼─┬─┐┌");
                    reveal_strlit("┼─┘┌┼┬┼┘");
                    reveal_strlit("┴┬─┴┼┘│ ");
                    reveal_strlit("┌┴┐┌┼─┴┬");
                    reveal_strlit("├─┴┘└──┘");
                }
                TileGrid::new(
                    vec![
                        "┌─┼─┬─┐┌".to_string(),
                        "┼─┘┌┼┬┼┘".to_string(),
                        "┴┬─┴┼┘│ ".to_string(),
                        "┌┴┐┌┼─┴┬".to_string(),
                        "├─┴┘└──┘".to_string(),
                    ],
                )
            },
            EnvironmentType::Circle => {
                proof {
                    reveal_strlit("█");
                }
                TileGrid::new(vec!["█".to_string()])
            },
            EnvironmentType::Maze => {
                proof {
                    reveal_strlit("               ");
                    reveal_strlit(" ╶─┬─┐┌─────┬┐ ");
                    reveal_strlit(" ┌─┤┌┤│╷╶──┬┘│ ");
                    reveal_strlit(" │╷│╵├┤├─┬┬┴┬┤ ");
                    reveal_strlit(" └┤├─┘││╷╵├─┘│ ");
                    reveal_strlit(" ╷│╵╷╶┤│├┐└╴┌┘ ");
                    reveal_strlit(" │├─┴╴│╵│└──┤╷ ");
                    reveal_strlit(" └┤┌─┐└┬┘┌─┐└┘ ");
                    reveal_strlit(" ┌┴┤╷├╴│┌┤╷└─┐ ");
                    reveal_strlit(" │┌┤├┘┌┘││└──┤ ");
                    reveal_strlit(" ╵│╵├┬┘┌┘└──┐╵ ");
                    reveal_strlit(" ┌┘╶┘├─┴─┐╷╷└┐ ");
                    reveal_strlit(" └─┬─┴──┐├┘├─┘ ");
                    reveal_strlit(" ┌┐│╷┌─╴││╶┘╶┐ ");
                    reveal_strlit(" │└┼┘├──┘├──┬┤ ");
                    reveal_strlit(" ╵╶┴─┘╶──┴──┴┘ ");
                }
                TileGrid::new(
                    vec![
                        "               ".to_string(),
                        " ╶─┬─┐┌─────┬┐ ".to_string(),
                        " ┌─┤┌┤│╷╶──┬┘│ ".to_string(),
                        " │╷│╵├┤├─┬┬┴┬┤ ".to_string(),
                        " └┤├─┘││╷╵├─┘│ ".to_string(),
                        " ╷│╵╷╶┤│├┐└╴┌┘ ".to_string(),
                        " │├─┴╴│╵│└──┤╷ ".to_string(),
                        " └┤┌─┐└┬┘┌─┐└┘ ".to_string(),
                        " ┌┴┤╷├╴│┌┤╷└─┐ ".to_string(),
                        " │┌┤├┘┌┘││└──┤ ".to_string(),
                        " ╵│╵├┬┘┌┘└──┐╵ ".to_string(),
                        " ┌┘╶┘├─┴─┐╷╷└┐ ".to_string(),
                        " └─┬─┴──┐├┘├─┘ ".to_string(),
                        " ┌┐│╷┌─╴││╶┘╶┐ ".to_string(),
                        " │└┼┘├──┘├──┬┤ ".to_string(),
                        " ╵╶┴─┘╶──┴──┴┘ ".to_string(),
                        "               ".to_string(),
                    ],
                )
            },
            EnvironmentType::Test => {
                proof {
                    reveal_strlit("┌┬┐├");
                    reveal_strlit("└┴┘┤");
                    reveal_strlit("│─ ┼");
                    reveal_strlit("╴╵╶╷");
                }
                TileGrid::new(
                    vec![
                        "┌┬┐├".to_string(),
                        "└┴┘┤".to_string(),
                        "│─ ┼".to_string(),
                        "╴╵╶╷".to_string(),
                    ],
                )
            },
        }
    }
}
} // verus!
