//! The game board: nine cells in row-major order, each empty or marked by
//! one of the two players, with placement and terminal-state queries.

use vstd::prelude::*;
use vstd::string::StringExecFns;

verus! {

/// A mark owned by one of the two players.
#[derive(Copy, Clone, PartialEq, Eq, Debug, Structural)]
pub enum Player {
    X,
    O,
}

impl Player {
    /// The opposing player: X and O swap.
    pub open spec fn spec_other(self) -> Player {
        match self {
            Player::X => Player::O,
            Player::O => Player::X,
        }
    }

    /// Returns the opposing player.
    #[verifier::when_used_as_spec(spec_other)]
    pub fn other(self) -> (r: Player)
        ensures
            r == self.spec_other(),
    {
        match self {
            Player::X => Player::O,
            Player::O => Player::X,
        }
    }

    /// The glyph that renders this player's mark.
    pub open spec fn spec_to_char(self) -> char {
        match self {
            Player::X => 'X',
            Player::O => 'O',
        }
    }

    /// Returns the glyph for this player's mark.
    #[verifier::when_used_as_spec(spec_to_char)]
    pub fn to_char(self) -> (r: char)
        ensures
            r == self.spec_to_char(),
    {
        match self {
            Player::X => 'X',
            Player::O => 'O',
        }
    }
}

/// The empty-cell indices below `n`, in increasing order.
pub open spec fn empty_cells_upto(s: Seq<Option<Player>>, n: int) -> Seq<usize>
    decreases n,
{
    if n <= 0 {
        Seq::empty()
    } else if s[n - 1] is None {
        empty_cells_upto(s, n - 1).push((n - 1) as usize)
    } else {
        empty_cells_upto(s, n - 1)
    }
}

/// How many cells below `n` are empty.
pub open spec fn empty_count_upto(s: Seq<Option<Player>>, n: int) -> nat
    decreases n,
{
    if n <= 0 {
        0
    } else if s[n - 1] is None {
        empty_count_upto(s, n - 1) + 1
    } else {
        empty_count_upto(s, n - 1)
    }
}

/// How many of the nine cells are empty.
pub open spec fn empty_count(s: Seq<Option<Player>>) -> nat {
    empty_count_upto(s, 9)
}

/// How many of the nine cells are occupied.
pub open spec fn occupied_count(s: Seq<Option<Player>>) -> nat {
    (9 - empty_count(s)) as nat
}

/// A board is full when no cell is empty.
pub open spec fn spec_full(s: Seq<Option<Player>>) -> bool {
    forall|i: int| 0 <= i < 9 ==> s[i] is Some
}

/// The cell indices of the eight winning lines, in the order they are
/// checked: three rows, three columns, two diagonals.
pub open spec fn spec_line(k: int) -> (int, int, int) {
    if k == 0 {
        (0, 1, 2)
    } else if k == 1 {
        (3, 4, 5)
    } else if k == 2 {
        (6, 7, 8)
    } else if k == 3 {
        (0, 3, 6)
    } else if k == 4 {
        (1, 4, 7)
    } else if k == 5 {
        (2, 5, 8)
    } else if k == 6 {
        (0, 4, 8)
    } else {
        (2, 4, 6)
    }
}

/// The player owning all three cells of line `k`, if any.
pub open spec fn line_owner(s: Seq<Option<Player>>, k: int) -> Option<Player> {
    let (a, b, c) = spec_line(k);
    if s[a] is Some && s[a] == s[b] && s[b] == s[c] {
        s[a]
    } else {
        None
    }
}

/// The owner of the first fully-owned line at or after `k`, if any.
pub open spec fn winner_from(s: Seq<Option<Player>>, k: int) -> Option<Player>
    decreases 8 - k,
{
    if k < 0 || k >= 8 {
        None
    } else if line_owner(s, k) is Some {
        line_owner(s, k)
    } else {
        winner_from(s, k + 1)
    }
}

/// The winner of the position: the owner of the first fully-owned line.
pub open spec fn spec_winner(s: Seq<Option<Player>>) -> Option<Player> {
    winner_from(s, 0)
}

/// The empty cells counted up to `n` are exactly `empty_count_upto(s, n)`
/// many; each one lies below `n`, is empty, and every empty index below
/// `n` appears; and the list is strictly increasing.
pub proof fn lemma_empty_cells_upto(s: Seq<Option<Player>>, n: int)
    requires
        0 <= n <= 9,
    ensures
        empty_cells_upto(s, n).len() == empty_count_upto(s, n),
        forall|k: int|
            0 <= k < empty_cells_upto(s, n).len() ==> #[trigger] empty_cells_upto(s, n)[k] < n
                && s[empty_cells_upto(s, n)[k] as int] is None,
        forall|i: int| 0 <= i < n && s[i] is None ==> empty_cells_upto(s, n).contains(i as usize),
        forall|k1: int, k2: int|
            0 <= k1 < k2 < empty_cells_upto(s, n).len() ==> #[trigger] empty_cells_upto(s, n)[k1]
                < #[trigger] empty_cells_upto(s, n)[k2],
    decreases n,
{
    if n > 0 {
        lemma_empty_cells_upto(s, n - 1);
        let e0 = empty_cells_upto(s, n - 1);
        let e1 = empty_cells_upto(s, n);
        if s[n - 1] is None {
            assert(e1 == e0.push((n - 1) as usize));
        } else {
            assert(e1 == e0);
        }
        assert forall|k: int| 0 <= k < e1.len() implies #[trigger] e1[k] < n && s[e1[k] as int]
            is None by {
            if s[n - 1] is None {
                assert(e1.len() == e0.len() + 1);
                if k < e0.len() {
                    assert(e1[k] == e0[k]);
                } else {
                    assert(e1[k] == (n - 1) as usize);
                }
            } else {
                assert(e1[k] == e0[k]);
            }
        }
        assert forall|k1: int, k2: int| 0 <= k1 < k2 < e1.len() implies #[trigger] e1[k1]
            < #[trigger] e1[k2] by {
            if s[n - 1] is None {
                assert(e1[k1] == e0[k1]);
                if k2 < e0.len() {
                    assert(e1[k2] == e0[k2]);
                } else {
                    assert(e1[k2] == (n - 1) as usize);
                    assert(e0[k1] < n - 1);
                }
            } else {
                assert(e1[k1] == e0[k1]);
                assert(e1[k2] == e0[k2]);
            }
        }
        assert forall|i: int| 0 <= i < n && s[i] is None implies e1.contains(i as usize) by {
            if i < n - 1 {
                let k = choose|k: int| 0 <= k < e0.len() && #[trigger] e0[k] == i as usize;
                assert(e1[k] == i as usize);
            } else {
                assert(e1.last() == (n - 1) as usize);
            }
        }
    }
}

/// Empty and occupied cells together account for all nine cells.
pub proof fn lemma_cell_counts(s: Seq<Option<Player>>)
    requires
        s.len() == 9,
    ensures
        empty_count(s) + occupied_count(s) == 9,
        spec_full(s) <==> empty_count(s) == 0,
{
    lemma_empty_count_upto_bound(s, 9);
}

/// Below `n` there are at most `n` empty cells, and there are none
/// exactly when every cell below `n` is occupied.
proof fn lemma_empty_count_upto_bound(s: Seq<Option<Player>>, n: int)
    requires
        0 <= n,
    ensures
        empty_count_upto(s, n) <= n,
        (empty_count_upto(s, n) == 0 <==> forall|i: int| 0 <= i < n ==> s[i] is Some),
    decreases n,
{
    if n > 0 {
        lemma_empty_count_upto_bound(s, n - 1);
    }
}

/// Marking an empty cell below `n` lowers the empty count by one and
/// leaves the count unchanged when the cell lies at or above `n`.
pub proof fn lemma_empty_count_update(s: Seq<Option<Player>>, j: int, p: Player, n: int)
    requires
        0 <= j < s.len(),
        s[j] is None,
        0 <= n <= s.len(),
    ensures
        empty_count_upto(s, n) == empty_count_upto(s.update(j, Some(p)), n) + if j < n {
            1nat
        } else {
            0nat
        },
    decreases n,
{
    if n > 0 {
        lemma_empty_count_update(s, j, p, n - 1);
        assert(s.update(j, Some(p))[n - 1] == if j == n - 1 {
            Some(p)
        } else {
            s[n - 1]
        });
    }
}

/// The 3x3 grid, stored row-major: cell (row, col) sits at index
/// `row * 3 + col`. A cell is `None` while empty and `Some(p)` once
/// player `p` has placed a mark there; marks are never removed.
#[derive(Copy, Clone, Debug)]
pub struct Board {
    cells: [Option<Player>; 9],
}

impl View for Board {
    type V = Seq<Option<Player>>;

    closed spec fn view(&self) -> Seq<Option<Player>> {
        self.cells@
    }
}

impl Board {
    /// Produces the empty board.
    pub fn new() -> (r: Board)
        ensures
            forall|i: int| 0 <= i < 9 ==> r@[i] is None,
    {
        Board { cells: [None; 9] }
    }

    /// Places `p` at (row, col). Fails, returning false and leaving the
    /// board unchanged, when the coordinate is out of bounds or the cell
    /// is already occupied; otherwise marks exactly that cell.
    pub fn place(&mut self, row: usize, col: usize, p: Player) -> (r: bool)
        ensures
            r == (row < 3 && col < 3 && old(self)@[row as int * 3 + col as int] is None),
            r ==> final(self)@ == old(self)@.update(row as int * 3 + col as int, Some(p)),
            !r ==> final(self)@ == old(self)@,
    {
        if row >= 3 || col >= 3 {
            return false;
        }
        let i: usize = row * 3 + col;
        if self.cells[i].is_none() {
            self.cells[i] = Some(p);
            true
        } else {
            false
        }
    }

    /// Produces the linear indices of all empty cells, in increasing
    /// order. One entry stands for each empty cell, so the list's length
    /// plus the occupied-cell count is always nine.
    pub fn available_moves(&self) -> (r: Vec<usize>)
        ensures
            r@ == empty_cells_upto(self@, 9),
            r@.len() + occupied_count(self@) == 9,
            forall|k: int|
                0 <= k < r@.len() ==> #[trigger] r@[k] < 9 && self@[r@[k] as int] is None,
            forall|i: int| 0 <= i < 9 && self@[i] is None ==> r@.contains(i as usize),
            forall|k1: int, k2: int| 0 <= k1 < k2 < r@.len() ==> #[trigger] r@[k1] < #[trigger] r@[k2],
    {
        let mut r: Vec<usize> = Vec::new();
        let mut i: usize = 0;
        while i < 9
            invariant
                i <= 9,
                r@ == empty_cells_upto(self@, i as int),
            decreases 9 - i,
        {
            if self.cells[i].is_none() {
                r.push(i);
            }
            i += 1;
        }
        proof {
            lemma_empty_cells_upto(self@, 9);
            lemma_cell_counts(self@);
        }
        r
    }

    /// True exactly when every cell is occupied.
    pub fn is_full(&self) -> (r: bool)
        ensures
            r == spec_full(self@),
    {
        let mut i: usize = 0;
        while i < 9
            invariant
                i <= 9,
                forall|k: int| 0 <= k < i ==> self@[k] is Some,
            decreases 9 - i,
        {
            if self.cells[i].is_none() {
                return false;
            }
            i += 1;
        }
        true
    }

    /// Returns the player owning the first fully-owned winning line, in
    /// the fixed row/column/diagonal order, or nothing when no line is
    /// fully owned by one player.
    pub fn winner(&self) -> (r: Option<Player>)
        ensures
            r == spec_winner(self@),
    {
        let mut k: usize = 0;
        while k < 8
            invariant
                k <= 8,
                spec_winner(self@) == winner_from(self@, k as int),
            decreases 8 - k,
        {
            let (a, b, c) = line_cells(k);
            if let (Some(p1), Some(p2), Some(p3)) = (self.cells[a], self.cells[b], self.cells[c]) {
                if p1 == p2 && p2 == p3 {
                    return Some(p1);
                }
            }
            k += 1;
        }
        None
    }

    /// Reads the cell at linear index `i`.
    pub(crate) fn cell(&self, i: usize) -> (r: Option<Player>)
        requires
            i < 9,
        ensures
            r == self@[i as int],
    {
        self.cells[i]
    }

    /// Marks the empty cell at linear index `i` for player `p`: marks
    /// are only ever placed into empty cells, never overwritten.
    pub(crate) fn set_cell(&mut self, i: usize, p: Player)
        requires
            i < 9,
            old(self)@[i as int] is None,
        ensures
            final(self)@ == old(self)@.update(i as int, Some(p)),
    {
        self.cells[i] = Some(p);
    }

    /// Renders one grid row as text, ending the line.
    fn row_text(&self, r: usize) -> (t: String)
        requires
            r < 3,
        ensures
            t@ == row_chars(self@, r as int),
    {
        let mut out = String::new();
        out.append(cell_text(self.cell(3 * r), false));
        out.append(cell_text(self.cell(3 * r + 1), false));
        out.append(cell_text(self.cell(3 * r + 2), true));
        out.append("\n");
        proof {
            reveal_strlit("\n");
            assert(out@ =~= row_chars(self@, r as int));
        }
        out
    }

    /// Renders the grid as text: each cell's glyph with bars between the
    /// columns, rules between the rows, and a blank line on either side.
    pub fn render(&self) -> (r: String)
        ensures
            r@ == render_chars(self@),
    {
        let mut out = String::new();
        out.append("\n");
        let row0 = self.row_text(0);
        out.append(row0.as_str());
        out.append("---+---+---\n");
        let row1 = self.row_text(1);
        out.append(row1.as_str());
        out.append("---+---+---\n");
        let row2 = self.row_text(2);
        out.append(row2.as_str());
        out.append("\n");
        proof {
            assert(out@ =~= render_chars(self@));
        }
        out
    }

    /// Writes the rendered grid to the writer, handing back whatever the
    /// writer answered.
    pub fn print_to<W: std::io::Write>(&self, w: &mut W) -> (r: Result<(), std::io::Error>) {
        let text = self.render();
        write_text(w, text.as_str())
    }
}

/// Declares std::io::Error, the error a writer can answer with, so that
/// it can appear in signatures; the library looks inside no value of it.
#[verifier::external_type_specification]
#[verifier::external_body]
pub struct ExIoError(std::io::Error);

/// Relies on std::io::Write::write_all: delivers the bytes of `s` to the
/// writer and reports the writer's outcome, about which nothing more can
/// be promised here.
#[verifier::external_body]
fn write_text<W: std::io::Write>(w: &mut W, s: &str) -> (r: Result<(), std::io::Error>) {
    w.write_all(s.as_bytes())
}

/// The glyph drawn for a cell: the owner's mark, or a dot while empty.
pub open spec fn glyph(c: Option<Player>) -> char {
    match c {
        Some(p) => p.spec_to_char(),
        None => '.',
    }
}

/// One rendered grid row: the three glyphs of board row `r`, spaced and
/// separated by vertical bars, ending the line.
pub open spec fn row_chars(s: Seq<Option<Player>>, r: int) -> Seq<char> {
    seq![
        ' ',
        glyph(s[3 * r]),
        ' ',
        '|',
        ' ',
        glyph(s[3 * r + 1]),
        ' ',
        '|',
        ' ',
        glyph(s[3 * r + 2]),
        '\n',
    ]
}

/// The horizontal rule drawn between grid rows.
pub open spec fn sep_chars() -> Seq<char> {
    "---+---+---\n"@
}

/// The full rendered grid: a blank line, the three rows with rules
/// between them, and a closing blank line.
pub open spec fn render_chars(s: Seq<Option<Player>>) -> Seq<char> {
    "\n"@ + row_chars(s, 0) + sep_chars() + row_chars(s, 1) + sep_chars() + row_chars(s, 2)
        + "\n"@
}

/// The text drawn for one cell: its glyph, followed by a bar unless the
/// cell ends its row.
fn cell_text(c: Option<Player>, last: bool) -> (r: &'static str)
    ensures
        r@ == if last {
            seq![' ', glyph(c)]
        } else {
            seq![' ', glyph(c), ' ', '|']
        },
{
    match (c, last) {
        (Some(Player::X), false) => {
            proof {
                reveal_strlit(" X |");
            }
            " X |"
        },
        (Some(Player::O), false) => {
            proof {
                reveal_strlit(" O |");
            }
            " O |"
        },
        (None, false) => {
            proof {
                reveal_strlit(" . |");
            }
            " . |"
        },
        (Some(Player::X), true) => {
            proof {
                reveal_strlit(" X");
            }
            " X"
        },
        (Some(Player::O), true) => {
            proof {
                reveal_strlit(" O");
            }
            " O"
        },
        (None, true) => {
            proof {
                reveal_strlit(" .");
            }
            " ."
        },
    }
}

/// The three cell indices of winning line `k`.
fn line_cells(k: usize) -> (r: (usize, usize, usize))
    requires
        k < 8,
    ensures
        (r.0 as int, r.1 as int, r.2 as int) == spec_line(k as int),
        r.0 < 9 && r.1 < 9 && r.2 < 9,
{
    match k {
        0 => (0, 1, 2),
        1 => (3, 4, 5),
        2 => (6, 7, 8),
        3 => (0, 3, 6),
        4 => (1, 4, 7),
        5 => (2, 5, 8),
        6 => (0, 4, 8),
        _ => (2, 4, 6),
    }
}

/// No winner is reported while no line at or after `j` is fully owned.
proof fn lemma_winner_from_none(s: Seq<Option<Player>>, j: int)
    requires
        forall|k: int| j <= k < 8 ==> #[trigger] line_owner(s, k) is None,
    ensures
        winner_from(s, j) is None,
    decreases 8 - j,
{
    if 0 <= j < 8 {
        lemma_winner_from_none(s, j + 1);
    }
}

/// A line at or after `j` fully owned by `p` makes `p` the winner of the
/// scan from `j`, as long as no line at or after `j` is owned by the
/// opponent.
proof fn lemma_winner_from_line(s: Seq<Option<Player>>, j: int, k: int, p: Player)
    requires
        0 <= j <= k < 8,
        line_owner(s, k) == Some(p),
        forall|k2: int| j <= k2 < 8 ==> #[trigger] line_owner(s, k2) != Some(p.spec_other()),
    ensures
        winner_from(s, j) == Some(p),
    decreases 8 - j,
{
    if line_owner(s, j) is Some {
        assert(line_owner(s, j) != Some(p.spec_other()));
    } else {
        lemma_winner_from_line(s, j + 1, k, p);
    }
}

/// With no line fully owned by one player there is no winner.
pub proof fn lemma_winner_none(s: Seq<Option<Player>>)
    requires
        forall|k: int| 0 <= k < 8 ==> #[trigger] line_owner(s, k) is None,
    ensures
        spec_winner(s) is None,
{
    lemma_winner_from_none(s, 0);
}

/// A line fully owned by `p` makes `p` the winner, as long as no line is
/// fully owned by the opposing player.
pub proof fn lemma_winner_line(s: Seq<Option<Player>>, k: int, p: Player)
    requires
        0 <= k < 8,
        line_owner(s, k) == Some(p),
        forall|k2: int| 0 <= k2 < 8 ==> #[trigger] line_owner(s, k2) != Some(p.spec_other()),
    ensures
        spec_winner(s) == Some(p),
{
    lemma_winner_from_line(s, 0, k, p);
}

/// Every board view has exactly nine cells.
pub broadcast proof fn lemma_board_len(b: Board)
    ensures
        (#[trigger] b@).len() == 9,
{
}

} // verus!
