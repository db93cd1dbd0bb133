//! The maze: a grid of cells, one character each. `+`, `-` and `|` are
//! textured walls, `g` is the goal wall, a space is open floor. The grid is
//! parsed from the bytes of a text file, one row per line; rows may be
//! jagged, and any index outside the grid counts as blocked.

use vstd::prelude::*;

verus! {

/// Upper bound on rows, row length and block size that the engine accepts;
/// it keeps every world coordinate product comfortably inside `i64`.
pub const MAZE_DIM_MAX: usize = 4096;

pub struct Maze {
    pub grid: Vec<Vec<char>>,
}

/// The grid that parsing a byte string yields: rows split on line feeds,
/// every other byte one cell. A final line without a trailing line feed is
/// still a row; a trailing line feed adds no empty row.
pub open spec fn spec_parse(s: Seq<u8>, cur: Seq<char>, acc: Seq<Seq<char>>) -> Seq<Seq<char>>
    decreases s.len(),
{
    if s.len() == 0 {
        if cur.len() == 0 {
            acc
        } else {
            acc.push(cur)
        }
    } else if s[0] == 10 {
        spec_parse(s.skip(1), Seq::empty(), acc.push(cur))
    } else {
        spec_parse(s.skip(1), cur.push(s[0] as char), acc)
    }
}

impl Maze {
    /// The rows of the maze as mathematical sequences.
    pub open spec fn cells(&self) -> Seq<Seq<char>> {
        self.grid.deep_view()
    }

    pub open spec fn dims_bounded(&self) -> bool {
        &&& self.cells().len() <= MAZE_DIM_MAX
        &&& forall|r: int|
            0 <= r < self.cells().len() ==> #[trigger] self.cells()[r].len() <= MAZE_DIM_MAX
    }

    /// The cell at (row, col) is inside the grid and open floor.
    pub open spec fn spec_is_open(&self, col: int, row: int) -> bool {
        &&& 0 <= row < self.cells().len()
        &&& 0 <= col < self.cells()[row].len()
        &&& self.cells()[row][col] == ' '
    }

    /// Parses the bytes of a maze file into a grid, one row per line.
    pub fn from_bytes(bytes: &Vec<u8>) -> (m: Maze)
        ensures
            m.cells() == spec_parse(bytes@, Seq::<char>::empty(), Seq::<Seq<char>>::empty()),
    {
        let ghost full: Seq<u8> = bytes@;
        let mut grid: Vec<Vec<char>> = Vec::new();
        let mut cur: Vec<char> = Vec::new();
        let n: usize = bytes.len();
        let mut i: usize = 0;
        proof {
            assert(bytes@.skip(0) =~= bytes@);
            assert(grid.deep_view() =~= Seq::<Seq<char>>::empty());
            assert(cur@ =~= Seq::<char>::empty());
        }
        while i < n
            invariant
                i <= n,
                n == bytes.len(),
                spec_parse(bytes@.skip(i as int), cur@, grid.deep_view()) == spec_parse(
                    bytes@,
                    Seq::<char>::empty(),
                    Seq::<Seq<char>>::empty(),
                ),
            decreases n - i,
        {
            let ghost pre_grid = grid.deep_view();
            let ghost pre_cur = cur@;
            let b: u8 = bytes[i];
            proof {
                assert(bytes@.skip(i as int)[0] == bytes@[i as int]);
                assert(bytes@.skip(i as int).skip(1) =~= bytes@.skip(i as int + 1));
            }
            if b == 10 {
                let ghost old_vecs = grid@;
                grid.push(cur);
                cur = Vec::new();
                proof {
                    let gv = grid.deep_view();
                    assert forall|k: int| 0 <= k < pre_grid.len() implies gv[k] == pre_grid[k] by {
                        assert(grid@[k] == old_vecs[k]);
                    }
                    assert(gv[pre_grid.len() as int] =~= pre_cur);
                    assert(gv =~= pre_grid.push(pre_cur));
                    assert(cur@ =~= Seq::<char>::empty());
                }
            } else {
                cur.push(b as char);
                proof {
                    assert(cur@ =~= pre_cur.push(b as char));
                }
            }
            i = i + 1;
        }
        proof {
            assert(bytes@.skip(n as int) =~= Seq::<u8>::empty());
        }
        if cur.len() > 0 {
            let ghost pre_grid = grid.deep_view();
            let ghost pre_cur = cur@;
            let ghost old_vecs = grid@;
            grid.push(cur);
            proof {
                let gv = grid.deep_view();
                assert forall|k: int| 0 <= k < pre_grid.len() implies gv[k] == pre_grid[k] by {
                    assert(grid@[k] == old_vecs[k]);
                }
                assert(gv[pre_grid.len() as int] =~= pre_cur);
                assert(gv =~= pre_grid.push(pre_cur));
            }
        }
        Maze { grid }
    }

    pub fn rows(&self) -> (n: usize)
        ensures
            n == self.cells().len(),
    {
        self.grid.len()
    }

    pub fn row_len(&self, row: usize) -> (n: usize)
        requires
            row < self.cells().len(),
        ensures
            n == self.cells()[row as int].len(),
    {
        self.grid[row].len()
    }

    /// The character at (row, col).
    pub fn cell_at(&self, row: usize, col: usize) -> (c: char)
        requires
            row < self.cells().len(),
            col < self.cells()[row as int].len(),
        ensures
            c == self.cells()[row as int][col as int],
    {
        self.grid[row][col]
    }

    /// True when (row, col) lies inside the grid and is open floor; any
    /// index outside the grid counts as blocked.
    pub fn is_open(&self, col: usize, row: usize) -> (r: bool)
        ensures
            r == self.spec_is_open(col as int, row as int),
    {
        if row < self.grid.len() {
            let line: &Vec<char> = &self.grid[row];
            if col < line.len() {
                line[col] == ' '
            } else {
                false
            }
        } else {
            false
        }
    }
}

/// The maze cell that a non-negative fixed-point world coordinate lies in;
/// negative coordinates saturate to cell 0.
pub open spec fn spec_cell_of_fp(v: int, block: int) -> int {
    if v < 0 {
        0
    } else {
        (v / 65536) / block
    }
}

/// Converts a fixed-point world coordinate to its maze cell index.
pub fn cell_of_fp(v: i64, block: usize) -> (c: usize)
    requires
        1 <= block,
        v <= 0x4000_0000_0000,
    ensures
        c == spec_cell_of_fp(v as int, block as int),
        c <= 0x4000_0000,
{
    if v < 0 {
        0
    } else {
        let w: u64 = (v as u64) / 65536;
        assert(w as int / (block as u64) as int <= w) by (nonlinear_arith)
            requires 1 <= block as u64,
        ;
        (w / (block as u64)) as usize
    }
}

/// World coordinates (fixed point) of the first `g` cell in row-major
/// order, or (0, 0) when the maze has none; a cell's world position is its
/// index scaled by the block size.
pub fn get_goal_position(maze: &Maze, block_size: usize) -> (g: (i64, i64))
    requires
        maze.dims_bounded(),
        1 <= block_size <= MAZE_DIM_MAX,
    ensures
        (exists|r: int, c: int|
            0 <= r < maze.cells().len() && 0 <= c < maze.cells()[r].len()
                && #[trigger] maze.cells()[r][c] == 'g') ==> exists|r: int, c: int|
            {
                &&& 0 <= r < maze.cells().len()
                &&& 0 <= c < maze.cells()[r].len()
                &&& #[trigger] maze.cells()[r][c] == 'g'
                &&& g.0 == c * block_size * 65536
                &&& g.1 == r * block_size * 65536
                &&& forall|r2: int, c2: int|
                    0 <= r2 < maze.cells().len() && 0 <= c2 < maze.cells()[r2].len() && (r2 < r
                        || (r2 == r && c2 < c)) ==> #[trigger] maze.cells()[r2][c2] != 'g'
            },
        (forall|r: int, c: int|
            0 <= r < maze.cells().len() && 0 <= c < maze.cells()[r].len()
                ==> #[trigger] maze.cells()[r][c] != 'g') ==> g == (0i64, 0i64),
{
    let rows: usize = maze.rows();
    let mut row: usize = 0;
    while row < rows
        invariant
            row <= rows,
            rows == maze.cells().len(),
            maze.dims_bounded(),
            1 <= block_size <= MAZE_DIM_MAX,
            forall|r2: int, c2: int|
                0 <= r2 < row && 0 <= c2 < maze.cells()[r2].len() ==> #[trigger] maze.cells(
                )[r2][c2] != 'g',
        decreases rows - row,
    {
        let cols: usize = maze.row_len(row);
        let mut col: usize = 0;
        while col < cols
            invariant
                col <= cols,
                row < rows,
                rows == maze.cells().len(),
                cols == maze.cells()[row as int].len(),
                maze.dims_bounded(),
                1 <= block_size <= MAZE_DIM_MAX,
                forall|r2: int, c2: int|
                    0 <= r2 < row && 0 <= c2 < maze.cells()[r2].len() ==> #[trigger] maze.cells(
                    )[r2][c2] != 'g',
                forall|c2: int|
                    0 <= c2 < col ==> #[trigger] maze.cells()[row as int][c2] != 'g',
            decreases cols - col,
        {
            if maze.cell_at(row, col) == 'g' {
                assert(col * block_size * 65536 <= 0x1000_0000_0000_0000) by (nonlinear_arith)
                    requires col <= MAZE_DIM_MAX, block_size <= MAZE_DIM_MAX,
                ;
                assert(row * block_size * 65536 <= 0x1000_0000_0000_0000) by (nonlinear_arith)
                    requires row <= MAZE_DIM_MAX, block_size <= MAZE_DIM_MAX,
                ;
                let gx: i64 = (col as i64) * (block_size as i64) * 65536;
                let gy: i64 = (row as i64) * (block_size as i64) * 65536;
                return (gx, gy);
            }
            col = col + 1;
        }
        row = row + 1;
    }
    (0, 0)
}

} // verus!
