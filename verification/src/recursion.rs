use vstd::prelude::*;

verus! {

/// One cell of a maze grid, as read from its drawing: a wall, an open cell,
/// the end marker, the start marker, or a character the drawing alphabet
/// does not know.
#[derive(Clone, Copy, Debug, PartialEq, Eq)]
pub enum MazeTile {
    Empty,
    Wall,
    End,
    Start,
    Incompatible(char),
}

/// Building a maze can fail only on a drawing that uses a character outside
/// the tile alphabet `'#'`, `' '`, `'S'`, `'E'`.
#[derive(Clone, Copy, Debug)]
pub enum MazeError {
    IncompatibleTile(MazeTile),
}

/// The tile a drawing character denotes.
pub open spec fn spec_tile_of(c: char) -> MazeTile {
    if c == '#' {
        MazeTile::Wall
    } else if c == ' ' {
        MazeTile::Empty
    } else if c == 'E' {
        MazeTile::End
    } else if c == 'S' {
        MazeTile::Start
    } else {
        MazeTile::Incompatible(c)
    }
}

/// Whether a drawing character belongs to the tile alphabet.
pub open spec fn tile_ok(c: char) -> bool {
    !(spec_tile_of(c) is Incompatible)
}

/// The row of tiles a row of drawing characters denotes.
pub open spec fn tiles_of_row(row: Seq<char>) -> Seq<MazeTile> {
    Seq::new(row.len(), |j: int| spec_tile_of(row[j]))
}

/// A drawing as a sequence of rows of characters.
pub open spec fn grid_of(input: Vec<Vec<char>>) -> Seq<Seq<char>> {
    Seq::new(input@.len(), |i: int| input@[i]@)
}

/// Cell `(p, q)` lies in the grid and comes before the row-major position
/// `(i, j)`.
pub open spec fn cell_before(g: Seq<Seq<char>>, p: int, q: int, i: int, j: int) -> bool {
    &&& 0 <= p < g.len()
    &&& 0 <= q < g[p].len()
    &&& (p < i || (p == i && q < j))
}

/// `pos` is the place where `tile` last occurs among the cells before the
/// row-major position `(i, j)`, or `(0, 0)` when it occurs nowhere there.
pub open spec fn marks_last(
    g: Seq<Seq<char>>,
    tile: MazeTile,
    pos: (usize, usize),
    i: int,
    j: int,
) -> bool {
    if exists|p: int, q: int| cell_before(g, p, q, i, j) && #[trigger] spec_tile_of(g[p][q])
        == tile {
        &&& cell_before(g, pos.0 as int, pos.1 as int, i, j)
        &&& spec_tile_of(g[pos.0 as int][pos.1 as int]) == tile
        &&& forall|p: int, q: int|
            cell_before(g, p, q, i, j) && #[trigger] spec_tile_of(g[p][q]) == tile ==> (p < pos.0
                || (p == pos.0 && q <= pos.1))
    } else {
        pos == (0usize, 0usize)
    }
}

impl From<char> for MazeTile {
    /// Read one drawing character as a tile; anything outside the alphabet
    /// becomes an incompatible tile carrying the character.
    fn from(value: char) -> (t: MazeTile) {
        match value {
            '#' => MazeTile::Wall,
            ' ' => MazeTile::Empty,
            'E' => MazeTile::End,
            'S' => MazeTile::Start,
            c => MazeTile::Incompatible(c),
        }
    }
}

impl vstd::std_specs::convert::FromSpecImpl<char> for MazeTile {
    open spec fn obeys_from_spec() -> bool {
        true
    }

    open spec fn from_spec(c: char) -> MazeTile {
        spec_tile_of(c)
    }
}

/// A rectangular maze drawing read into tiles, remembering where its start
/// and end markers sit and the grid's extent.
#[derive(Debug)]
pub struct Maze {
    pub maze: Vec<Vec<MazeTile>>,
    pub end: (usize, usize),
    pub start: (usize, usize),
    pub limit: (usize, usize),
}

impl Maze {
    /// Read a drawing into a maze. Every character must belong to the tile
    /// alphabet; otherwise the first offending character (in row-major
    /// order) is reported as an incompatible tile. The start and end fields
    /// remember the last cell carrying each marker, or `(0, 0)` when a
    /// marker never occurs; the limit is the row count paired with the width
    /// of the first row.
    pub fn new(input_vec_char: Vec<Vec<char>>) -> (r: Result<Self, MazeError>)
        requires
            input_vec_char@.len() > 0,
        ensures
            match r {
                Result::Ok(m) => {
                    &&& forall|p: int, q: int|
                        0 <= p < grid_of(input_vec_char).len() && 0 <= q < grid_of(
                            input_vec_char,
                        )[p].len() ==> tile_ok(#[trigger] grid_of(input_vec_char)[p][q])
                    &&& m.maze@.len() == grid_of(input_vec_char).len()
                    &&& forall|p: int|
                        0 <= p < m.maze@.len() ==> #[trigger] m.maze@[p]@ == tiles_of_row(
                            grid_of(input_vec_char)[p],
                        )
                    &&& m.limit.0 == input_vec_char@.len()
                    &&& m.limit.1 == input_vec_char@[0]@.len()
                    &&& marks_last(
                        grid_of(input_vec_char),
                        MazeTile::Start,
                        m.start,
                        grid_of(input_vec_char).len() as int,
                        0,
                    )
                    &&& marks_last(
                        grid_of(input_vec_char),
                        MazeTile::End,
                        m.end,
                        grid_of(input_vec_char).len() as int,
                        0,
                    )
                },
                Result::Err(e) => exists|p: int, q: int|
                    {
                        &&& 0 <= p < grid_of(input_vec_char).len()
                        &&& 0 <= q < grid_of(input_vec_char)[p].len()
                        &&& !tile_ok(#[trigger] grid_of(input_vec_char)[p][q])
                        &&& forall|p2: int, q2: int|
                            cell_before(grid_of(input_vec_char), p2, q2, p, q) ==> tile_ok(
                                #[trigger] grid_of(input_vec_char)[p2][q2],
                            )
                        &&& e == MazeError::IncompatibleTile(
                            spec_tile_of(grid_of(input_vec_char)[p][q]),
                        )
                    },
            },
    {
        let ghost g = grid_of(input_vec_char);
        let mut maze_tile: Vec<Vec<MazeTile>> = Vec::new();
        let mut start: (usize, usize) = (0, 0);
        let mut end: (usize, usize) = (0, 0);
        let mut i: usize = 0;
        while i < input_vec_char.len()
            invariant
                g == grid_of(input_vec_char),
                g.len() == input_vec_char@.len(),
                i <= g.len(),
                maze_tile@.len() == i,
                forall|p: int| 0 <= p < i ==> #[trigger] maze_tile@[p]@ == tiles_of_row(g[p]),
                forall|p: int, q: int|
                    cell_before(g, p, q, i as int, 0) ==> tile_ok(#[trigger] g[p][q]),
                marks_last(g, MazeTile::Start, start, i as int, 0),
                marks_last(g, MazeTile::End, end, i as int, 0),
            decreases g.len() - i,
        {
            let row = &input_vec_char[i];
            let mut tile_row: Vec<MazeTile> = Vec::new();
            let mut j: usize = 0;
            while j < row.len()
                invariant
                    g == grid_of(input_vec_char),
                    g.len() == input_vec_char@.len(),
                    i < g.len(),
                    row@ == g[i as int],
                    j <= row@.len(),
                    tile_row@ == tiles_of_row(g[i as int]).take(j as int),
                    forall|p: int, q: int|
                        cell_before(g, p, q, i as int, j as int) ==> tile_ok(#[trigger] g[p][q]),
                    marks_last(g, MazeTile::Start, start, i as int, j as int),
                    marks_last(g, MazeTile::End, end, i as int, j as int),
                decreases row@.len() - j,
            {
                let c = row[j];
                let tile = MazeTile::from(c);
                match tile {
                    MazeTile::Incompatible(_) => {
                        return Err(MazeError::IncompatibleTile(tile));
                    },
                    MazeTile::Start => {
                        start = (i, j);
                    },
                    MazeTile::End => {
                        end = (i, j);
                    },
                    _ => {},
                }
                tile_row.push(tile);
                proof {
                    assert(tile_row@ =~= tiles_of_row(g[i as int]).take(j as int + 1));
                    assert forall|p: int, q: int|
                        cell_before(g, p, q, i as int, j as int + 1) implies tile_ok(
                        #[trigger] g[p][q],
                    ) by {
                        if !(p == i as int && q == j as int) {
                            assert(cell_before(g, p, q, i as int, j as int));
                        }
                    }
                }
                j = j + 1;
            }
            maze_tile.push(tile_row);
            proof {
                assert forall|p: int, q: int|
                    cell_before(g, p, q, i as int + 1, 0) implies cell_before(
                    g,
                    p,
                    q,
                    i as int,
                    g[i as int].len() as int,
                ) by {}
                assert forall|p: int, q: int|
                    cell_before(g, p, q, i as int, g[i as int].len() as int) implies cell_before(
                    g,
                    p,
                    q,
                    i as int + 1,
                    0,
                ) by {}
                assert(marks_last(g, MazeTile::Start, start, i as int + 1, 0));
                assert(marks_last(g, MazeTile::End, end, i as int + 1, 0));
            }
            i = i + 1;
        }
        let limit = (input_vec_char.len(), input_vec_char[0].len());
        Ok(Maze { maze: maze_tile, end: end, start: start, limit: limit })
    }
}

} // verus!
