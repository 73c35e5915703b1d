use vstd::prelude::*;

use crate::board::{HexBoard, RADIUS};
use crate::coord::Coord;
use crate::piece::{glyph_of, team_text, Piece, Team};

verus! {

pub open spec fn spaces(n: int) -> Seq<char> {
    Seq::new(n as nat, |i: int| ' ')
}

/// The top and bottom border: `RADIUS + 1` spaces, then `"# "` for each of
/// `RADIUS + 2` columns.
pub open spec fn border_text() -> Seq<char> {
    spaces(RADIUS + 1) + Seq::new(
        (2 * (RADIUS + 2)) as nat,
        |i: int|
            if i % 2 == 0 {
                '#'
            } else {
                ' '
            },
    )
}

/// Indentation of text row `row` (0 at the top, `2 * RADIUS` at the bottom).
pub open spec fn row_indent(row: int) -> int {
    if row <= RADIUS {
        RADIUS - row
    } else {
        row - RADIUS
    }
}

/// The cell shown in column `col` of text row `row`.
pub open spec fn shown_cell(row: int, col: int) -> Coord {
    Coord {
        q: (col + (if RADIUS - row > 0 {
            RADIUS - row
        } else {
            0
        }) - RADIUS) as i32,
        r: (row - RADIUS) as i32,
    }
}

pub open spec fn cell_text(b: Map<Coord, Piece>, c: Coord) -> Seq<char> {
    seq![
        ' ',
        if b.contains_key(c) {
            glyph_of(b[c])
        } else {
            '.'
        },
    ]
}

/// The first `n` cells of text row `row`.
pub open spec fn row_cells(b: Map<Coord, Piece>, row: int, n: int) -> Seq<char>
    decreases n,
{
    if n <= 0 {
        Seq::empty()
    } else {
        row_cells(b, row, n - 1) + cell_text(b, shown_cell(row, n - 1))
    }
}

pub open spec fn row_text(b: Map<Coord, Piece>, row: int) -> Seq<char> {
    let indent = row_indent(row);
    spaces(indent) + seq!['#'] + row_cells(b, row, 2 * RADIUS + 1 - indent) + seq![' ', '#', '\n']
}

/// The first `n` text rows.
pub open spec fn rows_text(b: Map<Coord, Piece>, n: int) -> Seq<char>
    decreases n,
{
    if n <= 0 {
        Seq::empty()
    } else {
        rows_text(b, n - 1) + row_text(b, n - 1)
    }
}

/// The board as text: a hexagon of glyphs (`.` for an empty cell) inside a
/// `#` border, one row per value of `r`.
pub open spec fn board_text(b: Map<Coord, Piece>) -> Seq<char> {
    border_text() + seq!['\n'] + rows_text(b, 2 * RADIUS + 1) + border_text()
}

/// `"<team>'s turn"`, a line break, then the board.
pub open spec fn game_text(turn: Team, b: Map<Coord, Piece>) -> Seq<char> {
    team_text(turn) + seq!['\'', 's', ' ', 't', 'u', 'r', 'n', '\n'] + board_text(b)
}

fn push_border(text: &mut Vec<char>)
    ensures
        final(text)@ == old(text)@ + border_text(),
{
    let ghost start = text@;
    let mut i: i32 = 0;
    while i < RADIUS + 1
        invariant
            0 <= i <= RADIUS + 1,
            text@ == start + spaces(i as int),
        decreases RADIUS + 1 - i,
    {
        text.push(' ');
        i = i + 1;
        assert(text@ =~= start + spaces(i as int));
    }
    let ghost mid = text@;
    let ghost hashes = Seq::new(
        (2 * (RADIUS + 2)) as nat,
        |i: int|
            if i % 2 == 0 {
                '#'
            } else {
                ' '
            },
    );
    let mut j: i32 = 0;
    while j < RADIUS + 2
        invariant
            0 <= j <= RADIUS + 2,
            mid == start + spaces(RADIUS + 1),
            hashes == Seq::new(
                (2 * (RADIUS + 2)) as nat,
                |i: int|
                    if i % 2 == 0 {
                        '#'
                    } else {
                        ' '
                    },
            ),
            text@ == mid + hashes.subrange(0, 2 * j as int),
        decreases RADIUS + 2 - j,
    {
        text.push('#');
        text.push(' ');
        j = j + 1;
        assert(text@ =~= mid + hashes.subrange(0, 2 * j as int));
    }
    assert(hashes.subrange(0, 2 * (RADIUS + 2)) =~= hashes);
}

impl HexBoard {
    /// The board as text, for a console.
    pub fn render(&self) -> (text: Vec<char>)
        requires
            self.wf(),
        ensures
            text@ == board_text(self@),
    {
        let mut text: Vec<char> = Vec::new();
        push_border(&mut text);
        text.push('\n');
        let ghost head = text@;
        assert(head == border_text() + seq!['\n']);
        let mut row: i32 = 0;
        while row < 2 * RADIUS + 1
            invariant
                self.wf(),
                0 <= row <= 2 * RADIUS + 1,
                head == border_text() + seq!['\n'],
                text@ == head + rows_text(self@, row as int),
            decreases 2 * RADIUS + 1 - row,
        {
            let ghost before = text@;
            let indent: i32 = if row <= RADIUS { RADIUS - row } else { row - RADIUS };
            let mut k: i32 = 0;
            while k < indent
                invariant
                    0 <= k <= indent,
                    text@ == before + spaces(k as int),
                decreases indent - k,
            {
                text.push(' ');
                k = k + 1;
                assert(text@ =~= before + spaces(k as int));
            }
            text.push('#');
            let ghost lead = text@;
            assert(lead == before + spaces(indent as int) + seq!['#']);
            let shift: i32 = if RADIUS - row > 0 { RADIUS - row } else { 0 };
            let mut col: i32 = 0;
            while col < 2 * RADIUS + 1 - indent
                invariant
                    self.wf(),
                    0 <= row < 2 * RADIUS + 1,
                    0 <= col <= 2 * RADIUS + 1 - indent,
                    indent == row_indent(row as int),
                    shift == (if RADIUS - row > 0 {
                        RADIUS - row
                    } else {
                        0
                    }),
                    text@ == lead + row_cells(self@, row as int, col as int),
                decreases 2 * RADIUS + 1 - indent - col,
            {
                let c = Coord { q: col + shift - RADIUS, r: row - RADIUS };
                assert(c == shown_cell(row as int, col as int));
                let shown = match self.get(c) {
                    Ok(p) => p.glyph(),
                    Err(_) => '.',
                };
                text.push(' ');
                text.push(shown);
                col = col + 1;
                assert(text@ =~= lead + row_cells(self@, row as int, col as int));
            }
            text.push(' ');
            text.push('#');
            text.push('\n');
            row = row + 1;
            assert(text@ =~= head + rows_text(self@, row as int));
        }
        push_border(&mut text);
        text
    }
}

} // verus!
