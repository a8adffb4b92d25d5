//! A bingo card: a phrase pool that is shuffled between samples, a bonus
//! phrase that always takes the centre cell, and the layout of the grid and
//! of each cell's wrapped text on a square canvas.

use vstd::prelude::*;

verus! {

/// Width, in characters, to which each text line is padded, the text centred.
pub const PAD_WIDTH: usize = 16;

/// A cell's height is split into this many text lines.
pub const LINES_PER_CELL: usize = 8;

/// The colour that text or a line is drawn in; the canvas itself is white.
#[derive(Clone, Copy, Debug, PartialEq, Eq, Structural)]
pub enum Ink {
    Black,
    Red,
}

/// A straight line from (`from_x`, `from_y`) to (`to_x`, `to_y`), in pixels.
#[derive(Clone, Copy, Debug, PartialEq, Eq, Structural)]
pub struct Segment {
    pub from_x: usize,
    pub from_y: usize,
    pub to_x: usize,
    pub to_y: usize,
}

/// One line of text, drawn with its top left corner at (`x`, `y`).
#[derive(Debug)]
pub struct TextLine {
    pub x: usize,
    pub y: usize,
    pub text: String,
}

/// The text of one cell: its lines, all in one ink and at one glyph height
/// (`scale`, in pixels).
#[derive(Debug)]
pub struct CellText {
    pub row: usize,
    pub col: usize,
    pub ink: Ink,
    pub scale: usize,
    pub lines: Vec<TextLine>,
}

/// Everything drawn on a white square canvas of `side` pixels a side: black
/// grid lines, then the text of each cell.
#[derive(Debug)]
pub struct Card {
    pub side: usize,
    pub grid: Vec<Segment>,
    pub cells: Vec<CellText>,
}

pub open spec fn spaces(n: nat) -> Seq<char> {
    Seq::new(n, |i: int| ' ')
}

/// `s` centred in a field of `PAD_WIDTH` characters, the odd space going to
/// the right; a text at least as wide is left as it is.
pub open spec fn centered(s: Seq<char>) -> Seq<char> {
    if s.len() >= PAD_WIDTH {
        s
    } else {
        let pad = (PAD_WIDTH - s.len()) as nat;
        spaces(pad / 2) + s + spaces((pad - pad / 2) as nat)
    }
}

fn append_spaces(s: &mut String, n: usize)
    ensures
        final(s)@ == old(s)@ + spaces(n as nat),
{
    let mut i: usize = 0;
    while i < n
        invariant
            i <= n,
            s@ == old(s)@ + spaces(i as nat),
        decreases n - i,
    {
        s.append(" ");
        proof {
            reveal_strlit(" ");
        }
        assert(spaces((i + 1) as nat) =~= spaces(i as nat).push(' '));
        assert(old(s)@ + spaces(i as nat) + " "@ =~= old(s)@ + spaces((i + 1) as nat));
        i = i + 1;
    }
}

/// Pads `s` with spaces on both sides to `PAD_WIDTH` characters.
pub fn center_pad(s: &str) -> (r: String)
    ensures
        r@ == centered(s@),
{
    let len = s.unicode_len();
    if len >= PAD_WIDTH {
        String::from_str(s)
    } else {
        let pad = PAD_WIDTH - len;
        let mut r = String::new();
        append_spaces(&mut r, pad / 2);
        r.append(s);
        append_spaces(&mut r, pad - pad / 2);
        assert(r@ =~= centered(s@));
        r
    }
}

/// The side of a cell: the canvas split evenly into `cell_count` cells, the
/// remainder left over at the far edges.
pub open spec fn cell_side(canvas_size: nat, cell_count: nat) -> nat {
    canvas_size / cell_count
}

/// The height of one text line, and the glyph height of a cell's text.
pub open spec fn line_height(cell_size: nat) -> nat {
    cell_size / LINES_PER_CELL as nat
}

/// The number of columns that a cell's text is wrapped to.
pub open spec fn wrap_width(cell_size: nat) -> nat {
    (cell_size * 2 / line_height(cell_size) - 2) as nat
}

/// The text line of a cell on which its first wrapped line stands, so that
/// `n` lines sit about the middle of the cell; zero for text too long for that.
pub open spec fn first_line(cell_size: nat, n: nat) -> nat {
    let half = cell_size / line_height(cell_size) / 2;
    if half >= n / 2 + 1 {
        (half - n / 2 - 1) as nat
    } else {
        0
    }
}

/// The top of line `i` of a cell in row `row` holding `n` wrapped lines.
pub open spec fn line_top(row: nat, cell_size: nat, n: nat, i: nat) -> nat {
    row * cell_size + (first_line(cell_size, n) + i) * line_height(cell_size)
}

/// `lines` are the lines of `wrapped`, each centred, at the left edge of column
/// `col` and one under the other from `first_line` down, as far as the lines
/// start on the canvas.
pub open spec fn lines_laid_out(
    lines: Seq<TextLine>,
    wrapped: Seq<Seq<char>>,
    row: nat,
    col: nat,
    cell_size: nat,
    canvas_size: nat,
) -> bool {
    &&& lines.len() <= wrapped.len()
    &&& forall|i: int|
        #![trigger lines[i]]
        0 <= i < lines.len() ==> {
            &&& lines[i].x == col * cell_size
            &&& lines[i].y == line_top(row, cell_size, wrapped.len(), i as nat)
            &&& lines[i].y <= canvas_size
            &&& lines[i].text@ == centered(wrapped[i])
        }
    &&& lines.len() < wrapped.len() ==> line_top(row, cell_size, wrapped.len(), lines.len())
        > canvas_size
}

/// The lines of a wrapped text as they read once the text is broken at its
/// line ends: a final empty line closes the text and adds no line of its own,
/// so an empty text has no lines.
pub open spec fn shown_lines(wrapped: Seq<Seq<char>>) -> Seq<Seq<char>> {
    if wrapped.len() > 0 && wrapped.last().len() == 0 {
        wrapped.drop_last()
    } else {
        wrapped
    }
}

/// The lines that textwrap makes of `text` for a width of `width` columns.
pub uninterp spec fn wrapped_lines(text: Seq<char>, width: nat) -> Seq<Seq<char>>;

/// Relies on textwrap::wrap: the lines that `text` is broken into for a
/// width of `width` columns, which depend on the text and the width alone.
#[verifier::external_body]
fn wrap_text(text: &str, width: usize) -> (r: Vec<String>)
    ensures
        r@.map_values(|l: String| l@) == wrapped_lines(text@, width as nat),
{
    textwrap::wrap(text, width).into_iter().map(|l| l.into_owned()).collect()
}

proof fn lemma_first_line_fits(cell_size: nat, n: nat)
    requires
        cell_size >= LINES_PER_CELL,
    ensures
        first_line(cell_size, n) * line_height(cell_size) <= cell_size,
        line_height(cell_size) > 0,
{
    let h = line_height(cell_size);
    let q = cell_size / h;
    assert(h > 0);
    assert(q * h <= cell_size) by (nonlinear_arith)
        requires
            h > 0,
            q == cell_size / h,
    ;
    let f = first_line(cell_size, n);
    assert(f <= q);
    assert(f * h <= q * h) by (nonlinear_arith)
        requires
            f <= q,
    ;
}

/// The text of the cell at (`row`, `col`) in `ink`, from the lines that its
/// phrase was wrapped into, a final empty one left out.
pub fn layout_cell(
    row: usize,
    col: usize,
    cell_size: usize,
    canvas_size: usize,
    ink: Ink,
    wrapped: &Vec<String>,
) -> (r: CellText)
    requires
        cell_size >= LINES_PER_CELL,
        row * cell_size <= canvas_size,
        col * cell_size <= canvas_size,
    ensures
        r.row == row,
        r.col == col,
        r.ink == ink,
        r.scale == line_height(cell_size as nat),
        lines_laid_out(
            r.lines@,
            shown_lines(wrapped@.map_values(|l: String| l@)),
            row as nat,
            col as nat,
            cell_size as nat,
            canvas_size as nat,
        ),
{
    let ghost texts = shown_lines(wrapped@.map_values(|l: String| l@));
    let h = cell_size / LINES_PER_CELL;
    let mut n = wrapped.len();
    if n > 0 && wrapped[n - 1].as_str().is_empty() {
        n = n - 1;
    }
    assert(n == texts.len());
    let half = cell_size / h / 2;
    let first = if half >= n / 2 + 1 {
        half - n / 2 - 1
    } else {
        0
    };
    proof {
        lemma_first_line_fits(cell_size as nat, n as nat);
    }
    let base = row * cell_size;
    let x = col * cell_size;
    let offset = first * h;
    let mut lines: Vec<TextLine> = Vec::new();
    assert(first == first_line(cell_size as nat, n as nat));
    assert(base + offset == line_top(row as nat, cell_size as nat, n as nat, 0));
    let mut more = n > 0 && offset <= canvas_size - base;
    let mut y: usize = if more {
        base + offset
    } else {
        0
    };
    let mut i: usize = 0;
    while more
        invariant
            n == texts.len() <= wrapped@.len(),
            texts == shown_lines(wrapped@.map_values(|l: String| l@)),
            forall|j: int| 0 <= j < n ==> #[trigger] texts[j] == wrapped@[j]@,
            h == line_height(cell_size as nat),
            h > 0,
            x == col * cell_size,
            i <= n,
            more ==> i < n && y == line_top(row as nat, cell_size as nat, n as nat, i as nat)
                && y <= canvas_size,
            !more ==> i == n || line_top(row as nat, cell_size as nat, n as nat, i as nat)
                > canvas_size,
            lines@.len() == i,
            forall|j: int|
                #![trigger lines@[j]]
                0 <= j < i ==> {
                    &&& lines@[j].x == col * cell_size
                    &&& lines@[j].y == line_top(row as nat, cell_size as nat, n as nat, j as nat)
                    &&& lines@[j].y <= canvas_size
                    &&& lines@[j].text@ == centered(texts[j])
                },
        decreases n - i,
    {
        let text = center_pad(wrapped[i].as_str());
        assert(text@ == centered(texts[i as int]));
        lines.push(TextLine { x, y, text });
        let ghost f = first_line(cell_size as nat, n as nat);
        assert((f + i + 1) * h == (f + i) * h + h) by (nonlinear_arith);
        if i + 1 == n {
            more = false;
        } else if canvas_size - y < h {
            more = false;
        } else {
            y = y + h;
        }
        i = i + 1;
    }
    CellText { row, col, ink, scale: h, lines }
}

/// `grid` holds, for each `i` from 0 to `cell_count`, a horizontal line at
/// height `i * cell_side` and then a vertical one at that distance from the
/// left edge, each across the whole canvas.
pub open spec fn grid_laid_out(grid: Seq<Segment>, canvas_size: nat, cell_count: nat) -> bool {
    let cs = cell_side(canvas_size, cell_count);
    &&& grid.len() == 2 * (cell_count + 1)
    &&& forall|k: int|
        #![trigger grid[k]]
        0 <= k < grid.len() ==> {
            let at = (k / 2) * cs;
            if k % 2 == 0 {
                &&& grid[k].from_x == 0
                &&& grid[k].from_y == at
                &&& grid[k].to_x == canvas_size
                &&& grid[k].to_y == at
            } else {
                &&& grid[k].from_x == at
                &&& grid[k].from_y == 0
                &&& grid[k].to_x == at
                &&& grid[k].to_y == canvas_size
            }
        }
}

proof fn lemma_within_canvas(i: nat, canvas_size: nat, cell_count: nat)
    requires
        cell_count > 0,
        i <= cell_count,
    ensures
        i * cell_side(canvas_size, cell_count) <= canvas_size,
{
    let cs = canvas_size / cell_count;
    assert(cell_count * cs <= canvas_size) by (nonlinear_arith)
        requires
            cell_count > 0,
            cs == canvas_size / cell_count,
    ;
    assert(i * cs <= cell_count * cs) by (nonlinear_arith)
        requires
            i <= cell_count,
    ;
}

/// The grid lines of a canvas of `canvas_size` pixels split into
/// `cell_count` cells a side.
pub fn layout_grid(canvas_size: usize, cell_count: usize) -> (r: Vec<Segment>)
    requires
        cell_count > 0,
        cell_count < usize::MAX,
    ensures
        grid_laid_out(r@, canvas_size as nat, cell_count as nat),
{
    let cs = canvas_size / cell_count;
    let mut grid: Vec<Segment> = Vec::new();
    let mut i: usize = 0;
    while i <= cell_count
        invariant
            cell_count > 0,
            cell_count < usize::MAX,
            cs == cell_side(canvas_size as nat, cell_count as nat),
            i <= cell_count + 1,
            grid@.len() == 2 * i,
            forall|k: int|
                #![trigger grid@[k]]
                0 <= k < grid@.len() ==> {
                    let at = (k / 2) * cs;
                    if k % 2 == 0 {
                        &&& grid@[k].from_x == 0
                        &&& grid@[k].from_y == at
                        &&& grid@[k].to_x == canvas_size
                        &&& grid@[k].to_y == at
                    } else {
                        &&& grid@[k].from_x == at
                        &&& grid@[k].from_y == 0
                        &&& grid@[k].to_x == at
                        &&& grid@[k].to_y == canvas_size
                    }
                },
        decreases cell_count + 1 - i,
    {
        proof {
            lemma_within_canvas(i as nat, canvas_size as nat, cell_count as nat);
        }
        let at = i * cs;
        grid.push(Segment { from_x: 0, from_y: at, to_x: canvas_size, to_y: at });
        grid.push(Segment { from_x: at, from_y: 0, to_x: at, to_y: canvas_size });
        assert((2 * i) / 2 == i && (2 * i + 1) / 2 == i && (2 * i) % 2 == 0 && (2 * i + 1) % 2
            == 1);
        i = i + 1;
    }
    grid
}

/// The largest canvas side, in pixels, that a card can be laid out on.
pub const MAX_CANVAS: usize = 0x3fff_ffff;

/// Whether cell `p`, counted row by row, is the centre cell.
pub open spec fn is_center(p: int, cell_count: nat) -> bool {
    p / cell_count as int == cell_count as int / 2 && p % cell_count as int == cell_count as int / 2
}

/// The index, counted row by row, of the centre cell.
pub open spec fn center_index(cell_count: nat) -> nat {
    (cell_count / 2) * cell_count + cell_count / 2
}

/// How many pool entries are shown: one per cell but the centre, in order;
/// those beyond are left out.
pub open spec fn pool_cells(pool_len: nat, cell_count: nat) -> nat {
    if pool_len < cell_count * cell_count - 1 {
        pool_len
    } else {
        (cell_count * cell_count - 1) as nat
    }
}

/// The place of the bonus cell among a card's cells, which run row by row:
/// after the entries placed before the centre.
pub open spec fn bonus_slot(pool_len: nat, cell_count: nat) -> nat {
    if pool_len < center_index(cell_count) {
        pool_len
    } else {
        center_index(cell_count)
    }
}

/// The cell, counted row by row, that pool entry `e` is shown in: entries
/// fill the cells in order and step over the centre.
pub open spec fn entry_position(e: int, cell_count: nat) -> int {
    if e < center_index(cell_count) {
        e
    } else {
        e + 1
    }
}

/// The pool entry shown in the `j`-th cell of a card other than the bonus
/// cell.
pub open spec fn entry_at(j: int, pool_len: nat, cell_count: nat) -> int {
    if j < bonus_slot(pool_len, cell_count) {
        j
    } else {
        j - 1
    }
}

/// `c` is the cell at `position`, counted row by row, showing `phrase` in
/// `ink`.
pub open spec fn cell_laid_out(
    c: CellText,
    position: int,
    ink: Ink,
    phrase: Seq<char>,
    canvas_size: nat,
    cell_count: nat,
) -> bool {
    let cs = cell_side(canvas_size, cell_count);
    &&& c.row == position / cell_count as int
    &&& c.col == position % cell_count as int
    &&& c.ink == ink
    &&& c.scale == line_height(cs)
    &&& lines_laid_out(
        c.lines@,
        shown_lines(wrapped_lines(phrase, wrap_width(cs))),
        c.row as nat,
        c.col as nat,
        cs,
        canvas_size,
    )
}

/// `card` is the card drawn for `pool` in this order, with `bonus` in the
/// centre, on a canvas of `canvas_size` pixels in `cell_count` cells a side.
/// Its cells run row by row: the bonus cell, red, at the centre, and one
/// black cell for each shown pool entry.
pub open spec fn card_laid_out(
    card: Card,
    canvas_size: nat,
    cell_count: nat,
    pool: Seq<Seq<char>>,
    bonus: Seq<char>,
) -> bool {
    let slot = bonus_slot(pool.len(), cell_count) as int;
    &&& card.side == canvas_size + 1
    &&& grid_laid_out(card.grid@, canvas_size, cell_count)
    &&& card.cells@.len() == pool_cells(pool.len(), cell_count) + 1
    &&& cell_laid_out(
        card.cells@[slot],
        center_index(cell_count) as int,
        Ink::Red,
        bonus,
        canvas_size,
        cell_count,
    )
    &&& forall|j: int|
        #![trigger card.cells@[j]]
        0 <= j < card.cells@.len() && j != slot ==> {
            let e = entry_at(j, pool.len(), cell_count);
            cell_laid_out(
                card.cells@[j],
                entry_position(e, cell_count),
                Ink::Black,
                pool[e],
                canvas_size,
                cell_count,
            )
        }
}

proof fn lemma_center_in_grid(cell_count: nat)
    requires
        cell_count > 0,
    ensures
        center_index(cell_count) < cell_count * cell_count,
        center_index(cell_count) as int / cell_count as int == cell_count as int / 2,
        center_index(cell_count) as int % cell_count as int == cell_count as int / 2,
{
    let m = center_index(cell_count);
    let half = cell_count / 2;
    assert(m < cell_count * cell_count) by (nonlinear_arith)
        requires
            cell_count > 0,
            half == cell_count / 2,
            m == half * cell_count + half,
    ;
    assert(m / cell_count == half && m % cell_count == half) by (nonlinear_arith)
        requires
            cell_count > 0,
            half == cell_count / 2,
            m == half * cell_count + half,
    ;
}

proof fn lemma_position(row: int, col: int, cell_count: int)
    requires
        0 <= col < cell_count,
        0 <= row,
    ensures
        (row * cell_count + col) / cell_count == row,
        (row * cell_count + col) % cell_count == col,
{
    assert((row * cell_count + col) / cell_count == row && (row * cell_count + col) % cell_count
        == col) by (nonlinear_arith)
        requires
            0 <= col < cell_count,
            0 <= row,
    ;
}

/// The bonus phrase is always shown, in the centre cell and nowhere else,
/// and the pool entries fill the other cells, each in a cell of its own. On
/// a laid out card the bonus cell stands at row and column `cell_count / 2`,
/// red, with the wrapped bonus phrase; every other cell is black and off the
/// centre. Each shown pool entry has a black cell holding it, the entries
/// taking the cells in order and stepping over the centre, so that no two
/// share a cell; with at least `cell_count * cell_count - 1` entries every
/// cell is filled.
pub proof fn bonus_in_center(
    card: Card,
    canvas_size: nat,
    cell_count: nat,
    pool: Seq<Seq<char>>,
    bonus: Seq<char>,
)
    requires
        cell_count > 0,
        card_laid_out(card, canvas_size, cell_count, pool, bonus),
    ensures
        ({
            let c = card.cells@[bonus_slot(pool.len(), cell_count) as int];
            &&& bonus_slot(pool.len(), cell_count) < card.cells@.len()
            &&& c.row == cell_count / 2
            &&& c.col == cell_count / 2
            &&& c.ink == Ink::Red
            &&& lines_laid_out(
                c.lines@,
                shown_lines(
                    wrapped_lines(bonus, wrap_width(cell_side(canvas_size, cell_count))),
                ),
                c.row as nat,
                c.col as nat,
                cell_side(canvas_size, cell_count),
                canvas_size,
            )
        }),
        forall|j: int|
            #![trigger card.cells@[j]]
            0 <= j < card.cells@.len() && j != bonus_slot(pool.len(), cell_count) ==> {
                &&& card.cells@[j].ink == Ink::Black
                &&& !(card.cells@[j].row == cell_count / 2 && card.cells@[j].col == cell_count
                    / 2)
            },
        forall|e: int|
            #![trigger pool[e]]
            0 <= e < pool_cells(pool.len(), cell_count) ==> {
                let j = if e < center_index(cell_count) {
                    e
                } else {
                    e + 1
                };
                let c = card.cells@[j];
                &&& 0 <= j < card.cells@.len()
                &&& c.ink == Ink::Black
                &&& c.row * cell_count + c.col == entry_position(e, cell_count)
                &&& lines_laid_out(
                    c.lines@,
                    shown_lines(
                        wrapped_lines(pool[e], wrap_width(cell_side(canvas_size, cell_count))),
                    ),
                    c.row as nat,
                    c.col as nat,
                    cell_side(canvas_size, cell_count),
                    canvas_size,
                )
            },
        forall|e1: int, e2: int|
            0 <= e1 < e2 < pool_cells(pool.len(), cell_count) ==> entry_position(e1, cell_count)
                != entry_position(e2, cell_count),
        forall|e: int|
            0 <= e < pool_cells(pool.len(), cell_count) ==> 0 <= #[trigger] entry_position(
                e,
                cell_count,
            ) < cell_count * cell_count && entry_position(e, cell_count) != center_index(
                cell_count,
            ),
{
    lemma_center_in_grid(cell_count);
    let n = cell_count as int;
    let m = center_index(cell_count) as int;
    let slot = bonus_slot(pool.len(), cell_count) as int;
    assert forall|j: int|
        #![trigger card.cells@[j]]
        0 <= j < card.cells@.len() && j != slot implies {
            &&& card.cells@[j].ink == Ink::Black
            &&& !(card.cells@[j].row == cell_count / 2 && card.cells@[j].col == cell_count / 2)
        } by {
        let p = entry_position(entry_at(j, pool.len(), cell_count), cell_count);
        assert(p != m);
        assert(0 <= p);
        lemma_position(p / n, p % n, n);
        assert(p == (p / n) * n + p % n) by (nonlinear_arith)
            requires
                n > 0,
        ;
    }
    assert forall|e: int|
        #![trigger pool[e]]
        0 <= e < pool_cells(pool.len(), cell_count) implies {
            let j = if e < m {
                e
            } else {
                e + 1
            };
            let c = card.cells@[j];
            &&& 0 <= j < card.cells@.len()
            &&& c.ink == Ink::Black
            &&& c.row * cell_count + c.col == entry_position(e, cell_count)
            &&& lines_laid_out(
                c.lines@,
                shown_lines(
                    wrapped_lines(pool[e], wrap_width(cell_side(canvas_size, cell_count))),
                ),
                c.row as nat,
                c.col as nat,
                cell_side(canvas_size, cell_count),
                canvas_size,
            )
        } by {
        let j = if e < m {
            e
        } else {
            e + 1
        };
        assert(j != slot);
        assert(entry_at(j, pool.len(), cell_count) == e);
        let c = card.cells@[j];
        let p = entry_position(e, cell_count);
        assert(p == (p / n) * n + p % n) by (nonlinear_arith)
            requires
                n > 0,
        ;
    }
}

pub open spec fn line_view(l: TextLine) -> (usize, usize, Seq<char>) {
    (l.x, l.y, l.text@)
}

pub open spec fn cell_view(c: CellText) -> (usize, usize, Ink, usize, Seq<(usize, usize, Seq<char>)>) {
    (c.row, c.col, c.ink, c.scale, c.lines@.map_values(|l: TextLine| line_view(l)))
}

/// What a card shows: its side, its grid lines, and each cell's place, ink,
/// glyph height and text lines.
pub open spec fn card_view(c: Card) -> (
    usize,
    Seq<Segment>,
    Seq<(usize, usize, Ink, usize, Seq<(usize, usize, Seq<char>)>)>,
) {
    (c.side, c.grid@, c.cells@.map_values(|x: CellText| cell_view(x)))
}

proof fn lemma_lines_unique(
    a: Seq<TextLine>,
    b: Seq<TextLine>,
    wrapped: Seq<Seq<char>>,
    row: nat,
    col: nat,
    cell_size: nat,
    canvas_size: nat,
)
    requires
        lines_laid_out(a, wrapped, row, col, cell_size, canvas_size),
        lines_laid_out(b, wrapped, row, col, cell_size, canvas_size),
    ensures
        a.map_values(|l: TextLine| line_view(l)) == b.map_values(|l: TextLine| line_view(l)),
{
    if a.len() < b.len() {
        assert(b[a.len() as int].y <= canvas_size);
    }
    if b.len() < a.len() {
        assert(a[b.len() as int].y <= canvas_size);
    }
    assert(a.len() == b.len());
    assert forall|i: int| 0 <= i < a.len() implies line_view(a[i]) == line_view(b[i]) by {
        assert(a[i].x == b[i].x);
    }
    assert(a.map_values(|l: TextLine| line_view(l)) =~= b.map_values(|l: TextLine| line_view(l)));
}

/// Laying a card out is deterministic: two cards laid out for the same pool
/// order, bonus phrase, canvas size and cell count show the same thing.
pub proof fn layout_is_deterministic(
    a: Card,
    b: Card,
    canvas_size: nat,
    cell_count: nat,
    pool: Seq<Seq<char>>,
    bonus: Seq<char>,
)
    requires
        card_laid_out(a, canvas_size, cell_count, pool, bonus),
        card_laid_out(b, canvas_size, cell_count, pool, bonus),
    ensures
        card_view(a) == card_view(b),
{
    assert forall|k: int| 0 <= k < a.grid@.len() implies a.grid@[k] == b.grid@[k] by {}
    assert(a.grid@ =~= b.grid@);
    assert forall|k: int| 0 <= k < a.cells@.len() implies cell_view(a.cells@[k]) == cell_view(
        b.cells@[k],
    ) by {
        let x = a.cells@[k];
        let y = b.cells@[k];
        let phrase = if k == bonus_slot(pool.len(), cell_count) {
            bonus
        } else {
            pool[entry_at(k, pool.len(), cell_count)]
        };
        lemma_lines_unique(
            x.lines@,
            y.lines@,
            shown_lines(wrapped_lines(phrase, wrap_width(cell_side(canvas_size, cell_count)))),
            x.row as nat,
            x.col as nat,
            cell_side(canvas_size, cell_count),
            canvas_size,
        );
    }
    assert(a.cells@.map_values(|x: CellText| cell_view(x)) =~= b.cells@.map_values(
        |x: CellText| cell_view(x),
    ));
}

/// Why a card cannot be set up.
#[derive(Clone, Copy, Debug, PartialEq, Eq, Structural)]
pub enum SetupError {
    /// The grid was asked to have no cells.
    NoCells,
    /// The canvas is wider than `MAX_CANVAS`.
    CanvasTooLarge,
    /// A cell would be narrower than `LINES_PER_CELL` pixels, too small for a
    /// line of text.
    CellsTooSmall,
    /// The phrase list is empty: it has no bonus phrase.
    NoBonus,
}

/// The first line of a phrase list is the bonus phrase; the others, in order,
/// are the pool. `None` for an empty list.
pub fn split_source(lines: Vec<String>) -> (r: Option<(Vec<String>, String)>)
    ensures
        lines@.len() == 0 <==> r is None,
        r matches Some((pool, bonus)) ==> pool@ == lines@.subrange(1, lines@.len() as int)
            && bonus == lines@[0],
{
    if lines.len() == 0 {
        None
    } else {
        let mut pool = lines;
        let bonus = pool.remove(0);
        Some((pool, bonus))
    }
}

/// Relies on rand's SliceRandom::shuffle with thread_rng: reorders `v` at
/// random, by swaps alone.
#[verifier::external_body]
fn shuffle_strings(v: &mut Vec<String>)
    ensures
        final(v)@.to_multiset() == old(v)@.to_multiset(),
{
    rand::seq::SliceRandom::shuffle(v.as_mut_slice(), &mut rand::thread_rng());
}

/// The card for `pool` in its order, with `bonus` in the centre cell.
/// Pool entries take the grid's cells row by row, stepping over the centre;
/// those beyond the last cell are left out. A phrase whose wrapped lines
/// cannot be centred starts on the cell's top line, and lines that would
/// start below the canvas are left out, as nothing of them would show.
pub fn layout_card(canvas_size: usize, cell_count: usize, pool: &Vec<String>, bonus: &String) -> (r:
    Card)
    requires
        0 < cell_count,
        canvas_size <= MAX_CANVAS,
        cell_side(canvas_size as nat, cell_count as nat) >= LINES_PER_CELL,
    ensures
        card_laid_out(
            r,
            canvas_size as nat,
            cell_count as nat,
            pool@.map_values(|s: String| s@),
            bonus@,
        ),
{
    let ghost texts = pool@.map_values(|s: String| s@);
    let ghost n = cell_count as int;
    let ghost m = center_index(cell_count as nat) as int;
    let ghost slot = bonus_slot(pool@.len(), cell_count as nat) as int;
    proof {
        lemma_center_in_grid(cell_count as nat);
    }
    let cs = canvas_size / cell_count;
    let h = cs / LINES_PER_CELL;
    assert(h > 0);
    assert((cs as int) * 2 / (h as int) >= 2) by (nonlinear_arith)
        requires
            h > 0,
            cs >= h,
    ;
    let width = cs * 2 / h - 2;
    assert(cell_count <= canvas_size) by (nonlinear_arith)
        requires
            0 < cell_count,
            canvas_size as int / cell_count as int >= 1,
    ;
    let grid = layout_grid(canvas_size, cell_count);
    let half = cell_count / 2;
    let mut cells: Vec<CellText> = Vec::new();
    let mut e: usize = 0;
    let mut row: usize = 0;
    let mut col: usize = 0;
    let mut bonus_done = false;
    while row < cell_count && (e < pool.len() || !bonus_done)
        invariant
            0 < cell_count,
            n == cell_count,
            half == cell_count / 2,
            m == center_index(cell_count as nat),
            m < n * n,
            m / n == half && m % n == half,
            slot == bonus_slot(pool@.len(), cell_count as nat),
            canvas_size <= MAX_CANVAS,
            cs == cell_side(canvas_size as nat, cell_count as nat),
            cs >= LINES_PER_CELL,
            width == wrap_width(cs as nat),
            texts == pool@.map_values(|s: String| s@),
            col < cell_count,
            row <= cell_count,
            row == cell_count ==> col == 0,
            e <= pool@.len(),
            bonus_done <==> row * n + col > m,
            !bonus_done ==> cells@.len() == e && e <= row * n + col <= m,
            !bonus_done && e < row * n + col ==> e == pool@.len(),
            bonus_done ==> cells@.len() == e + 1 && e + 1 <= row * n + col,
            bonus_done && e + 1 < row * n + col ==> e == pool@.len(),
            bonus_done && e < pool@.len() ==> e >= m,
            bonus_done ==> slot < cells@.len(),
            !bonus_done ==> cells@.len() <= slot,
            bonus_done ==> cell_laid_out(
                cells@[slot],
                m,
                Ink::Red,
                bonus@,
                canvas_size as nat,
                cell_count as nat,
            ),
            forall|j: int|
                #![trigger cells@[j]]
                0 <= j < cells@.len() && j != slot ==> cell_laid_out(
                    cells@[j],
                    entry_position(entry_at(j, pool@.len(), cell_count as nat), cell_count as nat),
                    Ink::Black,
                    texts[entry_at(j, pool@.len(), cell_count as nat)],
                    canvas_size as nat,
                    cell_count as nat,
                ),
        decreases n * n - (row * n + col),
    {
        proof {
            lemma_position(row as int, col as int, n);
            lemma_within_canvas(row as nat, canvas_size as nat, cell_count as nat);
            lemma_within_canvas(col as nat, canvas_size as nat, cell_count as nat);
        }
        let ghost p = row * n + col;
        assert(m == half * n + half);
        assert(p < n * n) by (nonlinear_arith)
            requires
                p == row * n + col,
                row < n,
                col < n,
        ;
        if row == half && col == half {
            let wrapped = wrap_text(bonus.as_str(), width);
            let cell = layout_cell(row, col, cs, canvas_size, Ink::Red, &wrapped);
            cells.push(cell);
            bonus_done = true;
        } else if e < pool.len() {
            assert(p != m) by {
                if p == m {
                    lemma_position(half as int, half as int, n);
                }
            }
            let wrapped = wrap_text(pool[e].as_str(), width);
            let cell = layout_cell(row, col, cs, canvas_size, Ink::Black, &wrapped);
            assert(texts[e as int] == pool@[e as int]@);
            cells.push(cell);
            e = e + 1;
        }
        if !bonus_done && e == pool.len() && !(row == half && col == half) {
            assert(p < m) by {
                if p == m {
                    lemma_position(half as int, half as int, n);
                }
            }
            row = half;
            col = half;
        } else {
            assert((row + 1) * n == row * n + n) by (nonlinear_arith);
            if col + 1 == cell_count {
                col = 0;
                row = row + 1;
            } else {
                col = col + 1;
            }
        }
    }
    assert(row * n + col <= n * n && (row == n ==> row * n + col == n * n)) by (nonlinear_arith)
        requires
            row <= n,
            col < n,
            row == n ==> col == 0,
    ;
    assert(cells@.len() == pool_cells(texts.len(), cell_count as nat) + 1);
    Card { side: canvas_size + 1, grid, cells }
}

/// The bonus line never joins the pool: in a generator set up from `lines`,
/// however often shuffled and drawn since, the pool together with the first
/// line is the whole phrase list, each line as often as it occurs there.
pub proof fn bonus_not_in_pool(b: Bingo, lines: Seq<String>)
    requires
        b.drawn_from(lines),
    ensures
        b.phrases().to_multiset().insert(lines[0]) == lines.to_multiset(),
{
    lines.to_multiset_ensures();
    assert(lines.remove(0) =~= lines.drop_first());
    assert(lines.contains(lines[0]));
    assert(lines.to_multiset().remove(lines[0]).insert(lines[0]) =~= lines.to_multiset());
}

/// A bingo card generator: the phrase pool in its current order, the bonus
/// phrase, the grid's size, and the card drawn last, if any.
pub struct Bingo {
    canvas_size: usize,
    cell_count: usize,
    cell_size: usize,
    canvas: Option<Card>,
    sources: Vec<String>,
    bonus_tile: String,
}

impl Bingo {
    pub closed spec fn spec_canvas_size(&self) -> nat {
        self.canvas_size as nat
    }

    pub closed spec fn spec_cell_count(&self) -> nat {
        self.cell_count as nat
    }

    /// The pool's phrases, in their current order.
    pub closed spec fn phrases(&self) -> Seq<String> {
        self.sources@
    }

    pub open spec fn pool(&self) -> Seq<Seq<char>> {
        self.phrases().map_values(|s: String| s@)
    }

    pub closed spec fn bonus(&self) -> Seq<char> {
        self.bonus_tile@
    }

    pub closed spec fn spec_card(&self) -> Option<Card> {
        self.canvas
    }

    /// The generator was set up from the phrase list `lines`: its bonus is
    /// the first line and its pool holds the other lines, in some order.
    pub open spec fn drawn_from(&self, lines: Seq<String>) -> bool {
        &&& lines.len() > 0
        &&& self.phrases().to_multiset() == lines.drop_first().to_multiset()
        &&& self.bonus() == lines[0]@
    }

    pub closed spec fn wf(&self) -> bool {
        &&& 0 < self.cell_count
        &&& self.canvas_size <= MAX_CANVAS
        &&& self.cell_size == cell_side(self.canvas_size as nat, self.cell_count as nat)
        &&& self.cell_size >= LINES_PER_CELL
    }

    /// A generator for a canvas of `size` pixels a side in `count` cells a
    /// side, from a phrase list whose first line is the bonus phrase and
    /// whose other lines are the pool.
    pub fn new(size: usize, count: usize, lines: Vec<String>) -> (r: Result<Bingo, SetupError>)
        ensures
            count == 0 ==> r == Err::<Bingo, SetupError>(SetupError::NoCells),
            count > 0 && size > MAX_CANVAS ==> r == Err::<Bingo, SetupError>(
                SetupError::CanvasTooLarge,
            ),
            count > 0 && size <= MAX_CANVAS && size / count < LINES_PER_CELL ==> r == Err::<
                Bingo,
                SetupError,
            >(SetupError::CellsTooSmall),
            count > 0 && size <= MAX_CANVAS && size / count >= LINES_PER_CELL && lines@.len() == 0
                ==> r == Err::<Bingo, SetupError>(SetupError::NoBonus),
            r matches Ok(b) ==> {
                &&& b.wf()
                &&& b.spec_canvas_size() == size
                &&& b.spec_cell_count() == count
                &&& b.phrases() == lines@.subrange(1, lines@.len() as int)
                &&& b.bonus() == lines@[0]@
                &&& b.spec_card() is None
                &&& b.drawn_from(lines@)
            },
            r is Ok <==> count > 0 && size <= MAX_CANVAS && size / count >= LINES_PER_CELL
                && lines@.len() > 0,
    {
        if count == 0 {
            return Err(SetupError::NoCells);
        }
        if size > MAX_CANVAS {
            return Err(SetupError::CanvasTooLarge);
        }
        if size / count < LINES_PER_CELL {
            return Err(SetupError::CellsTooSmall);
        }
        match split_source(lines) {
            None => Err(SetupError::NoBonus),
            Some((pool, bonus)) => Ok(
                Bingo {
                    canvas_size: size,
                    cell_count: count,
                    cell_size: size / count,
                    canvas: None,
                    sources: pool,
                    bonus_tile: bonus,
                },
            ),
        }
    }

    /// Puts the pool in a new random order. The bonus phrase takes no part.
    pub fn shuffle(&mut self) -> (r: &mut Self)
        requires
            old(self).wf(),
        ensures
            *final(self) == *final(r),
            r.wf(),
            r.phrases().to_multiset() == old(self).phrases().to_multiset(),
            r.phrases().len() == old(self).phrases().len(),
            r.bonus() == old(self).bonus(),
            r.spec_canvas_size() == old(self).spec_canvas_size(),
            r.spec_cell_count() == old(self).spec_cell_count(),
            r.spec_card() == old(self).spec_card(),
            forall|lines: Seq<String>| #[trigger]
                old(self).drawn_from(lines) ==> r.drawn_from(lines),
    {
        shuffle_strings(&mut self.sources);
        proof {
            old(self).sources@.to_multiset_ensures();
            self.sources@.to_multiset_ensures();
        }
        self
    }
    /// Lays the card out for the pool in its current order: the grid, then
    /// the text of each cell, the bonus phrase in red in the centre cell.
    pub fn draw(&mut self) -> (r: &Self)
        requires
            old(self).wf(),
        ensures
            final(self).wf(),
            final(self).phrases() == old(self).phrases(),
            final(self).bonus() == old(self).bonus(),
            final(self).spec_canvas_size() == old(self).spec_canvas_size(),
            final(self).spec_cell_count() == old(self).spec_cell_count(),
            r.spec_card() == final(self).spec_card(),
            forall|lines: Seq<String>| #[trigger]
                old(self).drawn_from(lines) ==> final(self).drawn_from(lines),
            final(self).spec_card() matches Some(card) && card_laid_out(
                card,
                old(self).spec_canvas_size(),
                old(self).spec_cell_count(),
                old(self).pool(),
                old(self).bonus(),
            ),
    {
        let card = layout_card(
            self.canvas_size,
            self.cell_count,
            &self.sources,
            &self.bonus_tile,
        );
        self.canvas = Some(card);
        self
    }

    /// The card drawn last, if any.
    pub fn card(&self) -> (r: &Option<Card>)
        ensures
            *r == self.spec_card(),
    {
        &self.canvas
    }
    /// The pool in its current order.
    pub fn sources(&self) -> (r: &Vec<String>)
        ensures
            r@ == self.phrases(),
    {
        &self.sources
    }

    /// The bonus phrase.
    pub fn bonus_tile(&self) -> (r: &String)
        ensures
            r@ == self.bonus(),
    {
        &self.bonus_tile
    }
}

} // verus!
