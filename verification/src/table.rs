//! The table renderer: box-drawn borders and rows of centred cells.
use crate::text::{append, line_views, repeated};
use vstd::prelude::*;

verus! {

/// The width that a cell is centred in.
pub const COLUMN_WIDTH: usize = 15;

/// The number of dashes in a border.
pub const RULE_WIDTH: usize = 40;

/// A border line between two corner glyphs.
pub open spec fn border(left: char, right: char) -> Seq<char> {
    seq![left] + repeated('─', RULE_WIDTH as nat) + seq![right, '\n']
}

/// The border above a table.
pub open spec fn top_border() -> Seq<char> {
    border('┌', '┐')
}

/// The border that stands for a separator row.
pub open spec fn middle_border() -> Seq<char> {
    border('├', '┤')
}

/// The border below a table.
pub open spec fn bottom_border() -> Seq<char> {
    border('└', '┘')
}

/// A cell centred in the column width: half of the missing width goes before
/// it, rounded down, the rest behind it. A cell as wide as the column, or
/// wider, stays as it is.
pub open spec fn centered(cell: Seq<char>) -> Seq<char> {
    if cell.len() >= COLUMN_WIDTH {
        cell
    } else {
        let missing = (COLUMN_WIDTH - cell.len()) as nat;
        repeated(' ', missing / 2) + cell + repeated(' ', (missing - missing / 2) as nat)
    }
}

/// What stands between two cells.
pub open spec fn cell_gap() -> Seq<char> {
    seq![' ', '│', ' ']
}

/// The centred cells, with a bar between each two.
pub open spec fn joined_cells(cells: Seq<Seq<char>>) -> Seq<char>
    decreases cells.len(),
{
    if cells.len() == 0 {
        Seq::empty()
    } else if cells.len() == 1 {
        centered(cells[0])
    } else {
        joined_cells(cells.drop_last()) + cell_gap() + centered(cells.last())
    }
}

/// A row of cells between two bars.
pub open spec fn data_row(cells: Seq<Seq<char>>) -> Seq<char> {
    seq!['│', ' '] + joined_cells(cells) + seq![' ', '│', '\n']
}

/// What a table row adds to the output: the top border first where it opens
/// a table, then the middle border for a separator, the cells for any other
/// row.
pub open spec fn table_row_output(
    cells: Seq<Seq<char>>,
    is_separator: bool,
    in_table: bool,
) -> Seq<char> {
    (if in_table {
        Seq::empty()
    } else {
        top_border()
    }) + (if is_separator {
        middle_border()
    } else {
        data_row(cells)
    })
}

/// What an empty line adds to the output: the bottom border where it closes a
/// table, a line terminator where none is open.
pub open spec fn empty_line_output(in_table: bool) -> Seq<char> {
    if in_table {
        bottom_border()
    } else {
        seq!['\n']
    }
}

/// A centred cell is never narrower than the column, and never loses text.
pub proof fn lemma_centered_width(cell: Seq<char>)
    ensures
        centered(cell).len() == if cell.len() >= COLUMN_WIDTH {
            cell.len()
        } else {
            COLUMN_WIDTH as nat
        },
{
}

fn push_repeated(out: &mut Vec<char>, c: char, n: usize)
    ensures
        final(out)@ == old(out)@ + repeated(c, n as nat),
{
    let mut i: usize = 0;
    assert(out@ == old(out)@ + repeated(c, 0));
    while i < n
        invariant
            i <= n,
            out@ == old(out)@ + repeated(c, i as nat),
        decreases n - i,
    {
        out.push(c);
        assert(repeated(c, (i + 1) as nat) == repeated(c, i as nat).push(c));
        i += 1;
    }
}

fn push_border(out: &mut Vec<char>, left: char, right: char)
    ensures
        final(out)@ == old(out)@ + border(left, right),
{
    out.push(left);
    push_repeated(out, '─', RULE_WIDTH);
    out.push(right);
    out.push('\n');
    assert(out@ == old(out)@ + border(left, right));
}

fn push_centered(out: &mut Vec<char>, cell: &[char])
    ensures
        final(out)@ == old(out)@ + centered(cell@),
{
    if cell.len() >= COLUMN_WIDTH {
        append(out, cell);
    } else {
        let missing: usize = COLUMN_WIDTH - cell.len();
        push_repeated(out, ' ', missing / 2);
        append(out, cell);
        push_repeated(out, ' ', missing - missing / 2);
        assert(out@ == old(out)@ + centered(cell@));
    }
}

fn push_data_row(out: &mut Vec<char>, cells: &Vec<Vec<char>>)
    ensures
        final(out)@ == old(out)@ + data_row(line_views(cells@)),
{
    let ghost all = line_views(cells@);
    out.push('│');
    out.push(' ');
    let ghost start = out@;
    let mut i: usize = 0;
    assert(all.take(0) == Seq::<Seq<char>>::empty());
    while i < cells.len()
        invariant
            i <= cells.len(),
            all == line_views(cells@),
            out@ == start + joined_cells(all.take(i as int)),
        decreases cells.len() - i,
    {
        let ghost so_far = all.take(i as int);
        let ghost next = all.take(i + 1);
        assert(next.drop_last() == so_far);
        assert(next.last() == cells@[i as int]@);
        if i > 0 {
            out.push(' ');
            out.push('│');
            out.push(' ');
        } else {
            assert(next[0] == cells@[0]@);
        }
        push_centered(out, cells[i].as_slice());
        assert(out@ == start + joined_cells(next));
        i += 1;
    }
    assert(all.take(cells.len() as int) == all);
    out.push(' ');
    out.push('│');
    out.push('\n');
    assert(out@ == old(out)@ + data_row(all));
}

/// Renders one table row, and opens the table where none is open.
pub fn format_table_row(cells: &Vec<Vec<char>>, is_separator: bool, in_table: &mut bool) -> (out:
    Vec<char>)
    ensures
        *final(in_table),
        out@ == table_row_output(
            line_views(cells@),
            is_separator,
            *old(in_table),
        ),
{
    let mut out: Vec<char> = Vec::new();
    if !*in_table {
        *in_table = true;
        push_border(&mut out, '┌', '┐');
    }
    if is_separator {
        push_border(&mut out, '├', '┤');
    } else {
        push_data_row(&mut out, cells);
    }
    out
}

/// Renders an empty line, which closes an open table.
pub fn handle_empty_line(in_table: &mut bool) -> (out: Vec<char>)
    ensures
        !*final(in_table),
        out@ == empty_line_output(*old(in_table)),
{
    let mut out: Vec<char> = Vec::new();
    if *in_table {
        *in_table = false;
        push_border(&mut out, '└', '┘');
    } else {
        out.push('\n');
    }
    out
}

} // verus!
