//! The text form of a board: parsing multi-line patterns and rendering
//! generations back to text.

use vstd::prelude::*;

use crate::board::Board;
use crate::board::ShapeError;
use crate::board::State;
use crate::board::char_of_state;
use crate::board::grid_width;
use crate::board::rectangular;
use crate::board::state_of_char;

verus! {

/// Relies on `String::push`: appends exactly the given character to the
/// end of the string.
pub assume_specification[ String::push ](s: &mut String, c: char)
    ensures
        final(s)@ == old(s)@.push(c),
;

/// The number of characters from position `i` up to (not including) the
/// first line feed at or after it, or up to the end if none follows.
pub open spec fn line_len(s: Seq<char>, i: int) -> nat
    decreases s.len() - i,
{
    if i < 0 || i >= s.len() || s[i] == '\n' {
        0
    } else {
        1 + line_len(s, i + 1)
    }
}

/// A line with a trailing carriage return removed: the remnant of a
/// `\r\n` line ending once the text is split at line feeds.
pub open spec fn strip_cr(line: Seq<char>) -> Seq<char> {
    if line.len() > 0 && line[line.len() - 1] == '\r' {
        line.drop_last()
    } else {
        line
    }
}

/// The lines of the text from position `i` on. A line runs to the next
/// line feed; a carriage return directly before that line feed belongs to
/// the line ending, not to the line. A final line without a terminator
/// runs to the end of the text, and a text ending in a line feed has no
/// extra empty line after it.
pub open spec fn split_lines_from(s: Seq<char>, i: int) -> Seq<Seq<char>>
    decreases s.len() - i,
{
    if i < 0 || i >= s.len() {
        Seq::empty()
    } else {
        let j = i + line_len(s, i);
        if j >= s.len() {
            seq![s.subrange(i, s.len() as int)]
        } else {
            seq![strip_cr(s.subrange(i, j))] + split_lines_from(s, j + 1)
        }
    }
}

/// The lines of a whole text.
pub open spec fn split_lines(s: Seq<char>) -> Seq<Seq<char>> {
    split_lines_from(s, 0)
}

/// The rows of cells a sequence of text lines stands for: one cell per
/// character, `.` and `0` dead, every other character alive.
pub open spec fn grid_of_lines(lines: Seq<Seq<char>>) -> Seq<Seq<State>> {
    lines.map_values(|l: Seq<char>| l.map_values(|c: char| state_of_char(c)))
}

/// The grid a multi-line text stands for: one row per line.
pub open spec fn parse_grid(s: Seq<char>) -> Seq<Seq<State>> {
    grid_of_lines(split_lines(s))
}

/// One row as bare characters: `#` for a live cell, `.` for a dead one.
pub open spec fn render_cells(row: Seq<State>) -> Seq<char> {
    row.map_values(|s: State| char_of_state(s))
}

/// One row as a text line: its cells' characters closed by a line feed.
pub open spec fn render_row(row: Seq<State>) -> Seq<char> {
    render_cells(row).push('\n')
}

/// The text form of a grid: every row rendered in order, each one — the
/// last included — terminated by a line feed.
pub open spec fn render_grid(g: Seq<Seq<State>>) -> Seq<char>
    decreases g.len(),
{
    if g.len() == 0 {
        Seq::empty()
    } else {
        render_row(g[0]) + render_grid(g.drop_first())
    }
}

/// `line_len(s, i)` reaches exactly the first line feed at or after `i`,
/// or the end of the text if there is none.
proof fn lemma_line_len_at(s: Seq<char>, i: int, j: int)
    requires
        0 <= i <= j <= s.len(),
        forall|k: int| i <= k < j ==> s[k] != '\n',
        j < s.len() ==> s[j] == '\n',
    ensures
        line_len(s, i) == j - i,
    decreases j - i,
{
    if i < j {
        lemma_line_len_at(s, i + 1, j);
    }
}

/// The end of a line never passes the end of the text, stops right
/// before a line feed when one follows, and passes no line feed.
proof fn lemma_line_len_bound(s: Seq<char>, i: int)
    requires
        0 <= i <= s.len(),
    ensures
        i + line_len(s, i) <= s.len(),
        i + line_len(s, i) < s.len() ==> s[i + line_len(s, i)] == '\n',
        forall|k: int| i <= k < i + line_len(s, i) ==> s[k] != '\n',
    decreases s.len() - i,
{
    if i < s.len() && s[i] != '\n' {
        lemma_line_len_bound(s, i + 1);
    }
}

/// `line_len` looks only at the characters from its position on, so it
/// is the same on the text and on the text's tail.
proof fn lemma_line_len_shift(s: Seq<char>, i: int, t: int)
    requires
        0 <= i <= s.len(),
        0 <= t <= s.len() - i,
    ensures
        line_len(s.subrange(i, s.len() as int), t) == line_len(s, i + t),
    decreases s.len() - i - t,
{
    let sub = s.subrange(i, s.len() as int);
    if t < sub.len() && sub[t] != '\n' {
        lemma_line_len_shift(s, i, t + 1);
    }
}

/// Splitting a text from position `i` on is splitting the text that
/// remains from `i`.
proof fn lemma_split_suffix(s: Seq<char>, i: int)
    requires
        0 <= i <= s.len(),
    ensures
        split_lines_from(s, i) == split_lines(s.subrange(i, s.len() as int)),
    decreases s.len() - i,
{
    let sub = s.subrange(i, s.len() as int);
    if i >= s.len() {
        assert(sub =~= Seq::<char>::empty());
        assert(split_lines_from(s, i) =~= split_lines(sub));
    } else {
        lemma_line_len_shift(s, i, 0);
        lemma_line_len_bound(s, i);
        let ll = line_len(s, i) as int;
        let j = i + ll;
        if j >= s.len() {
            assert(s.subrange(i, s.len() as int) =~= sub.subrange(0, sub.len() as int));
            assert(split_lines_from(s, i) =~= split_lines(sub));
        } else {
            lemma_split_suffix(s, j + 1);
            lemma_split_suffix(sub, ll + 1);
            assert(s.subrange(i, j) =~= sub.subrange(0, ll));
            assert(s.subrange(j + 1, s.len() as int) =~= sub.subrange(ll + 1, sub.len() as int));
            assert(split_lines_from(s, i) =~= split_lines(sub));
        }
    }
}

/// The law of the text round trip: rendering a grid and parsing the text
/// back yields the very same grid, cell for cell — in particular for
/// every board of positive width.
pub proof fn lemma_render_parse_round_trip(g: Seq<Seq<State>>)
    ensures
        parse_grid(render_grid(g)) == g,
    decreases g.len(),
{
    if g.len() == 0 {
        assert(split_lines(render_grid(g)) =~= Seq::<Seq<char>>::empty());
        assert(parse_grid(render_grid(g)) =~= g);
    } else {
        let r0 = g[0];
        let g1 = g.drop_first();
        let s = render_grid(g);
        let rest = render_grid(g1);
        let w = r0.len() as int;
        assert(s == render_row(r0) + rest);
        assert(s.len() == w + 1 + rest.len());
        assert forall|k: int| 0 <= k < w implies s[k] != '\n' by {
            assert(s[k] == char_of_state(r0[k]));
        }
        assert(s[w] == '\n');
        lemma_line_len_at(s, 0, w);
        lemma_split_suffix(s, w + 1);
        assert(s.subrange(w + 1, s.len() as int) =~= rest);
        assert(s.subrange(0, w) =~= render_cells(r0));
        if w > 0 {
            assert(render_cells(r0)[w - 1] == char_of_state(r0[w - 1]));
        }
        assert(strip_cr(render_cells(r0)) =~= render_cells(r0));
        assert(split_lines(s) == seq![render_cells(r0)] + split_lines(rest));
        lemma_render_parse_round_trip(g1);
        assert(grid_of_lines(seq![render_cells(r0)] + split_lines(rest)) =~= seq![
            render_cells(r0).map_values(|c: char| state_of_char(c)),
        ] + grid_of_lines(split_lines(rest)));
        assert(render_cells(r0).map_values(|c: char| state_of_char(c)) =~= r0);
        assert(parse_grid(s) =~= seq![r0] + g1);
        assert(seq![r0] + g1 =~= g);
    }
}

impl Board {
    /// A board parsed from a multi-line pattern: each line becomes one
    /// row and each character one cell (`.` and `0` dead, anything else
    /// alive); line endings are never treated as cells, and an empty text
    /// yields a board with no rows. Fails with [`ShapeError`] exactly
    /// when two lines differ in length.
    pub fn from_text(text: &str) -> (r: Result<Board, ShapeError>)
        ensures
            r is Ok <==> rectangular(parse_grid(text@)),
            r matches Ok(b) ==> b@ == parse_grid(text@) && b.wf(),
            r matches Err(e) ==> e == ShapeError,
    {
        let ghost s = text@;
        let n = text.unicode_len();
        let mut rows: Vec<Vec<State>> = Vec::new();
        let mut i: usize = 0;
        while i < n
            invariant
                n == s.len(),
                s == text@,
                i <= n,
                parse_grid(s) == rows@.map_values(|row: Vec<State>| row@) + grid_of_lines(
                    split_lines_from(s, i as int),
                ),
            decreases n - i,
        {
            let ghost i0 = i as int;
            let ghost rows0 = rows@;
            // find the end of the current line
            let mut j: usize = i;
            while j < n && text.get_char(j) != '\n'
                invariant
                    n == s.len(),
                    s == text@,
                    i <= j <= n,
                    forall|k: int| i <= k < j ==> s[k] != '\n',
                decreases n - j,
            {
                j = j + 1;
            }
            proof {
                lemma_line_len_at(s, i0, j as int);
            }
            // a carriage return directly before the line feed belongs to
            // the line ending
            let end = if j < n && j > i && text.get_char(j - 1) == '\r' {
                j - 1
            } else {
                j
            };
            let mut row: Vec<State> = Vec::new();
            let mut k: usize = i;
            while k < end
                invariant
                    n == s.len(),
                    s == text@,
                    end <= n,
                    i <= k <= end,
                    row@.len() == k - i,
                    forall|t: int| i <= t < k ==> row@[t - i] == state_of_char(s[t]),
                decreases end - k,
            {
                row.push(State::from_char(text.get_char(k)));
                k = k + 1;
            }
            let ghost line: Seq<char> = if j < n {
                strip_cr(s.subrange(i0, j as int))
            } else {
                s.subrange(i0, s.len() as int)
            };
            let ghost inext: int = if j < n {
                j + 1
            } else {
                n as int
            };
            proof {
                assert(row@ =~= line.map_values(|c: char| state_of_char(c)));
                assert(split_lines_from(s, i0) =~= seq![line] + split_lines_from(s, inext));
                assert(grid_of_lines(seq![line] + split_lines_from(s, inext)) =~= seq![
                    line.map_values(|c: char| state_of_char(c)),
                ] + grid_of_lines(split_lines_from(s, inext)));
            }
            rows.push(row);
            i = if j < n {
                j + 1
            } else {
                n
            };
            proof {
                assert(rows@.map_values(|row: Vec<State>| row@) =~= rows0.map_values(
                    |row: Vec<State>| row@,
                ) + seq![rows@[rows@.len() - 1]@]);
                assert(rows0.map_values(|row: Vec<State>| row@) + (seq![
                    line.map_values(|c: char| state_of_char(c)),
                ] + grid_of_lines(split_lines_from(s, inext))) =~= rows@.map_values(
                    |row: Vec<State>| row@,
                ) + grid_of_lines(split_lines_from(s, i as int)));
            }
        }
        proof {
            assert(split_lines_from(s, n as int) =~= Seq::<Seq<char>>::empty());
            assert(grid_of_lines(Seq::<Seq<char>>::empty()) =~= Seq::<Seq<State>>::empty());
            assert(rows@.map_values(|row: Vec<State>| row@) + Seq::<Seq<State>>::empty()
                =~= rows@.map_values(|row: Vec<State>| row@));
        }
        // every row must be as long as the first
        if rows.len() > 0 {
            let w = rows[0].len();
            let mut y: usize = 1;
            while y < rows.len()
                invariant
                    s == text@,
                    1 <= y <= rows@.len(),
                    w == rows@[0]@.len(),
                    parse_grid(s) == rows@.map_values(|row: Vec<State>| row@),
                    forall|t: int| 0 <= t < y ==> (#[trigger] rows@[t])@.len() == w,
                decreases rows@.len() - y,
            {
                if rows[y].len() != w {
                    proof {
                        assert(parse_grid(s)[y as int].len() != grid_width(parse_grid(s)));
                    }
                    return Err(ShapeError);
                }
                y = y + 1;
            }
        }
        let b = Board::from_rows(rows);
        Ok(b)
    }

    /// The text form of the board: one line per row, one character per
    /// cell (`#` alive, `.` dead), every line — the last included —
    /// terminated by a line feed. This is the same format `from_text`
    /// parses.
    pub fn to_text(&self) -> (r: String)
        ensures
            r@ == render_grid(self@),
    {
        let ghost g = self@;
        let rows = self.rows();
        let mut out = String::new();
        proof {
            assert(g.subrange(0, g.len() as int) =~= g);
            assert(Seq::<char>::empty() + render_grid(g) =~= render_grid(g));
        }
        let mut y: usize = 0;
        while y < rows.len()
            invariant
                rows@.map_values(|row: Vec<State>| row@) == g,
                y <= rows@.len(),
                render_grid(g) == out@ + render_grid(g.subrange(y as int, g.len() as int)),
            decreases rows@.len() - y,
        {
            let ghost out0 = out@;
            let ghost remaining = g.subrange(y as int, g.len() as int);
            let row = &rows[y];
            let mut x: usize = 0;
            while x < row.len()
                invariant
                    row@ == g[y as int],
                    y < g.len(),
                    x <= row@.len(),
                    out@ == out0 + render_cells(row@).subrange(0, x as int),
                decreases row@.len() - x,
            {
                proof {
                    let c = char_of_state(row@[x as int]);
                    assert(render_cells(row@).subrange(0, x as int).push(c) =~= render_cells(
                        row@,
                    ).subrange(0, x as int + 1));
                }
                out.push(row[x].to_char());
                x = x + 1;
            }
            out.push('\n');
            proof {
                assert(render_cells(row@).subrange(0, row@.len() as int) =~= render_cells(row@));
                assert(out@ =~= out0 + render_row(row@));
                assert(remaining[0] == g[y as int]);
                assert(remaining.drop_first() =~= g.subrange(y as int + 1, g.len() as int));
                assert(render_grid(remaining) == render_row(g[y as int]) + render_grid(
                    g.subrange(y as int + 1, g.len() as int),
                ));
                assert(out0 + (render_row(g[y as int]) + render_grid(
                    g.subrange(y as int + 1, g.len() as int),
                )) =~= out@ + render_grid(g.subrange(y as int + 1, g.len() as int)));
            }
            y = y + 1;
        }
        proof {
            assert(g.subrange(g.len() as int, g.len() as int) =~= Seq::<Seq<State>>::empty());
            assert(out@ + Seq::<char>::empty() =~= out@);
        }
        out
    }
}

} // verus!
