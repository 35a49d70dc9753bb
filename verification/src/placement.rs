//! The piece placement field of a position record, as a notation for boards.
//!
//! A placement lists the ranks from the eighth down to the first, parted by
//! `/`; within a rank it lists the files from `a` on, a digit standing for
//! that many empty squares and a letter for a piece. This module says which
//! board a text describes, which text describes a board, and proves that
//! the two agree.

use vstd::prelude::*;
use crate::error::ErrorKind;
use crate::piece::{char_of_piece, piece_of_char, Piece};

verus! {

/// The board as contracts see it: eight ranks, the first rank first, each
/// of eight cells, the `a` file first.
pub type Grid = Seq<Seq<Option<Piece>>>;

/// Whether `g` has eight ranks of eight cells.
pub open spec fn is_grid(g: Grid) -> bool {
    g.len() == 8 && forall|rank: int| 0 <= rank < 8 ==> (#[trigger] g[rank]).len() == 8
}

/// The board with no piece on it.
pub open spec fn empty_grid() -> Grid {
    Seq::new(8, |rank: int| Seq::new(8, |file: int| None))
}

/// `g` with `cell` written at the given rank and file.
pub open spec fn put(g: Grid, rank: int, file: int, cell: Option<Piece>) -> Grid {
    g.update(rank, g[rank].update(file, cell))
}

/// `g` with the `n` cells from `file` on emptied in the given rank.
pub open spec fn clear_run(g: Grid, rank: int, file: int, n: int) -> Grid {
    g.update(
        rank,
        Seq::new(
            8,
            |f: int|
                if file <= f < file + n {
                    None
                } else {
                    g[rank][f]
                },
        ),
    )
}

/// Where a reader of a placement stands: the board so far, and the cell
/// that the next character is about. The rank falls below 0 and the file
/// reaches 8 without harm as long as nothing is written there.
pub struct Scan {
    pub grid: Grid,
    pub rank: int,
    pub file: int,
}

/// Whether the `n` cells from the reader's position on lie on the board.
pub open spec fn has_room(st: Scan, n: int) -> bool {
    0 <= st.rank < 8 && 0 <= st.file && st.file + n <= 8
}

/// Where the reader starts: on an empty board, at the `a` file of the
/// eighth rank.
pub open spec fn scan_start() -> Scan {
    Scan { grid: empty_grid(), rank: 7, file: 0 }
}

/// Whether `c` is a digit that stands for a run of empty squares.
pub open spec fn is_run_digit(c: char) -> bool {
    '1' <= c && c <= '8'
}

/// What one character does to the reader. `/` moves to the `a` file of the
/// rank below. A digit from 1 to 8 empties that many cells and passes them.
/// Any other character must name a piece, which is written and passed. A
/// digit or a piece that does not fit on the board is out of range.
pub open spec fn scan_step(st: Scan, c: char) -> Result<Scan, ErrorKind> {
    if c == '/' {
        Ok(Scan { grid: st.grid, rank: st.rank - 1, file: 0 })
    } else if is_run_digit(c) {
        let n = c as int - '0' as int;
        if has_room(st, n) {
            Ok(Scan { grid: clear_run(st.grid, st.rank, st.file, n), rank: st.rank, file: st.file + n })
        } else {
            Err(ErrorKind::OutOfRange)
        }
    } else {
        match piece_of_char(c) {
            None => Err(ErrorKind::MalformedCharacter),
            Some(p) => if has_room(st, 1) {
                Ok(Scan { grid: put(st.grid, st.rank, st.file, Some(p)), rank: st.rank, file: st.file + 1 })
            } else {
                Err(ErrorKind::OutOfRange)
            },
        }
    }
}

/// What the characters of `s` do to the reader, one after the other. The
/// first character that fails ends the reading with its error.
pub open spec fn scan_from(st: Scan, s: Seq<char>) -> Result<Scan, ErrorKind>
    decreases s.len(),
{
    if s.len() == 0 {
        Ok(st)
    } else {
        match scan_step(st, s[0]) {
            Ok(next) => scan_from(next, s.drop_first()),
            Err(e) => Err(e),
        }
    }
}

/// The board that a placement describes.
pub open spec fn placement_of(s: Seq<char>) -> Result<Grid, ErrorKind> {
    match scan_from(scan_start(), s) {
        Ok(st) => Ok(st.grid),
        Err(e) => Err(e),
    }
}

/// The digit that stands for a run of `n` empty squares.
pub open spec fn run_digit(n: int) -> char {
    if n <= 1 {
        '1'
    } else if n == 2 {
        '2'
    } else if n == 3 {
        '3'
    } else if n == 4 {
        '4'
    } else if n == 5 {
        '5'
    } else if n == 6 {
        '6'
    } else if n == 7 {
        '7'
    } else {
        '8'
    }
}

/// The text for a run of `run` empty squares: its digit, or nothing where
/// the run is empty.
pub open spec fn run_text(run: int) -> Seq<char> {
    if run > 0 {
        seq![run_digit(run)]
    } else {
        Seq::empty()
    }
}

/// The text for the cells of `row` from `file` on, where `run` empty cells
/// before them are not yet written down.
pub open spec fn row_text(row: Seq<Option<Piece>>, file: int, run: int) -> Seq<char>
    decreases 8 - file,
{
    if file >= 8 {
        run_text(run)
    } else {
        match row[file] {
            None => row_text(row, file + 1, run + 1),
            Some(p) => run_text(run) + seq![char_of_piece(p)] + row_text(row, file + 1, 0),
        }
    }
}

/// The text for the ranks of `g` from `rank` down to the first.
pub open spec fn ranks_text(g: Grid, rank: int) -> Seq<char>
    decreases rank,
{
    if rank <= 0 {
        row_text(g[0], 0, 0)
    } else {
        row_text(g[rank], 0, 0) + seq!['/'] + ranks_text(g, rank - 1)
    }
}

/// The placement that describes `g`, each run of empty squares written as
/// one digit.
pub open spec fn placement_text(g: Grid) -> Seq<char> {
    ranks_text(g, 7)
}

/// How many cells a character of a rank's text covers.
pub open spec fn cells_of_char(c: char) -> int {
    if is_run_digit(c) {
        c as int - '0' as int
    } else {
        1
    }
}

/// How many cells a rank's text covers.
pub open spec fn cells_of_row(row: Seq<char>) -> int
    decreases row.len(),
{
    if row.len() == 0 {
        0
    } else {
        cells_of_char(row[0]) + cells_of_row(row.drop_first())
    }
}

/// Whether `row` is the text of one full rank: run digits and piece
/// letters only, covering eight cells.
pub open spec fn is_full_row(row: Seq<char>) -> bool {
    &&& forall|i: int|
        0 <= i < row.len() ==> is_run_digit(#[trigger] row[i]) || piece_of_char(row[i]) is Some
    &&& cells_of_row(row) == 8
}

/// How many characters stand at the head of `s` before its first `/`.
pub open spec fn row_len(s: Seq<char>) -> nat
    decreases s.len(),
{
    if s.len() == 0 || s[0] == '/' {
        0
    } else {
        1 + row_len(s.drop_first())
    }
}

/// Whether `s` is made of `count` full ranks, parted by `/`.
pub open spec fn is_full_ranks(s: Seq<char>, count: nat) -> bool
    decreases count,
{
    let n = row_len(s) as int;
    if count == 0 {
        false
    } else if count == 1 {
        n == s.len() && is_full_row(s)
    } else {
        n < s.len() && is_full_row(s.take(n)) && is_full_ranks(s.skip(n + 1), (count - 1) as nat)
    }
}

/// Whether `s` is a full placement: eight ranks of eight files each.
pub open spec fn is_full_placement(s: Seq<char>) -> bool {
    is_full_ranks(s, 8)
}

/// Reading a text that falls in two parts is reading the first part and
/// then, from where that ended, the second.
pub proof fn lemma_scan_concat(st: Scan, a: Seq<char>, b: Seq<char>)
    ensures
        scan_from(st, a + b) == match scan_from(st, a) {
            Ok(mid) => scan_from(mid, b),
            Err(e) => Err(e),
        },
    decreases a.len(),
{
    if a.len() == 0 {
        assert(a + b == b);
    } else {
        assert((a + b)[0] == a[0]);
        assert((a + b).drop_first() == a.drop_first() + b);
        match scan_step(st, a[0]) {
            Ok(next) => {
                lemma_scan_concat(next, a.drop_first(), b);
            },
            Err(e) => {},
        }
    }
}

/// Reading a single character is one step.
pub proof fn lemma_scan_one(st: Scan, c: char)
    ensures
        scan_from(st, seq![c]) == scan_step(st, c),
{
    let s = seq![c];
    assert(s[0] == c);
    assert(s.drop_first() == Seq::<char>::empty());
    match scan_step(st, c) {
        Ok(next) => {
            assert(scan_from(next, s.drop_first()) == Ok::<Scan, ErrorKind>(next));
        },
        Err(e) => {},
    }
}

/// The rank that the reader is in once the text of a rank's tail is read:
/// the cells before the pending run as the reader had them, the others as
/// in `row`.
pub open spec fn row_merged(st: Scan, row: Seq<Option<Piece>>) -> Seq<Option<Piece>> {
    Seq::new(
        8,
        |j: int|
            if j < st.file {
                st.grid[st.rank][j]
            } else {
                row[j]
            },
    )
}

/// Reading the text of a rank's tail writes that tail, and the pending run
/// before it, into the reader's rank and leaves the reader at its end.
pub proof fn lemma_row_text_reads(st: Scan, row: Seq<Option<Piece>>, file: int, run: int)
    requires
        is_grid(st.grid),
        row.len() == 8,
        0 <= st.rank < 8,
        0 <= run <= file <= 8,
        st.file == file - run,
        forall|j: int| file - run <= j < file ==> row[j] is None,
    ensures
        scan_from(st, row_text(row, file, run)) == Ok::<Scan, ErrorKind>(
            Scan { grid: st.grid.update(st.rank, row_merged(st, row)), rank: st.rank, file: 8 },
        ),
    decreases 8 - file,
{
    let goal = Scan { grid: st.grid.update(st.rank, row_merged(st, row)), rank: st.rank, file: 8 };
    // Where the pending run ends up once its digit, if any, is read.
    let after_run = if run > 0 {
        Scan { grid: clear_run(st.grid, st.rank, st.file, run), rank: st.rank, file: file }
    } else {
        st
    };
    assert(scan_from(st, run_text(run)) == Ok::<Scan, ErrorKind>(after_run)) by {
        if run > 0 {
            lemma_scan_one(st, run_digit(run));
            assert(run_digit(run) as int - '0' as int == run);
        }
    }
    if file >= 8 {
        assert(after_run.grid =~~= goal.grid);
    } else {
        match row[file] {
            None => {
                lemma_row_text_reads(st, row, file + 1, run + 1);
            },
            Some(p) => {
                let letter = char_of_piece(p);
                let placed = Scan {
                    grid: put(after_run.grid, st.rank, file, Some(p)),
                    rank: st.rank,
                    file: file + 1,
                };
                assert(scan_step(after_run, letter) == Ok::<Scan, ErrorKind>(placed));
                lemma_scan_one(after_run, letter);
                lemma_row_text_reads(placed, row, file + 1, 0);
                assert(placed.grid.update(placed.rank, row_merged(placed, row)) =~~= goal.grid);
                let tail = row_text(row, file + 1, 0);
                lemma_scan_concat(st, run_text(run) + seq![letter], tail);
                lemma_scan_concat(st, run_text(run), seq![letter]);
            },
        }
    }
}

/// The board that the reader holds once the text of the ranks from the
/// reader's own down to the first is read: those ranks as in `g`, the ranks
/// above as the reader had them.
pub open spec fn ranks_merged(st: Scan, g: Grid) -> Grid {
    Seq::new(
        8,
        |i: int|
            if i <= st.rank {
                g[i]
            } else {
                st.grid[i]
            },
    )
}

/// Reading the text of the ranks from the reader's own down to the first
/// writes those ranks and leaves the reader at the end of the first rank.
pub proof fn lemma_ranks_text_reads(st: Scan, g: Grid)
    requires
        is_grid(st.grid),
        is_grid(g),
        0 <= st.rank < 8,
        st.file == 0,
    ensures
        scan_from(st, ranks_text(g, st.rank)) == Ok::<Scan, ErrorKind>(
            Scan { grid: ranks_merged(st, g), rank: 0, file: 8 },
        ),
    decreases st.rank,
{
    let row = g[st.rank];
    let written = Scan { grid: st.grid.update(st.rank, row_merged(st, row)), rank: st.rank, file: 8 };
    lemma_row_text_reads(st, row, 0, 0);
    assert(row_merged(st, row) =~= row);
    if st.rank <= 0 {
        assert(written.grid =~~= ranks_merged(st, g));
    } else {
        let below = Scan { grid: written.grid, rank: st.rank - 1, file: 0 };
        lemma_scan_one(written, '/');
        lemma_ranks_text_reads(below, g);
        assert(ranks_merged(below, g) =~~= ranks_merged(st, g));
        lemma_scan_concat(st, row_text(row, 0, 0) + seq!['/'], ranks_text(g, st.rank - 1));
        lemma_scan_concat(st, row_text(row, 0, 0), seq!['/']);
    }
}

/// The placement written for a board describes that board: whatever board
/// is written down, reading the text gives it back.
pub proof fn lemma_text_reads_back(g: Grid)
    requires
        is_grid(g),
    ensures
        placement_of(placement_text(g)) == Ok::<Grid, ErrorKind>(g),
{
    lemma_ranks_text_reads(scan_start(), g);
    assert(ranks_merged(scan_start(), g) =~~= g);
}

/// Every step of a reading leaves a board of eight ranks of eight cells.
pub proof fn lemma_scan_keeps_grid(st: Scan, s: Seq<char>)
    requires
        is_grid(st.grid),
    ensures
        scan_from(st, s) matches Ok(end) ==> is_grid(end.grid),
    decreases s.len(),
{
    if s.len() > 0 {
        match scan_step(st, s[0]) {
            Ok(next) => {
                lemma_scan_keeps_grid(next, s.drop_first());
            },
            Err(e) => {},
        }
    }
}

/// A rank's text covers no fewer than no cells.
pub proof fn lemma_cells_of_row_nonnegative(row: Seq<char>)
    ensures
        cells_of_row(row) >= 0,
    decreases row.len(),
{
    if row.len() > 0 {
        lemma_cells_of_row_nonnegative(row.drop_first());
    }
}

/// A rank's text of run digits and piece letters that fits between the
/// reader and the end of its rank is read without error, and moves the
/// reader by the cells it covers.
pub proof fn lemma_row_reads(st: Scan, row: Seq<char>)
    requires
        0 <= st.rank < 8,
        0 <= st.file,
        st.file + cells_of_row(row) <= 8,
        forall|i: int|
            0 <= i < row.len() ==> is_run_digit(#[trigger] row[i]) || piece_of_char(row[i]) is Some,
    ensures
        scan_from(st, row) matches Ok(end) && end.rank == st.rank && end.file == st.file
            + cells_of_row(row),
    decreases row.len(),
{
    if row.len() > 0 {
        let rest = row.drop_first();
        lemma_cells_of_row_nonnegative(rest);
        assert(is_run_digit(row[0]) || piece_of_char(row[0]) is Some);
        let next = scan_step(st, row[0])->Ok_0;
        assert(scan_step(st, row[0]) is Ok);
        assert forall|i: int| 0 <= i < rest.len() implies is_run_digit(#[trigger] rest[i])
            || piece_of_char(rest[i]) is Some by {
            assert(rest[i] == row[i + 1]);
        }
        lemma_row_reads(next, rest);
    }
}

/// The head of a text before its first `/` is no longer than the text,
/// holds no `/`, and is followed by one unless the text ends there.
pub proof fn lemma_row_len_bounds(s: Seq<char>)
    ensures
        row_len(s) <= s.len(),
        row_len(s) < s.len() ==> s[row_len(s) as int] == '/',
    decreases s.len(),
{
    if s.len() == 0 || s[0] == '/' {
    } else {
        let t = s.drop_first();
        lemma_row_len_bounds(t);
        if row_len(s) < s.len() {
            assert(s[row_len(s) as int] == t[row_len(t) as int]);
        }
    }
}

/// A text of full ranks, as many as the reader has ranks left, is read
/// without error and leaves the reader at the end of the first rank.
pub proof fn lemma_full_ranks_read(st: Scan, s: Seq<char>, count: nat)
    requires
        1 <= count <= 8,
        st.rank == count - 1,
        st.file == 0,
        is_full_ranks(s, count),
    ensures
        scan_from(st, s) matches Ok(end) && end.rank == 0 && end.file == 8,
    decreases count,
{
    let n = row_len(s) as int;
    lemma_row_len_bounds(s);
    if count == 1 {
        lemma_row_reads(st, s);
    } else {
        let row = s.take(n);
        let rest = s.skip(n + 1);
        assert(s == row + seq!['/'] + rest);
        lemma_row_reads(st, row);
        let at_end = scan_from(st, row)->Ok_0;
        let below = Scan { grid: at_end.grid, rank: at_end.rank - 1, file: 0 };
        lemma_scan_one(at_end, '/');
        lemma_full_ranks_read(below, rest, (count - 1) as nat);
        lemma_scan_concat(st, row + seq!['/'], rest);
        lemma_scan_concat(st, row, seq!['/']);
    }
}

/// Reading a placement and writing the board down again gives a text that
/// describes the same board, whatever placement was read.
pub proof fn lemma_reread(s: Seq<char>)
    requires
        placement_of(s) is Ok,
    ensures
        is_grid(placement_of(s)->Ok_0),
        placement_of(placement_text(placement_of(s)->Ok_0)) == placement_of(s),
{
    lemma_scan_keeps_grid(scan_start(), s);
    lemma_text_reads_back(placement_of(s)->Ok_0);
}

/// A full placement, of eight ranks of eight files each, is read without
/// error, and the board read from it, written down again, gives a text that
/// describes the same board.
pub proof fn lemma_full_placement_round_trip(s: Seq<char>)
    requires
        is_full_placement(s),
    ensures
        placement_of(s) is Ok,
        is_grid(placement_of(s)->Ok_0),
        placement_of(placement_text(placement_of(s)->Ok_0)) == placement_of(s),
{
    lemma_full_ranks_read(scan_start(), s, 8);
    lemma_reread(s);
}

/// Whether no two run digits stand side by side in `s`, so that every run
/// of empty squares is written as one digit.
pub open spec fn no_adjacent_runs(s: Seq<char>) -> bool {
    forall|i: int| 0 <= i < s.len() - 1 ==> !(is_run_digit(#[trigger] s[i]) && is_run_digit(s[i + 1]))
}

/// Whether the cell at the given rank and file lies before the reader:
/// in a rank above the reader's, or in the reader's rank at a lower file.
pub open spec fn is_behind(st: Scan, rank: int, file: int) -> bool {
    rank > st.rank || (rank == st.rank && file < st.file)
}

/// A reading never goes back: it leaves the cells behind the reader as
/// they are.
pub proof fn lemma_scan_keeps_cells_behind(st: Scan, s: Seq<char>)
    requires
        is_grid(st.grid),
    ensures
        scan_from(st, s) matches Ok(end) ==> forall|rank: int, file: int|
            0 <= rank < 8 && 0 <= file < 8 && is_behind(st, rank, file) ==> #[trigger] end.grid[rank][file]
                == st.grid[rank][file],
    decreases s.len(),
{
    if s.len() > 0 {
        match scan_step(st, s[0]) {
            Ok(next) => {
                lemma_scan_keeps_cells_behind(next, s.drop_first());
                if let Ok(end) = scan_from(st, s) {
                    assert forall|rank: int, file: int|
                        0 <= rank < 8 && 0 <= file < 8 && is_behind(st, rank, file) implies #[trigger] end.grid[rank][file]
                        == st.grid[rank][file] by {
                        assert(is_behind(next, rank, file));
                        assert(next.grid[rank][file] == st.grid[rank][file]);
                    }
                }
            },
            Err(e) => {},
        }
    }
}

/// Empty cells ahead of the writer only make the pending run longer.
pub proof fn lemma_row_text_skips_empty(row: Seq<Option<Piece>>, file: int, run: int, n: int)
    requires
        0 <= n,
        0 <= file,
        file + n <= 8,
        forall|j: int| file <= j < file + n ==> row[j] is None,
    ensures
        row_text(row, file, run) == row_text(row, file + n, run + n),
    decreases n,
{
    if n > 0 {
        assert(row[file] is None);
        lemma_row_text_skips_empty(row, file + 1, run + 1, n - 1);
    }
}

/// A rank's text in which every run is one digit is written again as it
/// was read: once the text of a rank's tail is read, writing that tail of
/// the rank gives the text back, after the digit of the run that was
/// pending before it.
pub proof fn lemma_row_rewritten(st: Scan, row: Seq<char>, run: int)
    requires
        is_grid(st.grid),
        0 <= st.rank < 8,
        0 <= run <= st.file,
        st.file + cells_of_row(row) == 8,
        forall|i: int|
            0 <= i < row.len() ==> is_run_digit(#[trigger] row[i]) || piece_of_char(row[i]) is Some,
        no_adjacent_runs(row),
        run > 0 ==> row.len() == 0 || !is_run_digit(row[0]),
    ensures
        scan_from(st, row) matches Ok(end) && row_text(end.grid[st.rank], st.file, run) == run_text(run)
            + row,
    decreases row.len(),
{
    lemma_row_reads(st, row);
    let end = scan_from(st, row)->Ok_0;
    let written = end.grid[st.rank];
    if row.len() == 0 {
        assert(run_text(run) + row == run_text(run));
    } else {
        let rest = row.drop_first();
        let next = scan_step(st, row[0])->Ok_0;
        lemma_cells_of_row_nonnegative(rest);
        assert(is_run_digit(row[0]) || piece_of_char(row[0]) is Some);
        assert(scan_step(st, row[0]) is Ok);
        assert forall|i: int| 0 <= i < rest.len() implies is_run_digit(#[trigger] rest[i])
            || piece_of_char(rest[i]) is Some by {
            assert(rest[i] == row[i + 1]);
        }
        assert(no_adjacent_runs(rest)) by {
            assert forall|i: int| 0 <= i < rest.len() - 1 implies !(is_run_digit(#[trigger] rest[i])
                && is_run_digit(rest[i + 1])) by {
                assert(rest[i] == row[i + 1]);
                assert(rest[i + 1] == row[i + 2]);
            }
        }
        lemma_scan_keeps_cells_behind(next, rest);
        assert(row == seq![row[0]] + rest);
        if is_run_digit(row[0]) {
            let n = row[0] as int - '0' as int;
            if rest.len() > 0 {
                assert(rest[0] == row[1]);
            }
            lemma_row_rewritten(next, rest, n);
            assert forall|j: int| st.file <= j < st.file + n implies written[j] is None by {
                assert(is_behind(next, st.rank, j));
                assert(end.grid[st.rank][j] == next.grid[st.rank][j]);
            }
            lemma_row_text_skips_empty(written, st.file, 0, n);
            assert(run_digit(n) == row[0]);
            assert(run_text(n) + rest == run_text(0) + row);
        } else {
            let p = piece_of_char(row[0])->Some_0;
            lemma_row_rewritten(next, rest, 0);
            assert(is_behind(next, st.rank, st.file));
            assert(end.grid[st.rank][st.file] == next.grid[st.rank][st.file]);
            assert(written[st.file] == Some(p));
            assert(char_of_piece(p) == row[0]);
            assert(run_text(0) + rest == rest);
            assert(run_text(run) + seq![row[0]] + rest == run_text(run) + row);
        }
    }
}

/// In a text where every run is one digit, so it is in each part.
pub proof fn lemma_no_adjacent_runs_in_parts(s: Seq<char>, n: int)
    requires
        no_adjacent_runs(s),
        0 <= n < s.len(),
    ensures
        no_adjacent_runs(s.take(n)),
        no_adjacent_runs(s.skip(n + 1)),
{
    let head = s.take(n);
    let rest = s.skip(n + 1);
    assert forall|i: int| 0 <= i < head.len() - 1 implies !(is_run_digit(#[trigger] head[i])
        && is_run_digit(head[i + 1])) by {
        assert(head[i] == s[i]);
        assert(head[i + 1] == s[i + 1]);
    }
    assert forall|i: int| 0 <= i < rest.len() - 1 implies !(is_run_digit(#[trigger] rest[i])
        && is_run_digit(rest[i + 1])) by {
        assert(rest[i] == s[n + 1 + i]);
        assert(rest[i + 1] == s[n + 1 + i + 1]);
    }
}

/// A text of full ranks in which every run is one digit is written again
/// as it was read, from the reader's rank down.
pub proof fn lemma_full_ranks_rewritten(st: Scan, s: Seq<char>, count: nat)
    requires
        is_grid(st.grid),
        1 <= count <= 8,
        st.rank == count - 1,
        st.file == 0,
        is_full_ranks(s, count),
        no_adjacent_runs(s),
    ensures
        scan_from(st, s) matches Ok(end) && ranks_text(end.grid, st.rank) == s,
    decreases count,
{
    let n = row_len(s) as int;
    lemma_row_len_bounds(s);
    lemma_full_ranks_read(st, s, count);
    let end = scan_from(st, s)->Ok_0;
    if count == 1 {
        lemma_row_rewritten(st, s, 0);
        assert(run_text(0) + s == s);
    } else {
        let row = s.take(n);
        let rest = s.skip(n + 1);
        assert(s == row + seq!['/'] + rest);
        lemma_no_adjacent_runs_in_parts(s, n);
        lemma_row_reads(st, row);
        lemma_row_rewritten(st, row, 0);
        assert(run_text(0) + row == row);
        let at_end = scan_from(st, row)->Ok_0;
        let below = Scan { grid: at_end.grid, rank: at_end.rank - 1, file: 0 };
        lemma_scan_keeps_grid(st, row);
        lemma_scan_one(at_end, '/');
        lemma_scan_concat(st, row + seq!['/'], rest);
        lemma_scan_concat(st, row, seq!['/']);
        lemma_full_ranks_rewritten(below, rest, (count - 1) as nat);
        lemma_scan_keeps_cells_behind(below, rest);
        lemma_scan_keeps_grid(below, rest);
        assert(end.grid[st.rank] =~= at_end.grid[st.rank]) by {
            assert forall|j: int| 0 <= j < 8 implies end.grid[st.rank][j] == at_end.grid[st.rank][j] by {
                assert(is_behind(below, st.rank, j));
            }
        }
    }
}

/// A full placement in which every run of empty squares is one digit is
/// the very text that is written for the board it describes.
pub proof fn lemma_full_placement_rewritten(s: Seq<char>)
    requires
        is_full_placement(s),
        no_adjacent_runs(s),
    ensures
        placement_of(s) matches Ok(g) && placement_text(g) == s,
{
    lemma_full_ranks_rewritten(scan_start(), s, 8);
}

} // verus!
