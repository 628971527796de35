//! The n-queens counting kernel: plain backtracking over rows, one queen per
//! row, rejecting shared columns and diagonals. No symmetry is exploited; the
//! raw search tree is the benchmarked workload.

use vstd::prelude::*;

verus! {

/// Distance between two columns or rows.
pub open spec fn dist(a: int, b: int) -> int {
    if a >= b {
        a - b
    } else {
        b - a
    }
}

/// A queen in column `col`, placed on the row after `prefix`, attacks no
/// earlier queen: no shared column, no shared diagonal.
pub open spec fn ok_to_place(prefix: Seq<i32>, col: int) -> bool {
    forall|r: int|
        0 <= r < prefix.len() ==> #[trigger] prefix[r] as int != col && dist(
            prefix[r] as int,
            col,
        ) != prefix.len() - r
}

/// Number of complete safe placements on an n-row board that extend `prefix`
/// (one already-placed queen per entry of `prefix`).
pub open spec fn count_completions(n: int, prefix: Seq<i32>) -> nat
    decreases n - prefix.len(), n + 1,
        when n >= 0
{
    if prefix.len() >= n {
        1
    } else {
        count_completions_from(n, prefix, 0)
    }
}

/// Number of complete safe placements that extend `prefix` with a first
/// queen in some column at least `col`.
pub open spec fn count_completions_from(n: int, prefix: Seq<i32>, col: int) -> nat
    decreases n - prefix.len(), n - col,
        when n >= 0 && prefix.len() < n
{
    if col >= n || col < 0 {
        0
    } else {
        (if ok_to_place(prefix, col) {
            count_completions(n, prefix.push(col as i32))
        } else {
            0
        }) + count_completions_from(n, prefix, col + 1)
    }
}

/// Number of solutions of the n-queens problem.
pub open spec fn nqueens_count(n: int) -> nat {
    count_completions(n, Seq::empty())
}

/// Whether a queen at (row, col) is compatible with the queens already
/// placed on the rows before `row`.
fn is_safe(board: &Vec<i32>, row: u32, col: i32, n: u32) -> (r: bool)
    requires
        n <= i32::MAX,
        row < n,
        board.len() == n,
        0 <= col < n,
        forall|k: int| 0 <= k < row ==> 0 <= #[trigger] board@[k] < n,
    ensures
        r == ok_to_place(board@.take(row as int), col as int),
{
    let ghost prefix = board@.take(row as int);
    let mut prev_row: u32 = 0;
    while prev_row < row
        invariant
            prev_row <= row < n <= i32::MAX,
            board.len() == n,
            0 <= col < n,
            forall|k: int| 0 <= k < row ==> 0 <= #[trigger] board@[k] < n,
            prefix == board@.take(row as int),
            forall|r: int|
                0 <= r < prev_row ==> #[trigger] prefix[r] as int != col as int && dist(
                    prefix[r] as int,
                    col as int,
                ) != row - r,
        decreases row - prev_row,
    {
        let prev_col = board[prev_row as usize];
        let col_diff = if prev_col >= col {
            prev_col - col
        } else {
            col - prev_col
        };
        let row_diff = row - prev_row;
        if prev_col == col || col_diff as u32 == row_diff {
            assert(!ok_to_place(prefix, col as int)) by {
                assert(prefix[prev_row as int] == board@[prev_row as int]);
            };
            return false;
        }
        prev_row += 1;
    }
    true
}

/// Backtracking placement of queens on rows `row` .. n, adding the number of
/// complete safe placements that extend the first `row` entries of `board`
/// to `count`.
fn place_queen(n: u32, row: u32, board: &mut Vec<i32>, count: &mut u32)
    requires
        n <= i32::MAX,
        row <= n,
        old(board).len() == n,
        forall|k: int| 0 <= k < row ==> 0 <= #[trigger] old(board)@[k] < n,
        *old(count) + count_completions(n as int, old(board)@.take(row as int)) <= u32::MAX,
    ensures
        final(board).len() == n,
        final(board)@.take(row as int) == old(board)@.take(row as int),
        forall|k: int| 0 <= k < row ==> 0 <= #[trigger] final(board)@[k] < n,
        *final(count) == *old(count) + count_completions(
            n as int,
            old(board)@.take(row as int),
        ),
    decreases n - row,
{
    let ghost prefix = old(board)@.take(row as int);
    if row == n {
        assert(count_completions(n as int, prefix) == 1);
        *count += 1;
        return ;
    }
    let ghost count0 = *count;
    let mut col: u32 = 0;
    while col < n
        invariant
            n <= i32::MAX,
            row < n,
            col <= n,
            board.len() == n,
            forall|k: int| 0 <= k < row ==> 0 <= #[trigger] board@[k] < n,
            prefix == board@.take(row as int),
            count0 + count_completions(n as int, prefix) <= u32::MAX,
            *count + count_completions_from(n as int, prefix, col as int) == count0
                + count_completions_from(n as int, prefix, 0),
        decreases n - col,
    {
        let safe = is_safe(board, row, col as i32, n);
        if safe {
            board.set(row as usize, col as i32);
            assert(board@.take(row as int + 1) =~= prefix.push(col as i32));
            assert(count_completions_from(n as int, prefix, col as int) == count_completions(
                n as int,
                prefix.push(col as i32),
            ) + count_completions_from(n as int, prefix, col as int + 1));
            place_queen(n, row + 1, board, count);
            assert(board@.take(row as int) =~= prefix);
        } else {
            assert(count_completions_from(n as int, prefix, col as int)
                == count_completions_from(n as int, prefix, col as int + 1));
        }
        col += 1;
    }
    assert(count_completions_from(n as int, prefix, n as int) == 0);
    assert(count_completions(n as int, prefix) == count_completions_from(n as int, prefix, 0));
}

/// Count of solutions to the n-queens problem by exhaustive backtracking.
pub fn nqueens(n: u32) -> (r: u32)
    requires
        n <= i32::MAX,
        nqueens_count(n as int) <= u32::MAX,
    ensures
        r == nqueens_count(n as int),
{
    let mut board: Vec<i32> = Vec::new();
    let mut t: u32 = 0;
    while t < n
        invariant
            t <= n,
            board.len() == t,
        decreases n - t,
    {
        board.push(-1);
        t += 1;
    }
    let mut count: u32 = 0;
    assert(board@.take(0) =~= Seq::<i32>::empty());
    place_queen(n, 0, &mut board, &mut count);
    count
}

} // verus!
