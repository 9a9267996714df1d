//! Steps of the cursor by characters and lines.
use crate::editor::input::helpers::{
    closing_of, count_of, floor_sub, goal_col, least, no_count, rightmost, shifted_col,
    vertical_input,
};
use crate::editor::{InputState, Mode};
use vstd::prelude::*;

verus! {

/// A step to the left goes back by its count, and stops at the start of the
/// line.
pub proof fn steps_left_stop_at_the_start(col: int, count: int)
    requires
        0 <= col,
        0 <= count,
    ensures
        count <= col ==> floor_sub(col, count) == col - count,
        count >= col ==> floor_sub(col, count) == 0,
{
}

/// A step to the right goes on by its count, and stops on the last cluster; one
/// behind it while inserting, and nowhere in a block.
pub proof fn steps_right_stop_at_the_end(mode: Mode, col: int, count: int, clusters: int)
    requires
        0 <= col,
        0 <= count,
        0 <= clusters <= usize::MAX,
        col + count <= usize::MAX,
    ensures
        ({
            let to = least(col + count, rightmost(mode, clusters));
            &&& mode is VisualBlock ==> to == col + count
            &&& mode is Insert ==> to == if col + count <= clusters {
                col + count
            } else {
                clusters
            }
            &&& !(mode is VisualBlock) && !(mode is Insert) && clusters > 0 ==> to == if col + count
                < clusters {
                col + count
            } else {
                clusters - 1
            }
            &&& !(mode is VisualBlock) && clusters == 0 ==> to == 0
        }),
{
}

/// A step between lines keeps the column that the cursor tries to keep, as far
/// as the line reaches.
pub proof fn steps_between_lines_keep_the_column(mode: Mode, goal: int, clusters: int)
    requires
        0 <= goal,
        0 <= clusters,
    ensures
        mode is VisualBlock || goal < clusters ==> goal_col(mode, goal, clusters) == goal,
        !(mode is VisualBlock) && 0 < clusters <= goal ==> goal_col(mode, goal, clusters)
            == clusters - 1,
        !(mode is VisualBlock) && clusters == 0 ==> goal_col(mode, goal, clusters) == 0,
{
}

/// Without a count a command is done once; a count is used up.
pub proof fn counts_are_used_up(input: InputState, moved: bool)
    ensures
        input.count is None ==> count_of(input) == 1,
        input.count matches Some(n) ==> count_of(input) == n,
        no_count(input).count is None,
        vertical_input(input, moved).count is None,
        vertical_input(input, true).macro_abort == input.macro_abort,
        vertical_input(input, false).macro_abort,
        no_count(input) == (InputState { count: None, ..input }),
{
}

/// A cursor behind an indentation keeps its distance from the text when the
/// indentation changes; one inside it goes to the start of the text.
pub proof fn cursors_keep_their_distance(col: int, old_len: int, new_len: int)
    requires
        0 <= col,
        0 <= old_len,
        0 <= new_len,
        col + new_len <= usize::MAX,
    ensures
        col >= old_len ==> shifted_col(col, old_len, new_len) - new_len == col - old_len,
        col < old_len ==> shifted_col(col, old_len, new_len) == new_len,
{
}

/// Each bracket has its own partner.
pub proof fn brackets_have_partners(c: char)
    ensures
        closing_of('{') == Some('}'),
        closing_of('(') == Some(')'),
        closing_of('[') == Some(']'),
        c != '{' && c != '(' && c != '[' ==> closing_of(c) is None,
{
}

} // verus!
