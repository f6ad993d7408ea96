//! The grammar of SVG path data over its tokens: which command each group of numbers
//! belongs to. A command letter may be followed by several groups of numbers, each group
//! repeating the command, except that the groups after a move are lines; `Z` closes the
//! subpath and takes no numbers, so numbers after it need a new command. Turning the
//! numbers into coordinates is the caller's work.

use vstd::prelude::*;
use crate::svg::PathToken;

verus! {

/// Why the commands of path data cannot all be read.
#[derive(Clone, Copy, Debug, PartialEq, Eq, Structural)]
pub enum PathError {
    /// Numbers where no command is active: at the start, or after `Z`.
    ExpectedCommand,
    /// A letter that is no path command.
    UnsupportedCommand,
    /// `command`, whose numbers start at token `operands`, is not followed by all of them.
    ExpectedNumber { command: char, operands: usize },
}

/// One command of path data: its letter (`L` or `l` for a group repeated after a move)
/// and the position among the tokens of its first number.
#[derive(Clone, Copy, Debug, PartialEq, Eq, Structural)]
pub struct PathStep {
    pub command: char,
    pub operands: usize,
}

/// Whether `c` is a command letter that path data may hold.
pub open spec fn is_path_command(c: char) -> bool {
    c == 'M' || c == 'm' || c == 'L' || c == 'l' || c == 'H' || c == 'h' || c == 'V' || c == 'v'
        || c == 'C' || c == 'c' || c == 'S' || c == 's' || c == 'A' || c == 'a' || c == 'Z'
        || c == 'z'
}

/// How many numbers command `c` takes: a point for moves and lines, one coordinate for
/// horizontal and vertical lines, three points for curves, two for smooth curves, and
/// radii, rotation, two flags and a point for arcs.
pub open spec fn command_arity(c: char) -> int {
    if c == 'M' || c == 'm' || c == 'L' || c == 'l' {
        2
    } else if c == 'H' || c == 'h' || c == 'V' || c == 'v' {
        1
    } else if c == 'C' || c == 'c' {
        6
    } else if c == 'S' || c == 's' {
        4
    } else if c == 'A' || c == 'a' {
        7
    } else {
        0
    }
}

/// How many points command `c` names: the end point of a move, line or arc, two control
/// points and the end point of a cubic curve, the second control point and the end point
/// of a smooth curve, none for horizontal and vertical lines and for `Z`.
pub open spec fn command_points(c: char) -> int {
    if c == 'M' || c == 'm' || c == 'L' || c == 'l' || c == 'A' || c == 'a' {
        1
    } else if c == 'C' || c == 'c' {
        3
    } else if c == 'S' || c == 's' {
        2
    } else {
        0
    }
}

/// How many single numbers command `c` takes besides its points: one coordinate for a
/// horizontal or vertical line; two radii, a rotation and two flags for an arc.
pub open spec fn command_scalars(c: char) -> int {
    if c == 'H' || c == 'h' || c == 'V' || c == 'v' {
        1
    } else if c == 'A' || c == 'a' {
        5
    } else {
        0
    }
}

/// A path command takes two numbers for each point it names and one for each other value,
/// and its absolute (upper-case) and relative (lower-case) forms take the same numbers.
pub proof fn command_arity_counts_points_and_values(c: char)
    ensures
        command_arity(c) == 2 * command_points(c) + command_scalars(c),
        'A' <= c <= 'Z' ==> is_path_command(c) == is_path_command(((c as u32) + 32) as char)
            && command_arity(c) == command_arity(((c as u32) + 32) as char),
{
    if 'A' <= c <= 'Z' {
        let lower = ((c as u32) + 32) as char;
        assert(c == 'M' ==> lower == 'm');
        assert(c == 'L' ==> lower == 'l');
        assert(c == 'H' ==> lower == 'h');
        assert(c == 'V' ==> lower == 'v');
        assert(c == 'C' ==> lower == 'c');
        assert(c == 'S' ==> lower == 's');
        assert(c == 'A' ==> lower == 'a');
        assert(c == 'Z' ==> lower == 'z');
    }
}

/// The command that further numbers after command `c` repeat: a line after a move, none
/// after `Z`, else `c` itself.
pub open spec fn repeated_command(c: char) -> Option<char> {
    if c == 'M' {
        Some('L')
    } else if c == 'm' {
        Some('l')
    } else if c == 'Z' || c == 'z' {
        None
    } else {
        Some(c)
    }
}

/// The path commands are move, line, horizontal line, vertical line, cubic curve, smooth
/// cubic curve, arc and close, each in an absolute (upper-case) and a relative
/// (lower-case) form; no other letter is one.
pub proof fn path_command_letters(c: char)
    ensures
        is_path_command(c) <==> seq!['M', 'L', 'H', 'V', 'C', 'S', 'A', 'Z'].contains(c) || seq![
            'm',
            'l',
            'h',
            'v',
            'c',
            's',
            'a',
            'z',
        ].contains(c),
{
    let upper = seq!['M', 'L', 'H', 'V', 'C', 'S', 'A', 'Z'];
    let lower = seq!['m', 'l', 'h', 'v', 'c', 's', 'a', 'z'];
    if is_path_command(c) {
        if c == 'M' { assert(upper[0] == c); } else if c == 'L' { assert(upper[1] == c); }
        else if c == 'H' { assert(upper[2] == c); } else if c == 'V' { assert(upper[3] == c); }
        else if c == 'C' { assert(upper[4] == c); } else if c == 'S' { assert(upper[5] == c); }
        else if c == 'A' { assert(upper[6] == c); } else if c == 'Z' { assert(upper[7] == c); }
        else if c == 'm' { assert(lower[0] == c); } else if c == 'l' { assert(lower[1] == c); }
        else if c == 'h' { assert(lower[2] == c); } else if c == 'v' { assert(lower[3] == c); }
        else if c == 'c' { assert(lower[4] == c); } else if c == 's' { assert(lower[5] == c); }
        else if c == 'a' { assert(lower[6] == c); } else { assert(lower[7] == c); }
    }
    if upper.contains(c) {
        let k = choose|k: int| 0 <= k < upper.len() && upper[k] == c;
        assert(0 <= k < 8);
    }
    if lower.contains(c) {
        let k = choose|k: int| 0 <= k < lower.len() && lower[k] == c;
        assert(0 <= k < 8);
    }
}

/// Numbers that follow a command's own numbers repeat it, except that after a move they
/// draw lines (absolute after an absolute move, relative after a relative one) and after a
/// close they are not allowed.
pub proof fn numbers_after_a_command_repeat_it(c: char)
    requires
        is_path_command(c),
    ensures
        c == 'M' ==> repeated_command(c) == Some('L'),
        c == 'm' ==> repeated_command(c) == Some('l'),
        c == 'Z' || c == 'z' ==> repeated_command(c) is None,
        c != 'M' && c != 'm' && c != 'Z' && c != 'z' ==> repeated_command(c) == Some(c),
        repeated_command(c) matches Some(next) ==> is_path_command(next) && command_arity(next)
            > 0,
{
}

/// Whether the `count` tokens from `start` on exist and are all numbers.
pub open spec fn numbers_at(tokens: Seq<PathToken>, start: int, count: int) -> bool {
    &&& 0 <= start
    &&& start + count <= tokens.len()
    &&& forall|k: int| start <= k < start + count ==> #[trigger] tokens[k] is Number
}

/// The commands read from token `index` on while `active` is the command that numbers
/// repeat, and what stops the reading, if anything does before the tokens end.
pub open spec fn path_steps(tokens: Seq<PathToken>, index: int, active: Option<char>) -> (
    Seq<PathStep>,
    Option<PathError>,
)
    decreases tokens.len() - index, if active is Some {
        1int
    } else {
        0int
    },
{
    if index < 0 || index >= tokens.len() {
        (Seq::empty(), None)
    } else {
        let command = match tokens[index] {
            PathToken::Command(c) => Some(c),
            PathToken::Number(_) => active,
        };
        let at = if tokens[index] is Command {
            index + 1
        } else {
            index
        };
        match command {
            None => (Seq::empty(), Some(PathError::ExpectedCommand)),
            Some(c) => if !is_path_command(c) {
                (Seq::empty(), Some(PathError::UnsupportedCommand))
            } else if !numbers_at(tokens, at, command_arity(c)) {
                (Seq::empty(), Some(PathError::ExpectedNumber { command: c, operands: at as usize }))
            } else {
                let rest = path_steps(tokens, at + command_arity(c), repeated_command(c));
                (seq![PathStep { command: c, operands: at as usize }] + rest.0, rest.1)
            },
        }
    }
}

fn path_command_check(c: char) -> (r: bool)
    ensures
        r == is_path_command(c),
{
    c == 'M' || c == 'm' || c == 'L' || c == 'l' || c == 'H' || c == 'h' || c == 'V' || c == 'v'
        || c == 'C' || c == 'c' || c == 'S' || c == 's' || c == 'A' || c == 'a' || c == 'Z'
        || c == 'z'
}

fn arity_of(c: char) -> (r: usize)
    ensures
        r == command_arity(c),
{
    if c == 'M' || c == 'm' || c == 'L' || c == 'l' {
        2
    } else if c == 'H' || c == 'h' || c == 'V' || c == 'v' {
        1
    } else if c == 'C' || c == 'c' {
        6
    } else if c == 'S' || c == 's' {
        4
    } else if c == 'A' || c == 'a' {
        7
    } else {
        0
    }
}

fn repeated_command_of(c: char) -> (r: Option<char>)
    ensures
        r == repeated_command(c),
{
    if c == 'M' {
        Some('L')
    } else if c == 'm' {
        Some('l')
    } else if c == 'Z' || c == 'z' {
        None
    } else {
        Some(c)
    }
}

/// Reads the commands of path data from its tokens: every complete command in order, and
/// what stopped the reading when the tokens do not all belong to commands (the commands
/// before that point are still returned).
pub fn path_commands(tokens: &Vec<PathToken>) -> (r: (Vec<PathStep>, Option<PathError>))
    ensures
        r.0@ == path_steps(tokens@, 0, None).0,
        r.1 == path_steps(tokens@, 0, None).1,
        forall|k: int|
            0 <= k < r.0@.len() ==> is_path_command(#[trigger] r.0@[k].command) && numbers_at(
                tokens@,
                r.0@[k].operands as int,
                2 * command_points(r.0@[k].command) + command_scalars(r.0@[k].command),
            ),
{
    let mut steps: Vec<PathStep> = Vec::new();
    let mut index: usize = 0;
    let mut active: Option<char> = None;
    let length = tokens.len();
    while index < length
        invariant
            length == tokens@.len(),
            index <= length,
            active matches Some(c) ==> is_path_command(c) && command_arity(c) > 0,
            steps@ + path_steps(tokens@, index as int, active).0 == path_steps(tokens@, 0, None).0,
            path_steps(tokens@, index as int, active).1 == path_steps(tokens@, 0, None).1,
            forall|k: int|
                0 <= k < steps@.len() ==> is_path_command(#[trigger] steps@[k].command) && numbers_at(
                    tokens@,
                    steps@[k].operands as int,
                    2 * command_points(steps@[k].command) + command_scalars(steps@[k].command),
                ),
        decreases length - index,
    {
        let ghost rest = path_steps(tokens@, index as int, active);
        let (command, at) = match &tokens[index] {
            PathToken::Command(c) => (Some(*c), index + 1),
            PathToken::Number(_) => (active, index),
        };
        let c = match command {
            Some(c) => c,
            None => {
                assert(rest.0 =~= Seq::<PathStep>::empty());
                assert(steps@ + rest.0 =~= steps@);
                return (steps, Some(PathError::ExpectedCommand));
            },
        };
        if !path_command_check(c) {
            assert(steps@ + rest.0 =~= steps@);
            return (steps, Some(PathError::UnsupportedCommand));
        }
        let count = arity_of(c);
        if count > length - at {
            assert(steps@ + rest.0 =~= steps@);
            return (steps, Some(PathError::ExpectedNumber { command: c, operands: at }));
        }
        let mut k: usize = at;
        let mut complete = true;
        while k < at + count
            invariant
                length == tokens@.len(),
                at <= k <= at + count <= length,
                complete ==> forall|m: int| at <= m < k ==> #[trigger] tokens@[m] is Number,
                !complete ==> !numbers_at(tokens@, at as int, count as int),
            decreases at + count - k,
        {
            let is_number = match &tokens[k] {
                PathToken::Number(_) => true,
                PathToken::Command(_) => false,
            };
            if !is_number {
                complete = false;
                assert(!(tokens@[k as int] is Number));
            }
            k = k + 1;
        }
        if !complete {
            assert(steps@ + rest.0 =~= steps@);
            return (steps, Some(PathError::ExpectedNumber { command: c, operands: at }));
        }
        assert(numbers_at(tokens@, at as int, count as int));
        proof {
            command_arity_counts_points_and_values(c);
        }
        let step = PathStep { command: c, operands: at };
        let ghost next = path_steps(tokens@, (at + count) as int, repeated_command(c));
        assert(rest.0 == seq![step] + next.0);
        assert(steps@.push(step) + next.0 =~= steps@ + (seq![step] + next.0));
        steps.push(step);
        index = at + count;
        active = repeated_command_of(c);
    }
    assert(steps@ + path_steps(tokens@, index as int, active).0 =~= steps@);
    (steps, None)
}

} // verus!
