use purepic::svg::tokenize_path;
use purepic::svg_path::{path_commands, PathError, PathStep};

fn read(path: &str) -> (Vec<(char, usize)>, Option<PathError>) {
    let tokens = tokenize_path(path).unwrap();
    let (steps, stop) = path_commands(&tokens);
    (steps.iter().map(|step: &PathStep| (step.command, step.operands)).collect(), stop)
}

#[test]
fn closed_line_path_reads_as_five_commands() {
    let (steps, stop) = read("M 4 4 L 20 4 L 20 20 L 4 20 Z");
    assert_eq!(steps, [('M', 1), ('L', 4), ('L', 7), ('L', 10), ('Z', 13)]);
    assert_eq!(stop, None);
}

#[test]
fn numbers_after_a_move_are_lines() {
    assert_eq!(read("m 1 2 3 4 5 6"), (vec![('m', 1), ('l', 3), ('l', 5)], None));
    assert_eq!(read("M1 2 3 4"), (vec![('M', 1), ('L', 3)], None));
    assert_eq!(read("h 1 2 v 3"), (vec![('h', 1), ('h', 2), ('v', 4)], None));
}

#[test]
fn curves_and_arcs_take_their_numbers() {
    let (steps, stop) = read("M 0 0 c 4 0 4 8 8 8 s 4 8 8 0 a 2 2 0 0 1 4 0 z");
    assert_eq!(steps, [('M', 1), ('c', 4), ('s', 11), ('a', 16), ('z', 24)]);
    assert_eq!(stop, None);
}

#[test]
fn path_grammar_errors() {
    assert_eq!(read(""), (vec![], None));
    assert_eq!(read("4 4"), (vec![], Some(PathError::ExpectedCommand)));
    assert_eq!(read("M 1 2 Z 3 4"), (vec![('M', 1), ('Z', 4)], Some(PathError::ExpectedCommand)));
    assert_eq!(read("M 1 2 Q 3 4"), (vec![('M', 1)], Some(PathError::UnsupportedCommand)));
    assert_eq!(
        read("M 1 L 2 3"),
        (vec![], Some(PathError::ExpectedNumber { command: 'M', operands: 1 }))
    );
    assert_eq!(
        read("M 0 0 A 1 1 0 0 1 5"),
        (vec![('M', 1)], Some(PathError::ExpectedNumber { command: 'A', operands: 4 }))
    );
    assert_eq!(
        read("L 1 2 3"),
        (vec![('L', 1)], Some(PathError::ExpectedNumber { command: 'L', operands: 3 }))
    );
}
