use std::collections::HashMap;

use pandora_launcher::exec::{exec, ChildStep};

#[test]
fn a_child_without_redirections_only_becomes_the_program() {
    let steps = exec(None, None, None, &vec![]);
    assert_eq!(
        steps,
        vec![ChildStep::UseEnvironment, ChildStep::DieWithParent, ChildStep::Execute]
    );
}

#[test]
fn the_streams_are_connected_in_order_and_passed_descriptors_are_kept() {
    let steps = exec(Some(5), Some(8), Some(8), &vec![11, 12]);
    assert_eq!(
        steps,
        vec![
            ChildStep::UseEnvironment,
            ChildStep::Redirect { fd: 5, copy_first: false, target: 0 },
            ChildStep::Redirect { fd: 8, copy_first: false, target: 1 },
            ChildStep::Redirect { fd: 8, copy_first: false, target: 2 },
            ChildStep::KeepOpen(11),
            ChildStep::KeepOpen(12),
            ChildStep::DieWithParent,
            ChildStep::Execute,
        ]
    );
}

#[test]
fn descriptors_one_and_two_are_copied_first() {
    for fd in 0..5 {
        let steps = exec(Some(fd), None, None, &vec![]);
        let expected = fd == 1 || fd == 2;
        assert_eq!(steps[1], ChildStep::Redirect { fd, copy_first: expected, target: 0 });
    }
}

fn put(table: &mut HashMap<i32, (char, bool)>, from: i32, to: i32) {
    if from != to {
        let file = table[&from].0;
        table.insert(to, (file, false));
    }
}

fn run(steps: &[ChildStep], mut table: HashMap<i32, (char, bool)>) -> HashMap<i32, (char, bool)> {
    for step in steps {
        match *step {
            ChildStep::Redirect { fd, copy_first, target } => {
                let mut source = fd;
                if copy_first {
                    source = (0..).find(|n| !table.contains_key(n)).unwrap();
                    put(&mut table, fd, source);
                }
                put(&mut table, source, target);
            }
            ChildStep::KeepOpen(fd) => {
                let file = table[&fd].0;
                table.insert(fd, (file, false));
            }
            _ => {}
        }
    }
    table
}

#[test]
fn the_new_program_finds_its_streams() {
    let table: HashMap<i32, (char, bool)> = [
        (0, ('i', false)),
        (1, ('o', false)),
        (2, ('e', false)),
        (3, ('a', true)),
        (4, ('b', true)),
        (9, ('p', true)),
    ]
    .into_iter()
    .collect();
    let after = run(&exec(Some(3), Some(4), None, &vec![9]), table.clone());
    assert_eq!(after[&0], ('a', false));
    assert_eq!(after[&1], ('b', false));
    assert_eq!(after[&2], ('e', false));
    assert_eq!(after[&9], ('p', false));
    let swapped = run(&exec(None, Some(2), Some(4), &vec![]), table);
    assert_eq!(swapped[&0], ('i', false));
    assert_eq!(swapped[&1], ('e', false));
    assert_eq!(swapped[&2], ('b', false));
}
