use braincooker::eval_instr;
use braincooker::Instruction as I;

#[test]
fn prune_basic() {
    let mut instructions = eval_instr("[+++]>+<-").expect("Unreachable");
    let got_pruned = instructions.prune_comment_loop();
    let pruned = vec![I::Right, I::Increment, I::Left, I::Decrement];

    assert!(got_pruned);
    assert_eq!(*instructions.as_vec(), pruned);
}

#[test]
fn prune_no_loop() {
    let mut instructions = eval_instr(">+<-").expect("Unreachable");
    let not_pruned = !instructions.prune_comment_loop();
    let pruned = vec![I::Right, I::Increment, I::Left, I::Decrement];

    assert!(not_pruned);
    assert_eq!(*instructions.as_vec(), pruned);
}

#[test]
fn prune_only_loop() {
    let mut instructions = eval_instr("[+++]").expect("Unreachable");
    let got_pruned = instructions.prune_comment_loop();
    let pruned: Vec<braincooker::Instruction> = vec![];

    assert!(got_pruned);
    assert_eq!(*instructions.as_vec(), pruned);
}

#[test]
fn prune_mutiple_loops() {
    let mut instructions = eval_instr("[+++][---][>][<],.").expect("Unreachable");
    let count = instructions.prune_all_loops();
    let pruned = vec![I::Input, I::Output];

    assert_eq!(count, 4);
    assert_eq!(*instructions.as_vec(), pruned);
}

#[test]
fn prune_loops_within_loops() {
    let mut instructions = eval_instr("[[+++][---][[>][<]]],.").expect("Unreachable");
    let got_pruned = instructions.prune_comment_loop();
    let pruned = vec![I::Input, I::Output];

    assert!(got_pruned);
    assert_eq!(*instructions.as_vec(), pruned);
}

#[test]
fn prune_all_twice_changes_nothing() {
    let mut instructions = eval_instr("[+++][---],.").expect("Unreachable");
    let first = instructions.prune_all_loops();
    assert_eq!(first, 2);

    let before: Vec<braincooker::Instruction> = instructions.as_vec().clone();
    let second = instructions.prune_all_loops();
    assert_eq!(second, 0);
    assert_eq!(*instructions.as_vec(), before);
}

#[test]
fn prune_empty_sequence() {
    let mut instructions = eval_instr("").expect("Unreachable");
    assert!(!instructions.prune_comment_loop());
    assert_eq!(instructions.prune_all_loops(), 0);
}
