use braincooker::eval_instr;
use braincooker::Instruction;
use braincooker::Instruction as I;
use braincooker::RLEInstructionSet;
use braincooker::RLE;

fn runs_of(encoded: &RLEInstructionSet) -> Vec<(u16, Instruction)> {
    let mut pairs = Vec::new();
    let mut i = 0;
    while i < encoded.len() {
        pairs.push(encoded.run(i).get());
        i += 1;
    }
    pairs
}

#[test]
fn rle_basic() {
    let value = RLE::new(8, true).get();
    let other = (8, true);

    assert_eq!(value, other);
}

#[test]
fn eval_instr_rle_basic() {
    let instructions = eval_instr("++>+++++[<+>-]++++++++[<++++++>-]<.")
        .expect("Unreachable")
        .encode_run_length();

    let rle = vec![
        (2, I::Increment),
        (1, I::Right),
        (5, I::Increment),
        (1, I::LoopOpen),
        (1, I::Left),
        (1, I::Increment),
        (1, I::Right),
        (1, I::Decrement),
        (1, I::LoopClose),
        (8, I::Increment),
        (1, I::LoopOpen),
        (1, I::Left),
        (6, I::Increment),
        (1, I::Right),
        (1, I::Decrement),
        (1, I::LoopClose),
        (1, I::Left),
        (1, I::Output),
    ];

    assert_eq!(runs_of(&instructions), rle);
}

#[test]
fn eval_instr_rle_many() {
    let instr_str: String = "+".repeat(u16::MAX as usize + 1);

    let instructions = eval_instr(&instr_str)
        .expect("Unreachable")
        .encode_run_length();

    let rle = vec![(u16::MAX, I::Increment), (1, I::Increment)];

    assert_eq!(runs_of(&instructions), rle);
}

#[test]
fn rle_instr_rle_basic() {
    let instructions = eval_instr("++>+++++[<+>-]++++++++[<++++++>-]<.")
        .expect("Unreachable")
        .encode_run_length();

    let rle = vec![
        (2, I::Increment),
        (1, I::Right),
        (5, I::Increment),
        (1, I::LoopOpen),
        (1, I::Left),
        (1, I::Increment),
        (1, I::Right),
        (1, I::Decrement),
        (1, I::LoopClose),
        (8, I::Increment),
        (1, I::LoopOpen),
        (1, I::Left),
        (6, I::Increment),
        (1, I::Right),
        (1, I::Decrement),
        (1, I::LoopClose),
        (1, I::Left),
        (1, I::Output),
    ];

    assert_eq!(runs_of(&instructions), rle);
}

#[test]
fn rle_instr_rle_many() {
    let instr_str: String = "+".repeat(u16::MAX as usize + 1);

    let instructions = eval_instr(&instr_str)
        .expect("Unreachable")
        .encode_run_length();

    let rle = vec![(u16::MAX, I::Increment), (1, I::Increment)];

    assert_eq!(runs_of(&instructions), rle);
}

#[test]
fn rle_counts_never_exceed_cap() {
    let instr_str: String = "+".repeat(3 * u16::MAX as usize + 7);
    let instructions = eval_instr(&instr_str)
        .expect("Unreachable")
        .encode_run_length();

    let pairs = runs_of(&instructions);
    assert_eq!(
        pairs,
        vec![
            (u16::MAX, I::Increment),
            (u16::MAX, I::Increment),
            (u16::MAX, I::Increment),
            (7, I::Increment),
        ]
    );
    for (count, _) in pairs {
        assert!(count >= 1);
    }
}

#[test]
fn rle_empty_sequence() {
    let instructions = eval_instr("").expect("Unreachable").encode_run_length();
    assert_eq!(instructions.len(), 0);
}
