use braincooker::Tape;

#[test]
fn tape_basic() {
    let tape = Tape::<u8, u8>::default();

    assert_eq!(tape.get(), 0);
}

#[test]
fn tape_cell_size_u8() {
    let mut tape = Tape::<u8, u8>::default();

    tape.decrement();

    assert_eq!(tape.get(), u8::MAX);
}

#[test]
fn tape_cell_size_u16() {
    let mut tape = Tape::<u8, u16>::default();

    tape.decrement();

    assert_eq!(tape.get(), u16::MAX);
}

#[test]
fn tape_cell_size_u32() {
    let mut tape = Tape::<u8, u32>::default();

    tape.decrement();

    assert_eq!(tape.get(), u32::MAX);
}

#[test]
fn tape_ptr_size_u8() {
    let mut tape = Tape::<u8, u8>::default();

    let value = 69;

    tape.set(value);

    (0..=u8::MAX).for_each(|_| tape.right());

    assert_eq!(tape.get(), value);
}

#[test]
fn tape_ptr_size_u16() {
    let mut tape = Tape::<u16, u8>::default();

    let value = 69;

    tape.set(value);

    (0..=u16::MAX).for_each(|_| tape.right());

    assert_eq!(tape.get(), value);
}

#[test]
fn tape_len_u8() {
    let tape = Tape::<u8, u8>::default();
    let length = u8::MAX as usize + 1;

    assert_eq!(tape.len(), length);
}

#[test]
fn tape_len_u16() {
    let tape = Tape::<u16, u8>::default();
    let length = u16::MAX as usize + 1;

    assert_eq!(tape.len(), length);
}

#[test]
fn tape_init_zero_u16_ptr_u16_cell() {
    let mut tape = Tape::<u16, u16>::default();
    assert_eq!(tape.get(), 0);
    tape.decrement();
    assert_eq!(tape.get(), u16::MAX);
}

#[test]
fn tape_init_zero_u16_ptr_u32_cell() {
    let mut tape = Tape::<u16, u32>::default();
    assert_eq!(tape.get(), 0);
    tape.decrement();
    assert_eq!(tape.get(), u32::MAX);
}

#[test]
fn tape_init_zero_u16_ptr_u8_cell() {
    let mut tape = Tape::<u16, u8>::default();
    assert_eq!(tape.get(), 0);
    tape.decrement();
    assert_eq!(tape.get(), u8::MAX);
}

#[test]
fn tape_left_wraps_to_last_cell() {
    let mut tape = Tape::<u8, u8>::default();
    tape.set(7);
    tape.left();
    assert_eq!(tape.get(), 0);
    tape.right();
    assert_eq!(tape.get(), 7);
}

#[test]
fn tape_increment_wraps_to_zero() {
    let mut tape = Tape::<u8, u8>::default();
    tape.set(u8::MAX);
    tape.increment();
    assert_eq!(tape.get(), 0);
}

#[test]
fn tape_is_zero_tracks_cell() {
    let mut tape = Tape::<u8, u8>::default();
    assert!(tape.is_zero());
    tape.increment();
    assert!(!tape.is_zero());
    tape.decrement();
    assert!(tape.is_zero());
}
