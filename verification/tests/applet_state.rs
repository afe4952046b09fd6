use neo_re::applet_state::{
    basic_writer_slot_state, basic_writer_state, floppy_bird_state, preview_text, read_half_or_zero,
    read_word_or_zero, snake_state, write_or_die_state_at,
};

fn put_u32(mem: &mut [u8], at: usize, value: u32) {
    mem[at..at + 4].copy_from_slice(&value.to_be_bytes());
}

#[test]
fn out_of_range_fields_read_as_zero() {
    let mem = vec![1_u8, 2, 3];
    assert_eq!(read_word_or_zero(&mem, 0), 0);
    assert_eq!(read_half_or_zero(&mem, 2), 0);
    assert_eq!(read_half_or_zero(&mem, 1), 0x0203);
    assert_eq!(preview_text(&mem, 1, 4), "");
}

#[test]
fn preview_shows_printable_text() {
    let mem = b"Hi\n\x01~".to_vec();
    assert_eq!(preview_text(&mem, 0, 5), "Hin.~");
}

#[test]
fn basic_writer_state_follows_active_slot() {
    let a5: u32 = 0x100;
    let base = 0x400_usize;
    let mut mem = vec![0_u8; 0x1000];
    put_u32(&mut mem, base, 2);
    put_u32(&mut mem, base + 4, 3);
    put_u32(&mut mem, base + 8, 1234);
    let slot2 = base + 20 + 268;
    put_u32(&mut mem, slot2, 5);
    put_u32(&mut mem, slot2 + 4, 4);
    put_u32(&mut mem, slot2 + 8, 1);
    mem[slot2 + 12..slot2 + 20].copy_from_slice(b"hello\nab");
    let state = basic_writer_state(&mem, a5);
    assert_eq!(state.active_slot, 2);
    assert_eq!(state.banner_slot, 3);
    assert_eq!(state.banner_until_ms, 1234);
    assert_eq!(state.len, 5);
    assert_eq!(state.cursor, 4);
    assert_eq!(state.viewport, 1);
    assert_eq!(state.preview, "hellonab");
    let first = basic_writer_slot_state(&mem, a5, 0);
    assert_eq!(first.active_slot, 0);
    assert_eq!(first.len, 0);
}

#[test]
fn write_or_die_state_reads_layout() {
    let mut mem = vec![0_u8; 0x400];
    put_u32(&mut mem, 0, 2);
    put_u32(&mut mem, 12, 50);
    mem[36..40].copy_from_slice(b"text");
    put_u32(&mut mem, 840, 1);
    let state = write_or_die_state_at(&mem, 0);
    assert_eq!(state.phase, 2);
    assert_eq!(state.word_goal, 50);
    assert!(state.preview.starts_with("text"));
    assert_eq!(state.preview.len(), 24);
    assert_eq!(state.flash_on, 1);
    assert_eq!(state.export_status, 0);
}

#[test]
fn game_states_read_flags() {
    let mut mem = vec![0_u8; 0x200];
    mem[0..2].copy_from_slice(&(-3_i16).to_be_bytes());
    mem[4..6].copy_from_slice(&20_i16.to_be_bytes());
    mem[6] = 1;
    mem[7] = 9;
    mem[10] = 1;
    let bird = floppy_bird_state(&mem, 0);
    assert_eq!(bird.bird_y_q8, -3);
    assert_eq!(bird.barrier_x, 20);
    assert!(bird.game_over);
    assert!(bird.is_consistent_with(9, true));
    assert!(!bird.is_consistent_with(8, true));
    mem[384] = 3;
    mem[385] = 49;
    mem[389] = 2;
    mem[393] = 1;
    let snake = snake_state(&mem, 0);
    assert_eq!(snake.length, 3);
    assert_eq!(snake.head_x, 49);
    assert!(snake.paused);
    assert!(snake.matches(2, 3, true, false));
}
