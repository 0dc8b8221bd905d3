use equart::frame::Buffer;
use equart::pattern::{DrawState, SEED};

fn xorshift(f: u64) -> u64 {
    let a = f ^ (f << 13);
    let b = a ^ (a >> 17);
    b ^ (b << 5)
}

#[test]
fn new_state_starts_at_the_top_with_the_seed() {
    let s = DrawState::new(0);
    assert_eq!(s.line, 0);
    assert_eq!(s.factor, 0xFEFABABE);
    assert_eq!(s.factor, SEED);
    assert_eq!(s.color, [255, 0, 0]);
}

#[test]
fn new_state_cycles_through_the_palette() {
    assert_eq!(DrawState::new(1).color, [255, 0, 255]);
    assert_eq!(DrawState::new(2).color, [0, 255, 255]);
    assert_eq!(DrawState::new(3).color, [255, 255, 0]);
    assert_eq!(DrawState::new(4).color, [0, 255, 0]);
    assert_eq!(DrawState::new(5).color, [0, 0, 255]);
    assert_eq!(DrawState::new(6).color, [255, 255, 255]);
    assert_eq!(DrawState::new(7).color, [255, 0, 0]);
    assert_eq!(DrawState::new(15).color, [255, 0, 255]);
}

#[test]
fn first_pixels_have_the_expected_bytes() {
    let mut s = DrawState::new(6);
    let p = s.pixel();
    assert_eq!(s.factor, 0x0003_e42b_6e17_6368);
    assert_eq!(p, [0, 0, 0, 0]);
    let p = s.pixel();
    assert_eq!(s.factor, 0xec50_42f2_175a_e8f5);
    assert_eq!(p, [0xec, 0xec, 0xec, 0xec]);
    let p = s.pixel();
    assert_eq!(s.factor, 0x65c0_31d7_0355_5737);
    assert_eq!(p, [0x65, 0x65, 0x65, 0x65]);
}

#[test]
fn pixel_masks_the_random_byte_with_the_colour() {
    let mut s = DrawState::new(0);
    let mut f = s.factor;
    for _ in 0..100 {
        let p = s.pixel();
        f = xorshift(f);
        let rnd = (f >> 56) as u8;
        assert_eq!(s.factor, f);
        assert_eq!(p, [rnd, 0, 0, rnd]);
    }
}

#[test]
fn draw_paints_one_row_and_moves_on() {
    let mut s = DrawState::new(6);
    let mut buf = Buffer::new(3, 2);
    let n = s.draw(&mut buf);
    assert_eq!(n, 3);
    assert_eq!(s.line, 1);
    let mut f: u64 = 0xFEFABABE;
    for x in 0..3 {
        f = xorshift(f);
        let rnd = (f >> 56) as u8;
        assert_eq!(buf.get_pixel(x, 0), [rnd, rnd, rnd, rnd]);
        assert_eq!(buf.get_pixel(x, 1), [0, 0, 0, 0]);
    }
    assert_eq!(s.factor, f);
    let first_row: Vec<[u8; 4]> = (0..3).map(|x| buf.get_pixel(x, 0)).collect();
    let n = s.draw(&mut buf);
    assert_eq!(n, 3);
    assert_eq!(s.line, 2);
    for x in 0..3 {
        f = xorshift(f);
        let rnd = (f >> 56) as u8;
        assert_eq!(buf.get_pixel(x, 1), [rnd, rnd, rnd, rnd]);
        assert_eq!(buf.get_pixel(x, 0), first_row[x as usize]);
    }
}

#[test]
fn draw_wraps_to_the_top_after_the_last_row() {
    let mut s = DrawState::new(6);
    let mut buf = Buffer::new(2, 2);
    s.draw(&mut buf);
    s.draw(&mut buf);
    assert_eq!(s.line, 2);
    let second_row: Vec<[u8; 4]> = (0..2).map(|x| buf.get_pixel(x, 1)).collect();
    let f = s.factor;
    s.draw(&mut buf);
    assert_eq!(s.line, 1);
    let rnd = (xorshift(f) >> 56) as u8;
    assert_eq!(buf.get_pixel(0, 0), [rnd, rnd, rnd, rnd]);
    assert_eq!(buf.get_pixel(0, 1), second_row[0]);
    assert_eq!(buf.get_pixel(1, 1), second_row[1]);
}

#[test]
fn draw_on_an_empty_frame_paints_nothing() {
    let mut s = DrawState::new(1);
    let mut buf = Buffer::new(0, 0);
    assert_eq!(s.draw(&mut buf), 0);
    assert_eq!(s.factor, 0xFEFABABE);
    assert_eq!(s.line, 1);
}
