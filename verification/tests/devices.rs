//! Device-side logic: the keyboard ring buffers and scancode decoding, the
//! VGA text writer, the cursor position encoding, interrupt vectors, and
//! syscall dispatch.

use sos::interrupts::{InterruptIndex, PIC_1_OFFSET, PIC_2_OFFSET};
use sos::keyboard::{KeyDecoder, handle_scancode};
use sos::syscall::{Syscall, sys_close, syscall_identifier};
use sos::vga_buffer::{
    BUFFER_HEIGHT, BUFFER_WIDTH, Color, ColorCode, CrtcWrite, Writer, set_cursor_pos_rc,
};

#[test]
fn interrupt_vectors() {
    assert_eq!(PIC_1_OFFSET, 32);
    assert_eq!(PIC_2_OFFSET, 40);
    assert_eq!(InterruptIndex::Timer.as_u8(), 32);
    assert_eq!(InterruptIndex::Keyboard.as_u8(), 33);
    assert_eq!(InterruptIndex::AtaPrimary.as_u8(), 46);
    assert_eq!(InterruptIndex::AtaSecondary.as_u8(), 47);
    assert_eq!(InterruptIndex::Keyboard.as_usize(), 33);
}

#[test]
fn ring_buffer_fifo() {
    let mut rb = sos::interrupts::RingBuffer::new();
    assert_eq!(rb.pop(), None);
    rb.push('a');
    rb.push('b');
    rb.push('c');
    assert_eq!(rb.pop(), Some('a'));
    assert_eq!(rb.pop(), Some('b'));
    rb.push('d');
    assert_eq!(rb.pop(), Some('c'));
    assert_eq!(rb.pop(), Some('d'));
    assert_eq!(rb.pop(), None);
}

#[test]
fn ring_buffer_drops_when_full() {
    let mut rb = sos::interrupts::RingBuffer::new();
    // capacity is 128 slots, one of which stays empty
    for i in 0..127 {
        rb.push((b'a' + (i % 26) as u8) as char);
    }
    rb.push('!');
    assert_eq!(rb.pop(), Some('a'), "the overflowing character was dropped, the first kept");
    let mut last = 'a';
    let mut count = 1;
    while let Some(c) = rb.pop() {
        last = c;
        count += 1;
    }
    assert_eq!(count, 127);
    assert_ne!(last, '!');
}

#[test]
fn keyboard_ring_buffer_fifo() {
    let mut rb = sos::keyboard::RingBuffer::new();
    for c in ['x', 'y', 'z'] {
        rb.push(c);
    }
    assert_eq!(rb.pop(), Some('x'));
    assert_eq!(rb.pop(), Some('y'));
    assert_eq!(rb.pop(), Some('z'));
    assert_eq!(rb.pop(), None);
}

#[test]
fn scancode_decoding_fills_buffer() {
    // Scancode 0x1E is the make code of the letter A in set 1: the decoder
    // must hand back a real character, not the byte it was given.
    let mut kb = KeyDecoder::new();
    let mut buf = sos::keyboard::RingBuffer::new();
    let decoded = handle_scancode(&mut kb, &mut buf, 0x1E);
    assert_eq!(decoded, Some('a'));
    assert_eq!(buf.pop(), Some('a'));
    // the release code produces no character
    let released = handle_scancode(&mut kb, &mut buf, 0x9E);
    assert_eq!(released, None);
    assert_eq!(buf.pop(), None);
}

#[test]
fn scancode_shift_modifier() {
    let mut kb = KeyDecoder::new();
    let mut buf = sos::keyboard::RingBuffer::new();
    assert_eq!(handle_scancode(&mut kb, &mut buf, 0x2A), None, "shift press alone");
    assert_eq!(handle_scancode(&mut kb, &mut buf, 0x1E), Some('A'), "shifted letter");
}

#[test]
fn color_codes() {
    assert_eq!(Color::Black.as_u8(), 0);
    assert_eq!(Color::Yellow.as_u8(), 14);
    assert_eq!(Color::White.as_u8(), 15);
    let code = ColorCode::new(Color::Yellow, Color::Black);
    assert_eq!(code.raw(), 14);
    let code2 = ColorCode::new(Color::Green, Color::Blue);
    assert_eq!(code2.raw(), (1 << 4) | 2);
    assert_eq!(Color::from_u8(9), Color::LightBlue);
}

fn row_string(w: &Writer, row: usize) -> String {
    w.chars[row].iter().map(|c| c.ascii_character as char).collect()
}

#[test]
fn writer_prints_and_advances() {
    let mut w = Writer::new(ColorCode::new(Color::Yellow, Color::Black));
    w.write_string("Hi");
    assert_eq!(w.row_position, 0);
    assert_eq!(w.column_position, 2);
    assert_eq!(w.chars[0][0].ascii_character, b'H');
    assert_eq!(w.chars[0][1].ascii_character, b'i');
    assert_eq!(w.chars[0][2].ascii_character, b' ');
    w.write_string("\nok");
    assert_eq!(w.row_position, 1);
    assert_eq!(w.column_position, 2);
    assert_eq!(w.chars[1][0].ascii_character, b'o');
}

#[test]
fn writer_substitutes_unprintable_bytes() {
    let mut w = Writer::new(ColorCode::new(Color::White, Color::Black));
    w.write_string("a\u{263a}b");
    assert_eq!(w.chars[0][0].ascii_character, b'a');
    // the smiley is three non-ascii bytes, each printed as the block char
    assert_eq!(w.chars[0][1].ascii_character, 0xfe);
    assert_eq!(w.chars[0][2].ascii_character, 0xfe);
    assert_eq!(w.chars[0][3].ascii_character, 0xfe);
    assert_eq!(w.chars[0][4].ascii_character, b'b');
}

#[test]
fn writer_carriage_return_and_backspace() {
    let mut w = Writer::new(ColorCode::new(Color::White, Color::Black));
    w.write_string("abc\rX");
    assert_eq!(w.chars[0][0].ascii_character, b'X');
    assert_eq!(w.column_position, 1);
    w.write_byte(0x08);
    assert_eq!(w.column_position, 0);
    assert_eq!(w.chars[0][0].ascii_character, b' ', "backspace blanks the cell");
    w.write_byte(0x08);
    assert_eq!(w.column_position, 0, "stuck at the top-left corner");
    assert_eq!(w.row_position, 0);
}

#[test]
fn writer_wraps_a_full_row() {
    let mut w = Writer::new(ColorCode::new(Color::White, Color::Black));
    for _ in 0..BUFFER_WIDTH {
        w.write_byte(b'x');
    }
    assert_eq!(w.row_position, 0);
    assert_eq!(w.column_position, BUFFER_WIDTH);
    w.write_byte(b'y');
    assert_eq!(w.row_position, 1);
    assert_eq!(w.column_position, 1);
    assert_eq!(w.chars[1][0].ascii_character, b'y');
}

#[test]
fn writer_scrolls_at_the_bottom() {
    let mut w = Writer::new(ColorCode::new(Color::White, Color::Black));
    for i in 0..BUFFER_HEIGHT {
        w.write_string(&format!("line{:02}", i));
        if i + 1 < BUFFER_HEIGHT {
            w.write_byte(b'\n');
        }
    }
    assert_eq!(w.row_position, BUFFER_HEIGHT - 1);
    assert!(row_string(&w, 0).starts_with("line00"));
    w.write_byte(b'\n');
    assert_eq!(w.row_position, BUFFER_HEIGHT - 1, "the cursor stays on the last row");
    assert!(row_string(&w, 0).starts_with("line01"), "everything moved up one row");
    assert!(row_string(&w, BUFFER_HEIGHT - 2).starts_with("line24"));
    assert_eq!(row_string(&w, BUFFER_HEIGHT - 1).trim(), "", "the last row is blank");
}

#[test]
fn writer_colors() {
    let mut w = Writer::new(ColorCode::new(Color::Yellow, Color::Black));
    w.set_color(Color::Red, Color::Blue);
    let (fg, bg) = w.get_color();
    assert_eq!(fg, Color::Red);
    assert_eq!(bg, Color::Blue);
    w.write_colored("!", Color::Green, Color::Black);
    let (fg2, bg2) = w.get_color();
    assert_eq!((fg2, bg2), (Color::Red, Color::Blue), "the color is restored afterwards");
    assert_eq!(w.chars[0][0].color_code.raw(), 2, "the text itself used the given colors");
    w.clear_screen();
    assert_eq!(w.row_position, 0);
    assert_eq!(w.column_position, 0);
    assert_eq!(w.chars[3][7].ascii_character, b' ');
}

#[test]
fn cursor_position_writes() {
    let ops = set_cursor_pos_rc(2, 5);
    // cell 2*80+5 = 165: low byte to register 0x0F, high byte to 0x0E
    assert_eq!(ops[0], CrtcWrite { index: 0x0F, data: 165 });
    assert_eq!(ops[1], CrtcWrite { index: 0x0E, data: 0 });
    let ops2 = set_cursor_pos_rc(24, 79);
    let cell = 24 * 80 + 79;
    assert_eq!(ops2[0], CrtcWrite { index: 0x0F, data: (cell % 256) as u8 });
    assert_eq!(ops2[1], CrtcWrite { index: 0x0E, data: (cell / 256) as u8 });
}

#[test]
fn syscall_dispatch() {
    assert_eq!(syscall_identifier(0, 1, 2, 3), Some((Syscall::Open, 1, 2, 3)));
    assert_eq!(syscall_identifier(1, 9, 8, 7), Some((Syscall::Read, 9, 8, 7)));
    assert_eq!(syscall_identifier(2, 0, 0, 0), Some((Syscall::Write, 0, 0, 0)));
    assert_eq!(syscall_identifier(3, 0, 0, 0), Some((Syscall::Close, 0, 0, 0)));
    assert_eq!(syscall_identifier(4, 0, 0, 0), Some((Syscall::Unlink, 0, 0, 0)));
    assert_eq!(syscall_identifier(5, 0, 0, 0), None, "an unknown number answers nothing");
    assert_eq!(sys_close(3, 0, 0), 0);
}

#[test]
fn ring_buffer_wraps_around_the_backing_store() {
    let mut rb = sos::interrupts::RingBuffer::new();
    for round in 0..300u32 {
        let c = (b'a' + (round % 26) as u8) as char;
        rb.push(c);
        assert_eq!(rb.pop(), Some(c), "round {}", round);
    }
    assert_eq!(rb.pop(), None);
}
