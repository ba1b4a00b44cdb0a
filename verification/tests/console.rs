use beryl::fb_renderer::{char_code, init, sgr_param, Performer};
use beryl::framebuffer::Framebuffer;

/// A font of `count` glyphs of 5 by 3 pixels, one byte for each row. Glyph
/// `c` has the rows `c`, `c + 1` and `0xF8`.
fn font(count: u32) -> Vec<u8> {
    let mut f = vec![0x72, 0xb5, 0x4a, 0x86];
    for word in [0u32, 32, 0, count, 3, 3, 5] {
        f.extend_from_slice(&word.to_le_bytes());
    }
    for c in 0..count {
        f.extend_from_slice(&[c as u8, (c as u8).wrapping_add(1), 0xF8]);
    }
    f
}

const W: u32 = 0xFFFF_FFFF;

#[test]
fn new_wants_a_font() {
    let mut px = vec![0u32; 64];
    let good = font(128);
    let p = Performer::new(Framebuffer::new(&mut px, 8, 8, 8).unwrap(), &good, (1, 2), (3, 4)).unwrap();
    assert_eq!((p.cursor_x, p.cursor_y), (0, 0));
    assert_eq!(p.offset, (1, 2));
    assert_eq!(p.max, (3, 4));
    assert_eq!(p.color, 0);
    assert_eq!(p.bg, W);
    drop(p);

    // Wrong magic number.
    let mut bad = font(128);
    bad[0] = 0x73;
    assert!(Performer::new(Framebuffer::new(&mut px, 8, 8, 8).unwrap(), &bad, (0, 0), (0, 0)).is_none());
    // Cut inside the header, and inside the glyphs.
    assert!(Performer::new(Framebuffer::new(&mut px, 8, 8, 8).unwrap(), &good[..31], (0, 0), (0, 0)).is_none());
    let cut = &good[..good.len() - 1];
    assert!(Performer::new(Framebuffer::new(&mut px, 8, 8, 8).unwrap(), cut, (0, 0), (0, 0)).is_none());
    // The header alone, of a font without glyphs.
    let empty = font(0);
    assert_eq!(empty.len(), 32);
    assert!(Performer::new(Framebuffer::new(&mut px, 8, 8, 8).unwrap(), &empty, (0, 0), (0, 0)).is_some());
    // A glyph table whose size does not fit 32 bits.
    let mut huge = font(2);
    huge[16..20].copy_from_slice(&0x8000_0000u32.to_le_bytes());
    assert!(Performer::new(Framebuffer::new(&mut px, 8, 8, 8).unwrap(), &huge, (0, 0), (0, 0)).is_none());
}

#[test]
fn glyphs_come_from_the_font() {
    let mut px = vec![0u32; 64];
    let f = font(128);
    let p = Performer::new(Framebuffer::new(&mut px, 8, 8, 8).unwrap(), &f, (0, 0), (8, 8)).unwrap();
    // 'A' is 0x41: 01000001, then 01000010, then 11111000; five columns each.
    assert_eq!(
        p.glyph('A'),
        Some(vec![
            vec![false, true, false, false, false],
            vec![false, true, false, false, false],
            vec![true, true, true, true, true],
        ])
    );
    assert_eq!(p.glyph('\u{80}'), None);
    // Only the lowest eight bits of the character count.
    assert_eq!(char_code('\u{141}'), 0x41);
    assert_eq!(p.glyph('\u{141}'), p.glyph('A'));
}

#[test]
fn write_char_draws_text_over_background() {
    let mut px = vec![7u32; 8 * 6];
    let f = font(128);
    {
        let mut p = Performer::new(Framebuffer::new(&mut px, 8, 8, 6).unwrap(), &f, (1, 1), (6, 4)).unwrap();
        p.color = 1;
        p.bg = 2;
        // '(' is 0x28: 00101000, 00101001, 11111000.
        assert!(p.write_char('(', 1, 0));
        assert_eq!((p.cursor_x, p.cursor_y), (0, 0));
    }
    assert_eq!(
        px,
        vec![
            7, 7, 7, 7, 7, 7, 7, 7, //
            7, 7, 2, 2, 1, 2, 1, 7, //
            7, 7, 2, 2, 1, 2, 1, 7, //
            7, 7, 1, 1, 1, 1, 1, 7, //
            7, 7, 7, 7, 7, 7, 7, 7, //
            7, 7, 7, 7, 7, 7, 7, 7,
        ]
    );
}

#[test]
fn write_char_outside_the_buffer_draws_nothing() {
    let mut px = vec![7u32; 8 * 6];
    let f = font(64);
    {
        let mut p = Performer::new(Framebuffer::new(&mut px, 8, 8, 6).unwrap(), &f, (1, 1), (6, 4)).unwrap();
        // The third row would start at pixel 8 * 6 + 1.
        assert!(!p.write_char('(', 0, 3));
        assert!(!p.write_char('(', usize::MAX, 0));
        assert!(!p.write_char('(', 0, usize::MAX));
        // No glyph with this code.
        assert!(!p.write_char('A', 0, 0));
        // The last place at which the glyph fits.
        assert!(p.write_char('(', 2, 2));
    }
    assert_eq!(px[..8 * 3], [7u32; 8 * 3]);
    // The glyph's last row is filled: text colour, black.
    assert_eq!(px[8 * 4..8 * 5], [7, 7, 7, W, W, 0, W, 0]);
    assert_eq!(px[8 * 5..], [7, 7, 7, 0, 0, 0, 0, 0]);
}

#[test]
fn print_moves_the_cursor_and_wraps() {
    let mut px = vec![5u32; 32 * 16];
    let f = font(128);
    let mut p = Performer::new(Framebuffer::new(&mut px, 32, 32, 16).unwrap(), &f, (2, 1), (12, 7)).unwrap();
    assert!(p.valid());
    assert!(p.print('a'));
    assert_eq!((p.cursor_x, p.cursor_y), (5, 0));
    assert!(p.print('b'));
    assert_eq!((p.cursor_x, p.cursor_y), (10, 0));
    // 15 is past the window's width: next line.
    assert!(p.print('c'));
    assert_eq!((p.cursor_x, p.cursor_y), (0, 3));
    assert!(p.print('d'));
    assert!(p.print('e'));
    assert_eq!((p.cursor_x, p.cursor_y), (10, 3));
    assert!(p.print('f'));
    assert_eq!((p.cursor_x, p.cursor_y), (0, 6));
    assert!(p.print('g'));
    assert!(p.print('h'));
    // The line after this one would start at 9, past the window's height:
    // back to the start, and the window is cleared.
    assert!(p.print('i'));
    assert_eq!((p.cursor_x, p.cursor_y), (0, 0));
    assert!(p.valid());
    drop(p);
    for y in 0..16 {
        for x in 0..32 {
            let inside = (2..2 + 15).contains(&x) && (1..1 + 10).contains(&y);
            assert_eq!(px[x + y * 32], if inside { W } else { 5 });
        }
    }
}

#[test]
fn print_without_a_glyph_changes_nothing() {
    let mut px = vec![5u32; 32 * 16];
    let f = font(64);
    let mut p = Performer::new(Framebuffer::new(&mut px, 32, 32, 16).unwrap(), &f, (2, 1), (12, 7)).unwrap();
    assert!(p.print('0'));
    assert!(!p.print('z'));
    assert_eq!((p.cursor_x, p.cursor_y), (5, 0));
}

#[test]
fn line_feed() {
    let mut px = vec![5u32; 32 * 16];
    let f = font(128);
    let mut p = Performer::new(Framebuffer::new(&mut px, 32, 32, 16).unwrap(), &f, (2, 1), (12, 7)).unwrap();
    assert!(p.print('x'));
    p.execute(b'\n');
    assert_eq!((p.cursor_x, p.cursor_y), (0, 3));
    p.execute(b'\n');
    assert_eq!((p.cursor_x, p.cursor_y), (0, 6));
    drop(p);
    assert_eq!(px[2 + 32], W);
    assert_eq!(px[2 + 3 + 3 * 32], 0);
    let mut p = Performer::new(Framebuffer::new(&mut px, 32, 32, 16).unwrap(), &f, (2, 1), (12, 7)).unwrap();
    p.cursor_y = 6;
    p.execute(b'\n');
    assert_eq!((p.cursor_x, p.cursor_y), (0, 0));
    drop(p);
    assert_eq!(px[2 + 3 + 3 * 32], W);
    assert_eq!(px[1 + 3 * 32], 5);
}

#[test]
fn valid_checks_the_window() {
    let mut px = vec![5u32; 32 * 16];
    let f = font(128);
    // The window and its margin end at column 16 and row 10.
    let mut p = Performer::new(Framebuffer::new(&mut px, 32, 32, 16).unwrap(), &f, (2, 1), (12, 7)).unwrap();
    assert!(p.valid());
    p.max = (12, 12);
    assert!(p.valid());
    p.max = (12, 13);
    assert!(!p.valid());
    p.max = (27, 7);
    assert!(p.valid());
    p.max = (usize::MAX, 7);
    assert!(!p.valid());
    p.max = (12, 7);
    p.cursor_x = 12;
    assert!(!p.valid());
    p.cursor_x = 11;
    p.cursor_y = 7;
    assert!(!p.valid());
    p.cursor_y = 6;
    assert!(p.valid());
}

#[test]
fn colours() {
    assert_eq!(sgr_param(&[0]), Some(Some(0)));
    assert_eq!(sgr_param(&[1]), Some(None));
    assert_eq!(sgr_param(&[0x25]), Some(None));
    assert_eq!(sgr_param(&[31]), Some(Some(u32::from_le_bytes([0, 0, 170, 255]))));
    assert_eq!(sgr_param(&[32]), Some(Some(u32::from_le_bytes([0, 170, 0, 255]))));
    assert_eq!(sgr_param(&[33]), Some(Some(u32::from_le_bytes([6, 159, 255, 255]))));
    assert_eq!(sgr_param(&[34]), Some(Some(u32::from_le_bytes([170, 0, 0, 255]))));
    assert_eq!(sgr_param(&[35]), Some(Some(u32::from_le_bytes([170, 0, 170, 255]))));
    assert_eq!(sgr_param(&[36]), None);
    assert_eq!(sgr_param(&[]), None);
    assert_eq!(sgr_param(&[31, 1]), None);
}

#[test]
fn control_sequences_set_the_colour() {
    let mut px = vec![0u32; 64];
    let f = font(128);
    let mut p = Performer::new(Framebuffer::new(&mut px, 8, 8, 8).unwrap(), &f, (0, 0), (8, 8)).unwrap();
    p.csi_dispatch(&[vec![37], vec![31]], true, 'm');
    assert_eq!(p.color, 0);
    p.csi_dispatch(&[vec![32], vec![1]], false, 'm');
    assert_eq!(p.color, 0xFF00AA00);
    p.csi_dispatch(&[vec![1], vec![0x25]], false, 'm');
    assert_eq!(p.color, 0xFF00AA00);
    p.csi_dispatch(&[vec![31], vec![34], vec![1]], false, 'm');
    assert_eq!(p.color, 0xFF0000AA);
    p.csi_dispatch(&[], false, 'm');
    assert_eq!(p.color, 0xFF0000AA);
    p.csi_dispatch(&[vec![0]], false, 'm');
    assert_eq!(p.color, 0);
    assert_eq!(p.bg, W);
}

#[test]
fn init_draws_the_window() {
    let (w, h) = (240usize, 230usize);
    let mut px = vec![1u32; 256 * h];
    let f = font(128);
    let p = init(Framebuffer::new(&mut px, w, 256, h).unwrap(), &f).unwrap();
    assert_eq!(p.offset, (110, 110));
    assert_eq!(p.max, (15, 5));
    assert_eq!((p.cursor_x, p.cursor_y), (0, 0));
    assert!(p.valid());
    drop(p);
    let frames = [0u32, W, 0xE0E0E0E0, 0xE0E0E0E0, 0xB7B7B7B7, 0, W];
    for y in 0..h {
        for x in 0..256 {
            // How many frames the pixel lies inside.
            let depth = (1..=7)
                .filter(|k| x >= 99 + k && x < w - 99 - k && y >= 99 + k && y < h - 99 - k)
                .count();
            let want = if depth == 0 { 0x8083 } else { frames[depth - 1] };
            assert_eq!(px[x + y * 256], want);
        }
    }
    let mut px = vec![1u32; 256 * h];
    assert!(init(Framebuffer::new(&mut px, w, 256, h).unwrap(), &f[..40]).is_none());
}
