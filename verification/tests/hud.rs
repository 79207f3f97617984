use libre99::disks::{DiskEntry, DiskOverlay};
use libre99::hud::paint_overlays;
use libre99::video::{HEIGHT, WIDTH};
use libre99::inspector::{render_inspector, CpuSnapshot, HEADER, PANEL_H, PANEL_W};
use libre99::text::Canvas;

fn frame(fill: u32) -> Vec<u32> {
    vec![fill; WIDTH * HEIGHT]
}

#[test]
fn the_help_banner_paints_the_bottom_band_only_while_active() {
    let flat = 0x0012_3456u32;
    let mut panel = DiskOverlay::default();
    let mut fb = frame(flat);
    paint_overlays(&mut Canvas::new(&mut fb, WIDTH, HEIGHT), None, None, &mut panel, &[], true, None, 0);
    assert!(fb.iter().any(|&p| p != flat), "an active banner paints the frame");
    let top_half_untouched = fb[..WIDTH * (HEIGHT / 2)].iter().all(|&p| p == flat);
    assert!(top_half_untouched, "the banner stays in the bottom band");

    let mut fb = frame(flat);
    paint_overlays(&mut Canvas::new(&mut fb, WIDTH, HEIGHT), None, None, &mut panel, &[], false, None, 0);
    assert!(fb.iter().all(|&p| p == flat), "without the banner the frame is untouched");
}

#[test]
fn a_toast_counts_down_and_hides_the_banner() {
    let flat = 0x0012_3456u32;
    let mut panel = DiskOverlay::default();
    let mut with_banner = frame(flat);
    let left = paint_overlays(
        &mut Canvas::new(&mut with_banner, WIDTH, HEIGHT),
        None,
        None,
        &mut panel,
        &[],
        true,
        Some("SAVED"),
        3,
    );
    assert_eq!(left, 2);
    let mut without_banner = frame(flat);
    paint_overlays(
        &mut Canvas::new(&mut without_banner, WIDTH, HEIGHT),
        None,
        None,
        &mut panel,
        &[],
        false,
        Some("SAVED"),
        3,
    );
    assert_eq!(with_banner, without_banner, "a live toast replaces the banner");
    let mut fb = frame(flat);
    let left = paint_overlays(&mut Canvas::new(&mut fb, WIDTH, HEIGHT), None, None, &mut panel, &[], false, Some("SAVED"), 0);
    assert_eq!(left, 0);
    assert!(fb.iter().all(|&p| p == flat), "an expired toast paints nothing");
}

#[test]
fn the_speed_indicator_sits_top_right() {
    let mut panel = DiskOverlay::default();
    let mut fb = frame(0x0080_8080);
    paint_overlays(&mut Canvas::new(&mut fb, WIDTH, HEIGHT), None, Some("|| PAUSED"), &mut panel, &[], false, None, 0);
    // Dimmed box: the pixel at its top-left is a quarter as bright.
    let w = 9 * 6 - 1 + 6;
    let x = WIDTH - (w + 2);
    assert_eq!(fb[2 * WIDTH + x], 0x0020_2020);
    assert_eq!(fb[2 * WIDTH + x - 1], 0x0080_8080, "left of the box is untouched");
    assert_eq!(fb[WIDTH * HEIGHT - 1], 0x0080_8080, "the bottom is untouched");
}

#[test]
fn the_disk_panel_lists_disks_and_clamps_the_selection() {
    let flat = 0x0040_4040u32;
    let disks = vec![
        DiskEntry { key: String::from("/home/ti/games.dsk"), len: 92160, dirty: true, drive: Some(0) },
        DiskEntry { key: String::from("C:\\ti\\work.dsk"), len: 184320, dirty: false, drive: None },
    ];
    let mut panel = DiskOverlay::default();
    panel.open();
    let mut fb = frame(flat);
    paint_overlays(&mut Canvas::new(&mut fb, WIDTH, HEIGHT), None, None, &mut panel, &disks, true, None, 0);
    // The backdrop is dimmed by three halvings.
    assert_eq!(fb[16 * WIDTH + 8], 0x0008_0808);
    // Outside the panel nothing changes (and the banner yields to it).
    assert_eq!(fb[0], flat);
    assert_eq!(fb[(HEIGHT - 10) * WIDTH + WIDTH / 2], flat);
    // Some pixel of the first row's name is inked.
    let row = 43;
    assert!((row..row + 7).any(|y| (18..18 + 6 * 9).any(|x| fb[y * WIDTH + x] == 0x00E8_E8E8)));
}

#[test]
fn the_cpu_inspector_covers_the_top_left_corner() {
    let flat = 0x0080_8080u32;
    let cpu = CpuSnapshot {
        pc: 0x0024,
        wp: 0x83E0,
        st: 0x2000,
        cycles: 0x1_2345_6789,
        regs: [0x1111; 16],
        mem: [0x0300, 0x0000, 0x02E0, 0x83E0],
    };
    let mut fb = frame(flat);
    render_inspector(&mut Canvas::new(&mut fb, WIDTH, HEIGHT), &cpu);
    assert_eq!(fb[0], 0x0010_1010, "the backdrop is dimmed three halvings");
    assert_eq!(fb[(PANEL_H - 1) * WIDTH + PANEL_W - 1], 0x0010_1010);
    assert_eq!(fb[PANEL_W], flat, "right of the panel is untouched");
    assert_eq!(fb[PANEL_H * WIDTH], flat, "below the panel is untouched");
    assert!((2..9).any(|y| (3..80).any(|x| fb[y * WIDTH + x] == HEADER)), "the heading is inked");

    let mut panel = DiskOverlay::default();
    let mut both = frame(flat);
    paint_overlays(&mut Canvas::new(&mut both, WIDTH, HEIGHT), Some(&cpu), None, &mut panel, &[], false, None, 0);
    assert_eq!(both, fb, "the frame overlays begin with the inspector");
}
