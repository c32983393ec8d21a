use game_ecs::{render_order, Camera, Sprite, SpriteInstance};

const OPAQUE_A: u32 = 0xFF00_0001;
const OPAQUE_B: u32 = 0x8000_0002;
const CLEAR: u32 = 0x00FF_FFFF;

#[test]
fn scale_doubles_and_drops_transparent() {
    let s = Sprite { width: 2, height: 1, pixels: vec![OPAQUE_A, CLEAR] };
    let big = s.scale(2);
    assert_eq!((big.width, big.height), (4, 2));
    assert_eq!(big.pixels, vec![OPAQUE_A, OPAQUE_A, 0, 0, OPAQUE_A, OPAQUE_A, 0, 0]);
}

#[test]
fn scale_by_one_keeps_opaque() {
    let s = Sprite { width: 1, height: 2, pixels: vec![OPAQUE_B, OPAQUE_A] };
    assert_eq!(s.scale(1).pixels, vec![OPAQUE_B, OPAQUE_A]);
    let empty = s.scale(0);
    assert_eq!((empty.width, empty.height, empty.pixels.len()), (0, 0, 0));
}

#[test]
fn draw_clips_at_buffer_edges() {
    let s = Sprite { width: 2, height: 2, pixels: vec![1 << 24, 2 << 24, 3 << 24, 4 << 24] };
    let mut buf = vec![7u32; 12];
    s.draw(&mut buf, 4, 3, 0, 0);
    assert_eq!(buf, vec![4 << 24, 7, 7, 7, 7, 7, 7, 7, 7, 7, 7, 7]);
}

#[test]
fn draw_skips_transparent_pixels() {
    let s = Sprite { width: 2, height: 1, pixels: vec![OPAQUE_A, CLEAR] };
    let mut buf = vec![9u32; 6];
    s.draw(&mut buf, 3, 2, 1, 1);
    assert_eq!(buf, vec![9, 9, 9, OPAQUE_A, 9, 9]);
}

#[test]
fn draw_fully_outside_changes_nothing() {
    let s = Sprite { width: 2, height: 2, pixels: vec![OPAQUE_A; 4] };
    let mut buf = vec![0u32; 4];
    s.draw(&mut buf, 2, 2, -10, 50);
    assert_eq!(buf, vec![0; 4]);
}

#[test]
fn from_rgba_packs_argb() {
    let s = Sprite::from_rgba(2, 1, &vec![0x11, 0x22, 0x33, 0x44, 1, 2, 3, 0]);
    assert_eq!((s.width, s.height), (2, 1));
    assert_eq!(s.pixels, vec![0x4411_2233, 0x0001_0203]);
}

#[test]
fn sheet_frames_cut_left_to_right() {
    let sheet = Sprite { width: 4, height: 1, pixels: vec![OPAQUE_A, OPAQUE_B, CLEAR, OPAQUE_A] };
    let frames = sheet.sheet_frames(2, 1, 3, 1);
    assert_eq!(frames.len(), 3);
    assert_eq!(frames[0].pixels, vec![OPAQUE_A, OPAQUE_B]);
    assert_eq!(frames[1].pixels, vec![0, OPAQUE_A]);
    assert_eq!(frames[2].pixels, vec![0, 0]);
    let scaled = sheet.sheet_frames(1, 2, 1, 2);
    assert_eq!((scaled[0].width, scaled[0].height), (2, 4));
    assert_eq!(scaled[0].pixels, vec![OPAQUE_A, OPAQUE_A, OPAQUE_A, OPAQUE_A, 0, 0, 0, 0]);
}

fn instance(z: i32) -> SpriteInstance {
    SpriteInstance { sprite: Sprite { width: 0, height: 0, pixels: vec![] }, position_x: 0, position_y: 0, z_order: z }
}

#[test]
fn render_order_sorts_by_layer_stably() {
    let list = vec![instance(2), instance(1), instance(2), instance(0), instance(1)];
    assert_eq!(render_order(&list), vec![3, 1, 4, 0, 2]);
    assert!(render_order(&vec![]).is_empty());
}

#[test]
fn camera_follows_target() {
    let mut c = Camera::new(800, 600);
    assert_eq!((c.x, c.y, c.viewport_width, c.viewport_height), (0, 0, 800, 600));
    c.follow(100, 100);
    assert_eq!((c.x, c.y), (-300, -200));
    let mut odd = Camera::new(-3, 5);
    odd.follow(0, 0);
    assert_eq!((odd.x, odd.y), (1, -2));
}
