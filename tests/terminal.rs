use dorf::rect2d::{Tile, TileSize};
use dorf::terminal::{
    CharMeshTransform, CharTexture, DisplayBuffer, PaintChar, TerminalCamera2D,
    TerminalCamera2DSettings, UIComponent, RGB,
};
use dorf::transform::{Loc, Transform2D};

#[test]
fn textures_and_colours() {
    let red = RGB::new(255, 0, 0);
    assert_eq!(CharTexture::new('x', red), CharTexture { c: 'x', rgb: Some(red) });
    assert_eq!(CharTexture::from_char('#'), CharTexture { c: '#', rgb: None });
    assert_eq!(CharTexture::default(), CharTexture { c: ' ', rgb: None });
    assert_eq!(PaintChar::default(), PaintChar { c: ' ', rgb: None });
}

#[test]
fn mesh_global_and_local_access() {
    let t = Transform2D { scale: TileSize::new(3, 2), loc: Loc { x: 10_000, y: 20_000, z: 0 } };
    let mut m = CharMeshTransform::new(t);
    assert_eq!(m.mesh.texture_vec.len(), 6);
    assert_eq!(*m.get(10, 20), CharTexture::default());
    *m.get_mut(12, 21) = CharTexture::from_char('z');
    assert_eq!(m.mesh.texture_vec[5], CharTexture::from_char('z'));
    assert_eq!(*m.get(12, 21), CharTexture::from_char('z'));
    *m.get_local_mut(0, 1) = CharTexture::from_char('q');
    assert_eq!(*m.get_local(0, 1), CharTexture::from_char('q'));
    m.fill(&CharTexture::from_char('.'));
    assert!(m.mesh.texture_vec.iter().all(|c| *c == CharTexture::from_char('.')));
    assert_eq!(*m.transform(), t);
}

#[test]
fn display_buffer_resize_blanks() {
    let mut b = DisplayBuffer { texture_vec: vec![CharTexture::from_char('a'); 2], width: 1, height: 2 };
    b.resize(4, 3);
    assert_eq!(b.texture_vec.len(), 12);
    assert!(b.texture_vec.iter().all(|c| *c == CharTexture::default()));
    b.texture_vec[0] = CharTexture::from_char('k');
    b.reinit();
    assert_eq!(b.texture_vec.len(), 12);
    assert_eq!(b.texture_vec[0], CharTexture::default());
}

#[test]
fn camera_accessors() {
    let mut cam = TerminalCamera2D::new(Loc { x: 1, y: 2, z: 3 }, TileSize::new(80, 24), 0);
    assert!(cam.settings().autoresize());
    assert_eq!(*cam.dim(), TileSize::new(80, 24));
    cam.set_dim(TileSize::new(100, 30));
    assert_eq!(cam.transform().scale, TileSize::new(100, 30));
    cam.loc_mut().x = 7;
    assert_eq!(cam.loc().x, 7);
    let mut s = TerminalCamera2DSettings::default();
    s.set_autoresize(false);
    assert!(!s.autoresize());
    let ui = UIComponent::new(Loc { x: 1, y: 1, z: 0 });
    assert!(!ui.relative_pos);
    let _ = Tile::new(0, 0);
}

use dorf::rect2d::Point2;
use dorf::terminal::{
    camera_step_for_key, handle_terminal_resize, is_exit_key, move_camera, resize_walls,
    CameraResized, CameraSide, TerminalResize,
};

#[test]
fn frame_walls_follow_camera_size() {
    let cam = TileSize::new(80, 24);
    let mut side = Transform2D { scale: TileSize::new(1, 0), loc: Loc { x: 0, y: 0, z: 0 } };
    resize_walls(&cam, &mut side, CameraSide::Left);
    assert_eq!(side.scale, TileSize::new(1, 24));
    let mut top = Transform2D { scale: TileSize::new(0, 1), loc: Loc { x: 0, y: 0, z: 0 } };
    resize_walls(&cam, &mut top, CameraSide::Bottom);
    assert_eq!(top.scale, TileSize::new(80, 1));
}

#[test]
fn camera_keys_and_moves() {
    let mut cam = TerminalCamera2D::new(Loc { x: 0, y: 0, z: 5 }, TileSize::new(10, 10), 0);
    assert_eq!(camera_step_for_key('d'), Some(Point2::new(1_000, 0)));
    assert_eq!(camera_step_for_key('W'), Some(Point2::new(0, -1_000)));
    assert_eq!(camera_step_for_key('x'), None);
    move_camera(camera_step_for_key('a').unwrap(), &mut cam);
    move_camera(camera_step_for_key('s').unwrap(), &mut cam);
    assert_eq!(*cam.loc(), Loc { x: -1_000, y: 1_000, z: 5 });
    assert!(is_exit_key('q'));
    assert!(is_exit_key('\u{1b}'));
    assert!(!is_exit_key('w'));
}

#[test]
fn terminal_resize_updates_autoresizing_camera() {
    let mut cam = TerminalCamera2D::new(Loc { x: 0, y: 0, z: 0 }, TileSize::new(10, 10), 0);
    let e = TerminalResize { width: 120, height: 40 };
    assert_eq!(handle_terminal_resize(&mut cam, Some(e)), Some(CameraResized(TileSize::new(120, 40))));
    assert_eq!(handle_terminal_resize(&mut cam, Some(e)), None);
    assert_eq!(handle_terminal_resize(&mut cam, None), None);
    cam.settings.set_autoresize(false);
    let f = TerminalResize { width: 50, height: 20 };
    assert_eq!(handle_terminal_resize(&mut cam, Some(f)), None);
    assert_eq!(*cam.dim(), TileSize::new(120, 40));
}
