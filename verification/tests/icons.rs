use foundry::icons::{
    fill_icon_rect, hud_icon_pixels, paint_icon_mask, paint_plate_icon, player_image_pixels, rock_mask,
    set_icon_pixel, HudIconKind,
};

fn px(p: &[u8], x: usize, y: usize) -> [u8; 4] {
    let i = (y * 16 + x) * 4;
    [p[i], p[i + 1], p[i + 2], p[i + 3]]
}

#[test]
fn empty_icon_is_transparent() {
    let p = hud_icon_pixels(HudIconKind::Empty);
    assert_eq!(p.len(), 1024);
    assert!(p.iter().all(|b| *b == 0));
}

#[test]
fn furnace_icon_has_its_flame() {
    let p = hud_icon_pixels(HudIconKind::Furnace);
    assert_eq!(px(&p, 7, 8), [255, 188, 62, 255]);
    assert_eq!(px(&p, 6, 11), [232, 104, 45, 255]);
    assert_eq!(px(&p, 4, 2), [47, 44, 40, 255]);
    assert_eq!(px(&p, 0, 0), [0, 0, 0, 0]);
}

#[test]
fn iron_ore_icon_has_sparkles_over_rock() {
    let p = hud_icon_pixels(HudIconKind::IronOre);
    assert_eq!(px(&p, 7, 4), [220, 238, 246, 255]);
    assert_eq!(px(&p, 10, 7), [205, 229, 241, 255]);
    // The top of the rock is edge-coloured.
    assert_eq!(px(&p, 6, 1), [49, 76, 94, 255]);
    assert_eq!(px(&p, 0, 0), [0, 0, 0, 0]);
}

#[test]
fn stone_icon_uses_fill_edge_and_highlight() {
    let p = hud_icon_pixels(HudIconKind::Stone);
    // Interior pixel (5, 4): all four neighbours set, (5 + 8) % 7 != 0.
    assert_eq!(px(&p, 5, 4), [142, 148, 151, 255]);
    // Interior pixel (3, 2) is not in the mask; (4, 5): (4 + 10) % 7 == 0.
    assert_eq!(px(&p, 3, 2), [0, 0, 0, 0]);
    assert_eq!(px(&p, 4, 5), [177, 184, 186, 255]);
    assert_eq!(px(&p, 2, 4), [74, 80, 82, 255]);
}

#[test]
fn plate_icons_are_drawn_in_layers() {
    let p = hud_icon_pixels(HudIconKind::CopperPlate);
    assert_eq!(px(&p, 3, 4), [105, 57, 35, 255]);
    assert_eq!(px(&p, 6, 6), [196, 113, 66, 255]);
    assert_eq!(px(&p, 6, 4), [236, 158, 98, 255]);
    assert_eq!(px(&p, 6, 10), [105, 57, 35, 255]);
    let mut q = vec![0u8; 1024];
    paint_plate_icon(&mut q, 16, [196, 113, 66, 255], [105, 57, 35, 255], [236, 158, 98, 255]);
    assert_eq!(q, p);
}

#[test]
fn pixels_outside_the_image_are_ignored() {
    let mut p = vec![0u8; 1024];
    set_icon_pixel(&mut p, 16, -1, 3, [1, 2, 3, 4]);
    set_icon_pixel(&mut p, 16, 3, 16, [1, 2, 3, 4]);
    assert!(p.iter().all(|b| *b == 0));
    set_icon_pixel(&mut p, 16, 15, 15, [1, 2, 3, 4]);
    assert_eq!(px(&p, 15, 15), [1, 2, 3, 4]);
}

#[test]
fn rectangles_are_clipped_and_inclusive() {
    let mut p = vec![0u8; 1024];
    fill_icon_rect(&mut p, 16, 14, -3, 20, 1, [9, 9, 9, 9]);
    assert_eq!(px(&p, 14, 0), [9, 9, 9, 9]);
    assert_eq!(px(&p, 15, 1), [9, 9, 9, 9]);
    assert_eq!(px(&p, 13, 0), [0, 0, 0, 0]);
    assert_eq!(px(&p, 15, 2), [0, 0, 0, 0]);
    assert_eq!(p.iter().filter(|b| **b == 9).count(), 4 * 4);
}

#[test]
fn masks_paint_only_set_pixels() {
    let mut mask = ["0000000000000000"; 16];
    mask[2] = "0111000000000000";
    let mut p = vec![7u8; 1024];
    paint_icon_mask(&mut p, 16, &mask, [1, 1, 1, 1], [2, 2, 2, 2], [3, 3, 3, 3]);
    assert_eq!(px(&p, 1, 2), [2, 2, 2, 2]);
    assert_eq!(px(&p, 2, 2), [2, 2, 2, 2]);
    assert_eq!(px(&p, 0, 2), [7, 7, 7, 7]);
    assert_eq!(rock_mask()[1], "0000001110000000");
}

#[test]
fn player_sprite_has_outline_body_and_feet() {
    let p = player_image_pixels();
    assert_eq!(p.len(), 1024);
    assert_eq!(px(&p, 0, 0), [0, 0, 0, 0]);
    assert_eq!(px(&p, 5, 2), [28, 22, 18, 255]);
    assert_eq!(px(&p, 7, 8), [226, 205, 124, 255]);
    assert_eq!(px(&p, 5, 12), [190, 168, 96, 255]);
    assert_eq!(px(&p, 5, 13), [28, 22, 18, 255]);
}
