use fractal_render::image_utils::IPoint;
use fractal_render::stage::{stage_factor, stage_size, BATCH, STAGES};
use fractal_render::viewport::{Focus, Size};

#[test]
fn constants_are_four_stages_of_hundred_pixel_batches() {
    assert_eq!(STAGES, 4);
    assert_eq!(BATCH, 100);
}

#[test]
fn stage_factor_halves_from_stage_to_stage() {
    assert_eq!(stage_factor(0), 8);
    assert_eq!(stage_factor(1), 4);
    assert_eq!(stage_factor(2), 2);
    assert_eq!(stage_factor(3), 1);
}

#[test]
fn stage_size_of_a_square_viewport() {
    let size = Size::new(256, 256);
    assert_eq!(stage_size(&size, 0), IPoint::new(32, 32));
    assert_eq!(stage_size(&size, 1), IPoint::new(64, 64));
    assert_eq!(stage_size(&size, 2), IPoint::new(128, 128));
    assert_eq!(stage_size(&size, 3), IPoint::new(256, 256));
}

#[test]
fn stage_size_rounds_down() {
    let size = Size::new(100, 37);
    assert_eq!(stage_size(&size, 0), IPoint::new(12, 4));
    assert_eq!(stage_size(&size, 1), IPoint::new(25, 9));
    assert_eq!(stage_size(&size, 2), IPoint::new(50, 18));
    assert_eq!(stage_size(&size, 3), IPoint::new(100, 37));
}

#[test]
fn stage_size_of_a_tiny_viewport_can_be_empty() {
    let size = Size::new(7, 3);
    assert_eq!(stage_size(&size, 0), IPoint::new(0, 0));
    assert_eq!(stage_size(&size, 1), IPoint::new(1, 0));
    assert_eq!(stage_size(&size, 2), IPoint::new(3, 1));
    assert_eq!(stage_size(&size, 3), IPoint::new(7, 3));
}

#[test]
fn stage_sizes_never_shrink_and_end_at_the_viewport() {
    for &(w, h) in &[(0u32, 0u32), (1, 1), (9, 200), (640, 480), (1921, 1081), (u32::MAX, 3)] {
        let size = Size::new(w, h);
        let mut last = IPoint::new(0, 0);
        for stage in 0..STAGES {
            let now = stage_size(&size, stage);
            assert!(last.x <= now.x && last.y <= now.y);
            last = now;
        }
        assert_eq!(last, IPoint::new(w as usize, h as usize));
    }
}

#[test]
fn ordinary_viewports_are_addressable() {
    assert!(Size::new(0, 0).is_addressable());
    assert!(Size::new(256, 256).is_addressable());
    assert!(Size::new(7680, 4320).is_addressable());
}

#[test]
fn a_viewport_that_overruns_the_address_space_is_not_addressable() {
    let huge = Size::new(u32::MAX, u32::MAX);
    let pixels = (u32::MAX as u128) * (u32::MAX as u128) + BATCH as u128;
    assert_eq!(huge.is_addressable(), pixels <= usize::MAX as u128);
}

#[test]
fn size_and_focus_keep_their_fields() {
    let size = Size::new(3, 4);
    assert_eq!((size.width, size.height), (3, 4));
    let focus = Focus::new(1, 2, 3);
    assert_eq!((focus.center_x, focus.center_y, focus.radius), (1, 2, 3));
    assert_eq!(focus, Focus { center_x: 1, center_y: 2, radius: 3 });
}
