use raytracer::render::Renderer;

#[test]
fn renderer_keeps_its_settings() {
    let r = Renderer::new(1200, 800, 100, 50);
    assert_eq!(r.image_width, 1200);
    assert_eq!(r.image_height, 800);
    assert_eq!(r.samples_per_pixel, 100);
    assert_eq!(r.bounce_depth, 50);
}

#[test]
fn pixel_count_does_not_overflow() {
    assert_eq!(Renderer::new(1200, 800, 1, 1).pixel_count(), 960_000);
    assert_eq!(Renderer::new(u32::MAX, u32::MAX, 1, 1).pixel_count(), (u32::MAX as u64) * (u32::MAX as u64));
}

#[test]
fn rows_count_from_the_bottom() {
    let r = Renderer::new(4, 3, 1, 1);
    assert_eq!(r.row_from_bottom(0), 3);
    assert_eq!(r.row_from_bottom(2), 1);
}
