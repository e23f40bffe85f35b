use signaling::render::{position_in_texture, TexturePosition, TextureSize};

#[test]
fn position_inside_the_texture_is_kept() {
    let size = TextureSize {
        width: 1024,
        height: 600,
    };
    assert!(position_in_texture(&TexturePosition { x: 0, y: 0 }, &size));
    assert!(position_in_texture(&TexturePosition { x: 1023, y: 599 }, &size));
}

#[test]
fn position_outside_the_texture_is_discarded() {
    let size = TextureSize {
        width: 1024,
        height: 600,
    };
    assert!(!position_in_texture(&TexturePosition { x: 1024, y: 0 }, &size));
    assert!(!position_in_texture(&TexturePosition { x: 0, y: 600 }, &size));
}
