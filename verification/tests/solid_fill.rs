use mirage::raster::Pixel;
use mirage::solid::solid;

#[test]
fn solid_raster_is_red_everywhere() {
    let r = solid(4, 3);
    assert_eq!(r.width, 4);
    assert_eq!(r.height, 3);
    assert_eq!(r.pixels.len(), 12);
    for p in &r.pixels {
        assert_eq!(*p, Pixel { red: 255, green: 0, blue: 0, alpha: 255 });
    }
}

#[test]
fn solid_raster_may_be_empty_on_a_degenerate_axis() {
    let r = solid(0, 9);
    assert_eq!(r.pixels.len(), 0);
    let r = solid(9, 0);
    assert_eq!(r.pixels.len(), 0);
}
