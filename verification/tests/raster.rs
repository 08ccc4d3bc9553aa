use cdshealpix::nested::map::img::to_skymap_img_default;
use cdshealpix::nested::map::skymap::implicit::ImplicitSkyMapArrayRef;
use healpix_batch::skymap::{depth_skymap, image_buffer_len, SupportedArray};

// Rasterizing a uniform-value store: every pixel inside the projection's
// domain maps to the same color; pixels outside it get the sentinel
// (transparent) value. The per-pixel projection is the engine's; the
// library fixes the depth and the buffer geometry.

fn uniform_image(values: &SupportedArray, image_size: u16) -> Vec<u8> {
    let depth = depth_skymap(values).unwrap();
    let img = match values {
        SupportedArray::F64(v) => {
            let floats: Vec<f64> = v.iter().map(|&b| f64::from_bits(b)).collect();
            to_skymap_img_default(
                &ImplicitSkyMapArrayRef::<'_, u64, f64>::new(depth, floats.as_slice()),
                (image_size << 1, image_size),
                None,
                None,
                None,
                None,
                None,
            )
            .unwrap()
        },
        SupportedArray::I32(v) => to_skymap_img_default(
            &ImplicitSkyMapArrayRef::<'_, u64, i32>::new(depth, v.as_slice()),
            (image_size << 1, image_size),
            None,
            None,
            None,
            None,
            None,
        )
        .unwrap(),
        _ => panic!("kind not exercised here"),
    };
    assert_eq!(img.len() as u64, image_buffer_len(image_size));
    img
}

fn count_distinct_rgba(img: &[u8]) -> usize {
    let mut seen: Vec<[u8; 4]> = Vec::new();
    for px in img.chunks(4) {
        let p = [px[0], px[1], px[2], px[3]];
        if !seen.contains(&p) {
            seen.push(p);
        }
    }
    seen.len()
}

#[test]
fn uniform_f64_store_rasterizes_to_one_color() {
    let values = SupportedArray::F64(vec![2.5f64.to_bits(); 48]);
    let img = uniform_image(&values, 16);
    // one in-domain color, plus at most one out-of-domain sentinel
    assert!(count_distinct_rgba(&img) <= 2, "more than one mapped color");
}

#[test]
fn uniform_i32_store_rasterizes_to_one_color() {
    let values = SupportedArray::I32(vec![7; 48]);
    let img = uniform_image(&values, 16);
    assert!(count_distinct_rgba(&img) <= 2, "more than one mapped color");
}
