use zune_core::bit_depth::{BitDepth, BitType};
use zune_core::colorspace::ColorSpace;
use zune_frame::bilateral::{
    bilateral_terms, circle_window_indices, color_table_len, radius_from_diameter, space_offsets,
};
use zune_frame::channel::Channel;
use zune_frame::errors::ImageErrors;
use zune_frame::filter::{check_supported, execute_filter, filter_channel, filter_channel_at_depth};
use zune_frame::frame::Frame;
use zune_frame::numeric::NumOps;
use zune_frame::pad::{pad, PadMethod};
use zune_frame::spatial::spatial;

fn u8_channel(values: &[u8]) -> Channel {
    Channel::from_vec(values.to_vec())
}

fn samples(c: &Channel) -> Vec<u8> {
    c.reinterpret_as::<u8>().unwrap().to_vec()
}

fn invert(c: &Channel) -> Result<Channel, ImageErrors> {
    let s = c.reinterpret_as::<u8>()?;
    Ok(Channel::from_vec(s.iter().map(|x| 255 - x).collect::<Vec<u8>>()))
}

#[test]
fn pad_replicates_edges() {
    let src = [1u8, 2, 3, 4];
    let out = pad(&src, 2, 2, 1, 1, PadMethod::Replicate);
    assert_eq!(
        out,
        vec![1, 1, 2, 2, 1, 1, 2, 2, 3, 3, 4, 4, 3, 3, 4, 4]
    );
}

#[test]
fn pad_keeps_interior_and_uses_nearest_border() {
    let src: Vec<u16> = (0..12).collect();
    let (w, h, px, py) = (4usize, 3usize, 2usize, 1usize);
    let out = pad(&src, w, h, px, py, PadMethod::Replicate);
    let pw = w + 2 * px;
    assert_eq!(out.len(), pw * (h + 2 * py));
    for y in 0..h + 2 * py {
        for x in 0..pw {
            let sx = (x as isize - px as isize).clamp(0, w as isize - 1) as usize;
            let sy = (y as isize - py as isize).clamp(0, h as isize - 1) as usize;
            assert_eq!(out[y * pw + x], src[sy * w + sx]);
        }
    }
    assert_eq!(src, (0..12).collect::<Vec<u16>>());
}

#[test]
fn spatial_hands_each_position_its_window() {
    let src = [1u8, 2, 3, 4, 5, 6];
    let padded = pad(&src, 3, 2, 1, 1, PadMethod::Replicate);
    let mut dest = vec![0u8; 6];
    // the true centre of a 3 by 3 window is entry 4
    spatial(&padded, &mut dest, 1, 3, 2, |w: &[u8]| w[4]);
    assert_eq!(dest, src.to_vec());
    let mut sums = vec![0u16; 6];
    let padded16: Vec<u16> = padded.iter().map(|&x| x as u16).collect();
    spatial(&padded16, &mut sums, 1, 3, 2, |w: &[u16]| w.iter().sum());
    // window of the top-left pixel: rows [1,1,2],[1,1,2],[4,4,5]
    assert_eq!(sums[0], 21);
}

#[test]
fn filter_channel_keeps_kind_and_maps_windows() {
    let c = Channel::from_vec(vec![10u16, 20, 30, 40]);
    let out = filter_channel::<u16, _>(&c, 2, 2, 1, |w: &[u16]| w[0]).unwrap();
    assert_eq!(out.get_bit_type(), BitType::U16);
    // top-left of each window: the replicated neighbour up and to the left
    assert_eq!(out.reinterpret_as::<u16>().unwrap(), &[10, 10, 10, 10]);
    let wrong = filter_channel::<u8, _>(&c, 2, 2, 1, |w: &[u8]| w[0]);
    assert!(matches!(wrong, Err(ImageErrors::TypeMismatch(BitType::U16, BitType::U8))));
}

#[test]
fn equal_weights_over_flat_region_give_its_value() {
    let c = u8_channel(&[77; 25]);
    let mean = |w: &[u8]| -> u8 {
        let s: u32 = w.iter().map(|&x| x as u32).sum();
        u8::from_clamped(((s as f64) / (w.len() as f64)).round() as i64)
    };
    let out = filter_channel::<u8, _>(&c, 5, 5, 2, mean).unwrap();
    assert_eq!(samples(&out), vec![77u8; 25]);
}

#[test]
fn space_offsets_in_circle_row_major() {
    assert_eq!(space_offsets(0), vec![(0, 0)]);
    assert_eq!(space_offsets(1), vec![(-1, 0), (0, -1), (0, 0), (0, 1), (1, 0)]);
    let r2 = space_offsets(2);
    assert_eq!(r2.len(), 13);
    for &(i, j) in &r2 {
        assert!(r2.contains(&(-i, j)) && r2.contains(&(i, -j)));
    }
}

#[test]
fn bilateral_terms_index_by_difference_to_centre() {
    // radius 3: the compared sample is entry (3 + 1) / 2 = 2
    let area = [10u8, 200, 50, 0, 255];
    let terms = bilateral_terms(&area, 3, &[0, 1, 2, 3]);
    assert_eq!(terms, vec![(10, 40), (200, 150), (50, 0), (0, 50)]);
    assert_eq!(bilateral_terms(&area, 3, &[4, 0]), vec![(255, 205), (10, 40)]);
    assert_eq!(bilateral_terms(&area, 1, &[]).len(), 0);
}

#[test]
fn numeric_policy_saturates() {
    assert_eq!(u8::from_clamped(-5), 0);
    assert_eq!(u8::from_clamped(300), 255);
    assert_eq!(u16::from_clamped(70000), 65535);
    assert_eq!(u16::from_clamped(1234), 1234);
    assert_eq!(200u8.widen(), 200);
}

#[test]
fn unsupported_kind_fails_and_leaves_frame() {
    let mut frame = Frame::new(vec![Channel::new_with_bit_type(2, BitType::F32)]);
    let r = execute_filter(&mut frame, ColorSpace::Luma, BitDepth::Float32, "Invert", &[BitType::U8, BitType::U16], invert);
    assert!(matches!(r, Err(ImageErrors::OperationNotImplemented("Invert", BitType::F32))));
    let c = &frame.get_channels_ref(ColorSpace::Luma, false)[0];
    assert_eq!(c.get_bit_type(), BitType::F32);
    assert_eq!(c.len(), 2);
    assert!(check_supported("Invert", &[BitType::U8], BitDepth::Eight).is_ok());
    assert!(check_supported("Invert", &[], BitDepth::Eight).is_err());
}

#[test]
fn execute_filter_replaces_colour_planes_not_alpha() {
    let mut frame = Frame::new(vec![u8_channel(&[0, 10]), u8_channel(&[100, 200])]);
    execute_filter(&mut frame, ColorSpace::LumaA, BitDepth::Eight, "Invert", &[BitType::U8], invert).unwrap();
    let chans = frame.get_channels_ref(ColorSpace::LumaA, false);
    assert_eq!(samples(&chans[0]), vec![255, 245]);
    assert_eq!(samples(&chans[1]), vec![100, 200]);
}

#[test]
fn execute_filter_stops_at_first_failure() {
    let mut frame = Frame::new(vec![u8_channel(&[1]), Channel::new_with_bit_type(1, BitType::U16), u8_channel(&[3])]);
    let r = execute_filter(&mut frame, ColorSpace::RGB, BitDepth::Eight, "Invert", &[BitType::U8], invert);
    assert!(matches!(r, Err(ImageErrors::TypeMismatch(BitType::U16, BitType::U8))));
    let chans = frame.get_channels_ref(ColorSpace::RGB, false);
    assert_eq!(samples(&chans[0]), vec![254]);
    assert_eq!(samples(&chans[2]), vec![3]);
}

#[test]
fn parallel_commit_matches_sequential() {
    let planes = vec![u8_channel(&[1, 2, 3]), u8_channel(&[4, 5, 6]), u8_channel(&[7, 8, 9])];
    let mut sequential = Frame::new(planes.clone());
    execute_filter(&mut sequential, ColorSpace::RGB, BitDepth::Eight, "Invert", &[BitType::U8], invert).unwrap();

    let mut parallel = Frame::new(planes);
    // each plane on its own, in reverse order, as independent workers may finish
    let mut results: Vec<Result<Channel, ImageErrors>> = parallel
        .get_channels_ref(ColorSpace::RGB, true)
        .iter()
        .rev()
        .map(invert)
        .collect();
    results.reverse();
    parallel.commit_results(ColorSpace::RGB, true, results).unwrap();
    for i in 0..3 {
        assert_eq!(
            samples(&sequential.get_channels_ref(ColorSpace::RGB, false)[i]),
            samples(&parallel.get_channels_ref(ColorSpace::RGB, false)[i])
        );
    }
}

#[test]
fn commit_results_reports_first_failure_and_keeps_successes() {
    let mut frame = Frame::new(vec![u8_channel(&[1]), u8_channel(&[2]), u8_channel(&[3])]);
    let results = vec![
        Ok(u8_channel(&[10])),
        Err(ImageErrors::UnsupportedComponentCount(7)),
        Ok(u8_channel(&[30])),
    ];
    let r = frame.commit_results(ColorSpace::RGB, false, results);
    assert!(matches!(r, Err(ImageErrors::UnsupportedComponentCount(7))));
    let chans = frame.get_channels_ref(ColorSpace::RGB, false);
    assert_eq!(samples(&chans[0]), vec![10]);
    assert_eq!(samples(&chans[1]), vec![2]);
    assert_eq!(samples(&chans[2]), vec![30]);
}

#[test]
fn color_table_covers_every_difference() {
    assert_eq!(color_table_len(BitDepth::Eight), 256);
    assert_eq!(color_table_len(BitDepth::Sixteen), 65536);
    assert_eq!(color_table_len(BitDepth::Float32), 2);
}

#[test]
fn radius_is_half_a_positive_diameter() {
    assert_eq!(radius_from_diameter(20), Some(10));
    assert_eq!(radius_from_diameter(5), Some(2));
    assert_eq!(radius_from_diameter(0), None);
    assert_eq!(radius_from_diameter(-3), None);
}

#[test]
fn compared_sample_index_at_small_and_large_radii() {
    let area: Vec<u8> = (0..=120).collect();
    // (radius + 1) / 2: radius 1 and 2 compare with entry 1, radius 10 with entry 5
    assert_eq!(bilateral_terms(&area, 1, &[0]), vec![(0, 1)]);
    assert_eq!(bilateral_terms(&area, 2, &[0]), vec![(0, 1)]);
    assert_eq!(bilateral_terms(&area, 10, &[0]), vec![(0, 5)]);
}

#[test]
fn window_indices_follow_the_offsets() {
    assert_eq!(circle_window_indices(0), vec![0]);
    // radius 1, 3 by 3 window: the four edge neighbours and the centre
    assert_eq!(circle_window_indices(1), vec![1, 3, 4, 5, 7]);
    let r = 2usize;
    let side = 2 * r + 1;
    let offsets = space_offsets(r);
    let indices = circle_window_indices(r);
    assert_eq!(indices.len(), offsets.len());
    for (&(i, j), &k) in offsets.iter().zip(indices.iter()) {
        assert_eq!(k, (i + r as i32) as usize * side + (j + r as i32) as usize);
    }
}

#[test]
fn filter_at_depth_dispatches_on_kind() {
    let c8 = u8_channel(&[1, 2, 3, 4]);
    let out = filter_channel_at_depth(&c8, BitDepth::Eight, 2, 2, 0, "Copy", |w: &[u8]| w[0] + 1, |w: &[u16]| w[0]).unwrap();
    assert_eq!(samples(&out), vec![2, 3, 4, 5]);
    let c16 = Channel::from_vec(vec![7u16, 8]);
    let out = filter_channel_at_depth(&c16, BitDepth::Sixteen, 2, 1, 0, "Copy", |w: &[u8]| w[0], |w: &[u16]| w[0] * 2).unwrap();
    assert_eq!(out.reinterpret_as::<u16>().unwrap(), &[14, 16]);
    let mismatch = filter_channel_at_depth(&c16, BitDepth::Eight, 2, 1, 0, "Copy", |w: &[u8]| w[0], |w: &[u16]| w[0]);
    assert!(matches!(mismatch, Err(ImageErrors::TypeMismatch(BitType::U16, BitType::U8))));
    let f = Channel::new_with_bit_type(2, BitType::F32);
    let unsupported = filter_channel_at_depth(&f, BitDepth::Float32, 2, 1, 0, "Copy", |w: &[u8]| w[0], |w: &[u16]| w[0]);
    assert!(matches!(unsupported, Err(ImageErrors::OperationNotImplemented("Copy", BitType::F32))));
}
