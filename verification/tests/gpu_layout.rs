use std::collections::HashSet;
use rust_renderer::gpu_layout::{
    align_to_256, cube_shadow_layer, shadow_pass_plan, ShadowPass, swap_red_blue, swapchain_image_count, triangle_list_indices, unpad_rows,
};

#[test]
fn align_to_256_rounds_up() {
    assert_eq!(align_to_256(0), 0);
    assert_eq!(align_to_256(1), 256);
    assert_eq!(align_to_256(256), 256);
    assert_eq!(align_to_256(257), 512);
    assert_eq!(align_to_256(800 * 4), 3328);
}

#[test]
fn unpad_rows_drops_row_padding() {
    // 2 x 2 pixels, rows padded to 12 bytes.
    let mut mapped = Vec::new();
    for y in 0..2u8 {
        for b in 0..12u8 {
            mapped.push(if b < 8 { y * 100 + b } else { 255 });
        }
    }
    let out = unpad_rows(&mapped, 2, 2, 12);
    assert_eq!(
        out,
        vec![0, 1, 2, 3, 4, 5, 6, 7, 100, 101, 102, 103, 104, 105, 106, 107]
    );
}

#[test]
fn swap_red_blue_swaps_and_drops_partial_pixel() {
    let px = vec![1, 2, 3, 4, 5, 6, 7, 8, 9];
    let out = swap_red_blue(&px);
    assert_eq!(out, vec![3, 2, 1, 4, 7, 6, 5, 8]);
    assert_eq!(swap_red_blue(&out), vec![1, 2, 3, 4, 5, 6, 7, 8]);
}

#[test]
fn triangle_list_indices_are_sequential() {
    assert_eq!(triangle_list_indices(0), Vec::<u32>::new());
    assert_eq!(triangle_list_indices(2), vec![0, 1, 2, 3, 4, 5]);
}

#[test]
fn swapchain_image_count_respects_bounds() {
    assert_eq!(swapchain_image_count(1, None), 2);
    assert_eq!(swapchain_image_count(3, None), 3);
    assert_eq!(swapchain_image_count(1, Some(1)), 1);
    assert_eq!(swapchain_image_count(2, Some(8)), 2);
    assert_eq!(swapchain_image_count(4, Some(3)), 3);
}

#[test]
fn cube_shadow_layers_are_distinct() {
    let mut seen = HashSet::new();
    for light in 0..8 {
        for face in 0..6 {
            let layer = cube_shadow_layer(light, face);
            assert!(layer < 48);
            assert!(seen.insert(layer));
        }
    }
    assert_eq!(cube_shadow_layer(2, 3), 15);
}

#[test]
fn shadow_pass_plan_spots_first_then_cube_faces() {
    let plan = shadow_pass_plan(&vec![false, true, false]);
    let mut expected = vec![ShadowPass::Spot { slot: 1 }];
    for face in 0..6 {
        expected.push(ShadowPass::CubeFace { slot: 0, face });
    }
    for face in 0..6 {
        expected.push(ShadowPass::CubeFace { slot: 2, face });
    }
    assert_eq!(plan, expected);
}

#[test]
fn shadow_pass_plan_caps_light_slots() {
    let plan = shadow_pass_plan(&vec![true; 11]);
    assert_eq!(plan.len(), 8);
    assert_eq!(plan[7], ShadowPass::Spot { slot: 7 });
    assert!(shadow_pass_plan(&vec![]).is_empty());
    assert_eq!(shadow_pass_plan(&vec![false; 9]).len(), 48);
}
