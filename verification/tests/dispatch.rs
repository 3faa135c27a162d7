use batch_crop::dispatch::{crop_and_resize, execute_job, place_slab, validate_batch, Job};
use batch_crop::errors::CropError;
use batch_crop::geometry::Frac;

fn frac(num: u32, den: u32) -> Frac {
    Frac { num, den }
}

// A 4x4 24-bit BMP whose pixel (x, y) has RGB (x*40+5, y*40+7, x+16*y).
fn bmp4() -> Vec<u8> {
    vec![
        66, 77, 102, 0, 0, 0, 0, 0, 0, 0, 54, 0, 0, 0, 40, 0, 0, 0, 4, 0, 0, 0, 4, 0, 0, 0, 1, 0,
        24, 0, 0, 0, 0, 0, 48, 0, 0, 0, 19, 11, 0, 0, 19, 11, 0, 0, 0, 0, 0, 0, 0, 0, 0, 0, 48,
        127, 5, 49, 127, 45, 50, 127, 85, 51, 127, 125, 32, 87, 5, 33, 87, 45, 34, 87, 85, 35, 87,
        125, 16, 47, 5, 17, 47, 45, 18, 47, 85, 19, 47, 125, 0, 7, 5, 1, 7, 45, 2, 7, 85, 3, 7,
        125,
    ]
}

// A 1x1 24-bit BMP whose only pixel has RGB (100, 150, 200).
fn bmp1() -> Vec<u8> {
    vec![
        66, 77, 58, 0, 0, 0, 0, 0, 0, 0, 54, 0, 0, 0, 40, 0, 0, 0, 1, 0, 0, 0, 1, 0, 0, 0, 1, 0,
        24, 0, 0, 0, 0, 0, 4, 0, 0, 0, 19, 11, 0, 0, 19, 11, 0, 0, 0, 0, 0, 0, 0, 0, 0, 0, 200,
        150, 100, 0,
    ]
}

// The top-left 2x2 crop of the 4x4 image.
fn slab22() -> Vec<u8> {
    vec![5, 7, 0, 45, 7, 1, 5, 47, 16, 45, 47, 17]
}

fn job3(window_size: u32, chans: u32) -> Job {
    Job {
        paths: vec![b"a.bmp".to_vec(), b"b.bmp".to_vec(), b"c.bmp".to_vec()],
        scales: vec![frac(1, 2); 3],
        xs: vec![frac(0, 1); 3],
        ys: vec![frac(0, 1); 3],
        window_size,
        chans,
        max_img_percent: frac(1, 1),
        length: 3,
    }
}

#[test]
fn buffer_size_is_checked_before_any_decode() {
    // 3 images at 32x32x3 need exactly 9216 bytes; 9000 must be rejected
    // as InvalidArgument even though no content is readable at all.
    let job = job3(32, 3);
    let contents: Vec<Option<Vec<u8>>> = vec![None, None, None];
    let mut dest = vec![0u8; 9000];
    let r = execute_job(&job, &contents, &mut dest);
    assert_eq!(r, Err(CropError::InvalidArgument));
    assert_eq!(dest, vec![0u8; 9000]);
    assert!(validate_batch(&job, 9216));
    assert!(!validate_batch(&job, 9000));
}

#[test]
fn mismatched_array_lengths_are_rejected() {
    let mut job = job3(32, 3);
    job.scales.pop();
    let contents: Vec<Option<Vec<u8>>> = vec![Some(bmp4()), Some(bmp4()), Some(bmp4())];
    let mut dest = vec![0u8; 9216];
    assert_eq!(execute_job(&job, &contents, &mut dest), Err(CropError::InvalidArgument));
}

#[test]
fn batch_writes_every_region_at_its_index() {
    let job = job3(2, 3);
    let contents = vec![Some(bmp4()), Some(bmp4()), Some(bmp4())];
    let mut dest = vec![0u8; 3 * 2 * 2 * 3];
    execute_job(&job, &contents, &mut dest).unwrap();
    let stride = 12;
    for k in 0..3 {
        assert_eq!(&dest[k * stride..(k + 1) * stride], &slab22()[..]);
    }
}

#[test]
fn unreadable_path_fails_whole_batch() {
    let job = job3(2, 3);
    let contents = vec![Some(bmp4()), None, Some(bmp4())];
    let mut dest = vec![7u8; 36];
    assert_eq!(execute_job(&job, &contents, &mut dest), Err(CropError::IoFailure));
    assert_eq!(dest, vec![7u8; 36]);
}

#[test]
fn undecodable_content_fails_whole_batch() {
    let job = job3(2, 3);
    let contents = vec![Some(bmp4()), Some(vec![9, 9, 9, 9]), Some(bmp4())];
    let mut dest = vec![0u8; 36];
    assert_eq!(execute_job(&job, &contents, &mut dest), Err(CropError::DecodeFailure));
}

#[test]
fn unsupported_extension_fails_whole_batch() {
    let mut job = job3(2, 3);
    job.paths[1] = b"b.txt".to_vec();
    let contents = vec![Some(bmp4()), Some(bmp4()), Some(bmp4())];
    let mut dest = vec![0u8; 36];
    assert_eq!(execute_job(&job, &contents, &mut dest), Err(CropError::DecodeFailure));
}

#[test]
fn channel_mismatch_is_a_contract_violation() {
    // The BMP decodes to 3 bytes per pixel, so a 1-channel stride cannot
    // hold a slab: the batch must stop with ContractViolation.
    let job = job3(2, 1);
    let contents = vec![Some(bmp4()), Some(bmp4()), Some(bmp4())];
    let mut dest = vec![0u8; 3 * 2 * 2 * 1];
    assert_eq!(execute_job(&job, &contents, &mut dest), Err(CropError::ContractViolation));
}

#[test]
fn out_of_range_coordinate_fails_batch_with_invalid_argument() {
    let mut job = job3(2, 3);
    job.xs[2] = frac(3, 2);
    let contents = vec![Some(bmp4()), Some(bmp4()), Some(bmp4())];
    let mut dest = vec![0u8; 36];
    assert_eq!(execute_job(&job, &contents, &mut dest), Err(CropError::InvalidArgument));
}

#[test]
fn crop_window_outside_degenerate_image_is_backend_failure() {
    // A 1x1 source forces a 2x2 window that cannot be extracted.
    let r = crop_and_resize(
        &b"one.bmp".to_vec(),
        &bmp1(),
        frac(1, 1),
        frac(0, 1),
        frac(0, 1),
        frac(1, 1),
        2,
        2,
    );
    assert!(matches!(r, Err(CropError::BackendFailure)));
}

#[test]
fn single_image_crop_and_resize_matches_batch_unit() {
    let out = crop_and_resize(
        &b"a.bmp".to_vec(),
        &bmp4(),
        frac(1, 2),
        frac(0, 1),
        frac(0, 1),
        frac(1, 1),
        2,
        2,
    )
    .unwrap();
    assert_eq!(out.width, 2);
    assert_eq!(out.height, 2);
    assert_eq!(out.channels, 3);
    assert_eq!(out.data, slab22());
}

#[test]
fn single_image_non_square_resize_is_allowed() {
    let out = crop_and_resize(
        &b"a.bmp".to_vec(),
        &bmp4(),
        frac(1, 2),
        frac(1, 1),
        frac(1, 1),
        frac(1, 1),
        4,
        2,
    )
    .unwrap();
    assert_eq!(out.width, 4);
    assert_eq!(out.height, 2);
    // window (2,2,2,2); target column i reads source column floor(i*2/4).
    assert_eq!(
        out.data,
        vec![85, 87, 34, 85, 87, 34, 125, 87, 35, 125, 87, 35, 85, 127, 50, 85, 127, 50, 125, 127,
            51, 125, 127, 51]
    );
}

#[test]
fn placement_offset_depends_only_on_index() {
    let a = vec![1u8, 2, 3];
    let b = vec![4u8, 5, 6];
    let mut first = vec![0u8; 9];
    place_slab(&mut first, 1, 3, &a).unwrap();
    place_slab(&mut first, 0, 3, &b).unwrap();
    let mut second = vec![0u8; 9];
    place_slab(&mut second, 0, 3, &b).unwrap();
    place_slab(&mut second, 1, 3, &a).unwrap();
    // arrival order does not matter: offset is the index times the stride
    assert_eq!(first, second);
    assert_eq!(first, vec![4, 5, 6, 1, 2, 3, 0, 0, 0]);
}

#[test]
fn place_slab_rejects_wrong_slab_length() {
    let mut dest = vec![0u8; 9];
    let r = place_slab(&mut dest, 0, 3, &vec![1u8, 2]);
    assert_eq!(r, Err(CropError::ContractViolation));
    assert_eq!(dest, vec![0u8; 9]);
}

#[test]
fn place_slab_rejects_slot_outside_buffer() {
    let mut dest = vec![0u8; 9];
    let r = place_slab(&mut dest, 3, 3, &vec![1u8, 2, 3]);
    assert_eq!(r, Err(CropError::InvalidArgument));
    assert_eq!(dest, vec![0u8; 9]);
}

#[test]
fn empty_batch_needs_empty_buffer() {
    let job = Job {
        paths: vec![],
        scales: vec![],
        xs: vec![],
        ys: vec![],
        window_size: 32,
        chans: 3,
        max_img_percent: frac(1, 1),
        length: 0,
    };
    let contents: Vec<Option<Vec<u8>>> = vec![];
    let mut dest: Vec<u8> = vec![];
    assert_eq!(execute_job(&job, &contents, &mut dest), Ok(()));
    let mut dest = vec![0u8; 5];
    assert_eq!(execute_job(&job, &contents, &mut dest), Err(CropError::InvalidArgument));
}
