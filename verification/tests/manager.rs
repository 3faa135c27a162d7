use batch_crop::errors::CropError;
use batch_crop::manager::{destroy, initialize, CropManager, VipsInstance};

#[test]
fn initialize_records_pool_size_and_backend() {
    let m = initialize(8, true, false).unwrap();
    assert_eq!(m, CropManager { num_threads: 8, use_vips: true });
    let m = initialize(1, false, false).unwrap();
    assert_eq!(m, CropManager { num_threads: 1, use_vips: false });
}

#[test]
fn initialize_rejects_empty_pool() {
    assert_eq!(initialize(0, false, false), Err(CropError::InvalidArgument));
}

#[test]
fn second_backend_initialization_is_lifecycle_misuse() {
    assert_eq!(initialize(4, true, true), Err(CropError::LifecycleMisuse));
    // Without the external backend the flag does not matter.
    assert!(initialize(4, false, true).is_ok());
}

#[test]
fn destroy_says_when_backend_teardown_is_due() {
    let m = initialize(2, true, false).unwrap();
    assert!(destroy(m));
    let m = initialize(2, false, false).unwrap();
    assert!(!destroy(m));
}

#[test]
fn singleton_handle_constructs_once() {
    let first = VipsInstance::new(false, false);
    assert!(first.is_ok());
    let second = VipsInstance::new(true, false);
    assert!(matches!(second, Err(CropError::LifecycleMisuse)));
}
