//! Manager lifecycle: worker-pool configuration and the backend-global
//! singleton decision.

use vstd::prelude::*;
use crate::errors::CropError;

verus! {

/// The dispatch manager's immutable configuration: worker-pool size and
/// the backend selected once at initialization.
#[derive(Clone, Copy, Debug, PartialEq, Eq, Structural)]
pub struct CropManager {
    pub num_threads: u64,
    pub use_vips: bool,
}

/// Decide a manager's construction. `backend_global_active` is the
/// process-wide flag's previous value, read by the caller when it
/// atomically set it: the external backend's global state may be live at
/// most once per process, and a worker pool needs at least one thread.
pub fn initialize(num_threads: u64, use_vips: bool, backend_global_active: bool) -> (r: Result<
    CropManager,
    CropError,
>)
    ensures
        r is Ok <==> (1 <= num_threads && !(use_vips && backend_global_active)),
        num_threads == 0 ==> r == Err::<CropManager, CropError>(CropError::InvalidArgument),
        1 <= num_threads && use_vips && backend_global_active ==> r == Err::<
            CropManager,
            CropError,
        >(CropError::LifecycleMisuse),
        r is Ok ==> r->Ok_0 == (CropManager { num_threads, use_vips }),
{
    if num_threads == 0 {
        return Err(CropError::InvalidArgument);
    }
    if use_vips && backend_global_active {
        return Err(CropError::LifecycleMisuse);
    }
    Ok(CropManager { num_threads, use_vips })
}

/// Consume a manager at teardown, once its worker pool has drained, and
/// say whether backend-global state must now be torn down as well.
/// Taking the manager by value makes use after destruction impossible.
pub fn destroy(manager: CropManager) -> (needs_backend_teardown: bool)
    ensures
        needs_backend_teardown == manager.use_vips,
{
    manager.use_vips
}

/// A live handle to the external backend's process-wide state. At most
/// one exists at a time; constructing it decides the
/// double-initialization error.
pub struct VipsInstance {
    pub leak_test: bool,
}

impl VipsInstance {
    /// Decide a singleton construction attempt: `already_active` is the
    /// process-wide flag's previous value, read by the caller when it
    /// atomically set it. A second live construction is refused.
    pub fn new(already_active: bool, leak_test: bool) -> (r: Result<VipsInstance, CropError>)
        ensures
            r is Ok <==> !already_active,
            r is Ok ==> r->Ok_0 == (VipsInstance { leak_test }),
            r is Err ==> r->Err_0 == CropError::LifecycleMisuse,
    {
        if already_active {
            Err(CropError::LifecycleMisuse)
        } else {
            Ok(VipsInstance { leak_test })
        }
    }
}

} // verus!
