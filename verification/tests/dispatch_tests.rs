use ffbridge::dispatch::{resolve_dispatch, status_to_result, DispatchOutcome};
use ffbridge::marshal::STATUS_INTERNAL;

#[test]
fn completed_calls_resolve_to_their_own_result() {
    assert_eq!(resolve_dispatch(DispatchOutcome::Completed(Ok(3u32))), Ok(3u32));
    assert_eq!(resolve_dispatch(DispatchOutcome::Completed(Err::<u32, u8>(7))), Err(7u8));
}

#[test]
fn a_call_the_pool_never_ran_resolves_to_the_reserved_status() {
    assert_eq!(resolve_dispatch(DispatchOutcome::<u32>::Failed), Err(STATUS_INTERNAL));
}

#[test]
fn zero_means_success_and_every_other_byte_passes_through() {
    assert_eq!(status_to_result(0), Ok(()));
    assert_eq!(status_to_result(1), Err(1u8));
    assert_eq!(status_to_result(254), Err(254u8));
}
