use std::sync::atomic::{AtomicBool, Ordering};
use std::sync::Arc;
use std::time::{Duration, Instant};

use ffbridge::bridge::{ffconnect_init, queue_list_init};
use ffbridge::dispatch::{resolve_dispatch, DispatchOutcome};
use ffbridge::engine::FFModel;

#[test]
fn a_blocking_call_does_not_delay_an_unrelated_one() {
    let runtime = tokio::runtime::Builder::new_multi_thread().worker_threads(2).build().unwrap();
    let slow_finished = Arc::new(AtomicBool::new(false));
    let flag = slow_finished.clone();
    runtime.block_on(async move {
        // A fake engine call that blocks its worker for a while.
        let slow = tokio::task::spawn_blocking(move || {
            let started = Instant::now();
            while started.elapsed() < Duration::from_millis(600) {}
            flag.store(true, Ordering::SeqCst);
        });
        // An unrelated, cheap call submitted concurrently.
        let quick = tokio::task::spawn_blocking(|| {
            let mut engine = FFModel::new();
            let ch = ffconnect_init(&mut engine, 0)?;
            queue_list_init(&mut engine, ch).map(|_| ())
        });
        let outcome = match quick.await {
            Ok(result) => DispatchOutcome::Completed(result),
            Err(_) => DispatchOutcome::Failed,
        };
        // The cheap call resolved while the blocking one was still running
        // on its own worker.
        assert_eq!(resolve_dispatch(outcome), Ok(()));
        assert!(!slow_finished.load(Ordering::SeqCst));
        slow.await.unwrap();
        assert!(slow_finished.load(Ordering::SeqCst));
    });
}
