use std::sync::atomic::{AtomicBool, AtomicU32, Ordering};
use std::sync::Arc;
use std::time::Duration;

use svc_context::{Context, Executor};

fn runtime() -> tokio::runtime::Runtime {
    tokio::runtime::Builder::new_multi_thread()
        .worker_threads(2)
        .enable_time()
        .build()
        .unwrap()
}

#[test]
fn shutdown_waits_for_every_guarded_task() {
    let rt = runtime();
    rt.block_on(async {
        let shutdown = tokio_graceful::Shutdown::no_signal();
        let counter = Arc::new(AtomicU32::new(0));
        {
            let exec = Executor::with_guard(shutdown.guard());
            assert!(exec.guard().is_some());
            let mut i: u32 = 0;
            while i < 8 {
                let c = counter.clone();
                exec.spawn_task(async move {
                    tokio::time::sleep(Duration::from_millis(50)).await;
                    c.fetch_add(1, Ordering::SeqCst);
                });
                i += 1;
            }
        }
        shutdown.shutdown().await;
        assert_eq!(counter.load(Ordering::SeqCst), 8);
    });
}

#[test]
fn default_spawn_succeeds_and_is_untracked() {
    let rt = runtime();
    rt.block_on(async {
        let exec = Executor::default();
        assert!(exec.guard().is_none());
        let handle = exec.spawn_task(async { 6u32 * 7 });
        assert_eq!(handle.await.unwrap(), 42u32);

        let flag = Arc::new(AtomicBool::new(false));
        let f = flag.clone();
        let slow = exec.spawn_task(async move {
            tokio::time::sleep(Duration::from_millis(1500)).await;
            f.store(true, Ordering::SeqCst);
        });
        let unrelated = tokio_graceful::Shutdown::no_signal();
        unrelated.shutdown().await;
        assert!(!flag.load(Ordering::SeqCst));
        slow.await.unwrap();
        assert!(flag.load(Ordering::SeqCst));
    });
}

#[test]
fn scenario_flag_is_set_once_shutdown_returns() {
    let rt = runtime();
    rt.block_on(async {
        let shutdown = tokio_graceful::Shutdown::no_signal();
        let flag = Arc::new(AtomicBool::new(false));
        {
            let ctx = Context::new(7u32, Executor::with_guard(shutdown.guard()));
            assert!(ctx.guard().is_some());
            let f = flag.clone();
            ctx.spawn(async move {
                tokio::time::sleep(Duration::from_millis(100)).await;
                f.store(true, Ordering::SeqCst);
            });
        }
        shutdown.shutdown().await;
        assert!(flag.load(Ordering::SeqCst));
    });
}

#[test]
fn spawn_through_context_clone_behaves_like_original() {
    let rt = runtime();
    rt.block_on(async {
        let shutdown = tokio_graceful::Shutdown::no_signal();
        let counter = Arc::new(AtomicU32::new(0));
        {
            let ctx = Context::new((), Executor::with_guard(shutdown.guard()));
            let clone = ctx.clone();
            assert!(clone.guard().is_some());
            let c1 = counter.clone();
            ctx.spawn(async move {
                c1.fetch_add(1, Ordering::SeqCst);
            });
            let c2 = counter.clone();
            clone.spawn(async move {
                tokio::time::sleep(Duration::from_millis(30)).await;
                c2.fetch_add(1, Ordering::SeqCst);
            });
        }
        shutdown.shutdown().await;
        assert_eq!(counter.load(Ordering::SeqCst), 2);
    });
}
