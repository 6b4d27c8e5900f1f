use hammadpy::dispatch::aggregate;
use hammadpy::dispatch::multiplier_on;
use hammadpy::dispatch::run_on;
use hammadpy::dispatch::DispatchError;
use hammadpy::dispatch::Dispatcher;
use hammadpy::dispatch::TaskDescriptor;
use std::sync::atomic::AtomicUsize;
use std::sync::atomic::Ordering;

#[test]
fn run_adds_one_with_four_workers() {
    let d = Dispatcher::new(Some(4));
    let r = d.run(|args: &(i64,), _kw: &Option<()>| Ok::<i64, String>(args.0 + 1), (41,), None);
    assert_eq!(r, Ok(42));
}

#[test]
fn run_returns_value_unchanged() {
    let d = Dispatcher::new(Some(2));
    let r = d.run(
        |args: &Vec<String>, _kw: &Option<()>| Ok::<String, String>(args[0].clone()),
        vec!["payload".to_string()],
        None,
    );
    assert_eq!(r, Ok("payload".to_string()));
}

#[test]
fn run_passes_keyword_arguments() {
    let d = Dispatcher::new(None);
    let r = d.run(
        |args: &(i32,), kw: &Option<Vec<(String, i32)>>| {
            let extra = kw.as_ref().map(|v| v.iter().map(|p| p.1).sum::<i32>()).unwrap_or(0);
            Ok::<i32, ()>(args.0 + extra)
        },
        (1,),
        Some(vec![("a".to_string(), 10), ("b".to_string(), 100)]),
    );
    assert_eq!(r, Ok(111));
}

#[test]
fn run_keeps_error_identity() {
    let d = Dispatcher::new(Some(1));
    let r = d.run(|_a: &(), _kw: &Option<()>| Err::<i32, String>("boom".to_string()), (), None);
    assert_eq!(r, Err(DispatchError::Invocation("boom".to_string())));
}

#[test]
fn multiplier_without_arguments_returns_three_equal_results() {
    let d = Dispatcher::new(None);
    let r = d.multiplier(|_a: &(), _kw: &Option<()>| Ok::<u32, ()>(7), 3, (), None);
    assert_eq!(r, Ok(vec![7, 7, 7]));
}

#[test]
fn multiplier_zero_count_invokes_nothing() {
    let calls = AtomicUsize::new(0);
    let d = Dispatcher::new(Some(2));
    let r = d.multiplier(
        |_a: &(), _kw: &Option<()>| {
            calls.fetch_add(1, Ordering::SeqCst);
            Ok::<u32, ()>(1)
        },
        0,
        (),
        None,
    );
    assert_eq!(r, Ok(vec![]));
    assert_eq!(calls.load(Ordering::SeqCst), 0);
}

#[test]
fn multiplier_invokes_once_per_index() {
    let calls = AtomicUsize::new(0);
    let d = Dispatcher::new(Some(3));
    let r = d.multiplier(
        |args: &(u64,), _kw: &Option<()>| {
            calls.fetch_add(1, Ordering::SeqCst);
            Ok::<u64, ()>(args.0 * 2)
        },
        10,
        (21,),
        None,
    );
    assert_eq!(r, Ok(vec![42; 10]));
    assert_eq!(calls.load(Ordering::SeqCst), 10);
}

#[test]
fn multiplier_surfaces_an_error() {
    let d = Dispatcher::new(Some(4));
    let r = d.multiplier(
        |_a: &(), _kw: &Option<()>| Err::<u8, String>("bad".to_string()),
        5,
        (),
        None,
    );
    assert_eq!(r, Err(DispatchError::Invocation("bad".to_string())));
}

#[test]
fn aggregate_keeps_submission_order() {
    let outcomes: Vec<Result<i32, &str>> = vec![Ok(3), Ok(1), Ok(2)];
    assert_eq!(aggregate(outcomes), Ok(vec![3, 1, 2]));
}

#[test]
fn aggregate_returns_lowest_index_error() {
    let outcomes: Vec<Result<i32, &str>> = vec![Ok(0), Ok(1), Err("e2"), Ok(3), Ok(4), Err("e5")];
    assert_eq!(aggregate(outcomes), Err("e2"));
}

#[test]
fn aggregate_of_nothing_is_empty() {
    let outcomes: Vec<Result<i32, &str>> = vec![];
    assert_eq!(aggregate(outcomes), Ok(vec![]));
}

#[test]
fn worker_count_follows_configuration() {
    assert_eq!(Dispatcher::new(Some(3)).worker_count(), 3);
    assert_eq!(Dispatcher::new(Some(3)).max_workers(), Some(3));
    assert!(Dispatcher::new(None).worker_count() >= 1);
    assert_eq!(Dispatcher::new(None).max_workers(), None);
}

#[test]
fn descriptor_invokes_with_bundled_arguments() {
    let t = TaskDescriptor::wrap(
        |args: &(i32, i32), kw: &Option<i32>| Ok::<i32, ()>(args.0 * args.1 + kw.unwrap_or(0)),
        (6, 7),
        Some(1),
    );
    assert_eq!(t.invoke(), Ok(43));
    assert_eq!(t.invoke(), Ok(43));
}

fn built_pool(n: usize) -> Result<rayon::ThreadPool, rayon::ThreadPoolBuildError> {
    rayon::ThreadPoolBuilder::new().num_threads(n).build()
}

fn failed_pool() -> Result<rayon::ThreadPool, rayon::ThreadPoolBuildError> {
    let _ = rayon::ThreadPoolBuilder::new().build_global();
    let err = rayon::ThreadPoolBuilder::new().build_global().unwrap_err();
    Err(err)
}

#[test]
fn run_on_built_pool_returns_callable_outcome() {
    let ok = TaskDescriptor::wrap(|a: &(i64,), _kw: &Option<()>| Ok::<i64, String>(a.0 + 1), (41,), None);
    assert_eq!(run_on(built_pool(4), &ok), Ok(42));
    let bad = TaskDescriptor::wrap(|_a: &(), _kw: &Option<()>| Err::<i64, String>("E".to_string()), (), None);
    assert_eq!(run_on(built_pool(1), &bad), Err(DispatchError::Invocation("E".to_string())));
}

#[test]
fn run_on_failed_pool_gives_pool_build_without_calling() {
    let calls = AtomicUsize::new(0);
    let task = TaskDescriptor::wrap(
        |_a: &(), _kw: &Option<()>| {
            calls.fetch_add(1, Ordering::SeqCst);
            Ok::<u8, ()>(1)
        },
        (),
        None,
    );
    assert_eq!(run_on(failed_pool(), &task), Err(DispatchError::PoolBuild));
    assert_eq!(multiplier_on(failed_pool(), &task, 3), Err(DispatchError::PoolBuild));
    assert_eq!(multiplier_on(failed_pool(), &task, 0), Ok(vec![]));
    assert_eq!(calls.load(Ordering::SeqCst), 0);
}

#[test]
fn multiplier_on_built_pool_aggregates_by_index() {
    let task = TaskDescriptor::wrap(|_a: &(), _kw: &Option<()>| Ok::<u32, ()>(5), (), None);
    assert_eq!(multiplier_on(built_pool(2), &task, 3), Ok(vec![5, 5, 5]));
    let failing = TaskDescriptor::wrap(|_a: &(), _kw: &Option<()>| Err::<u32, &str>("no"), (), None);
    assert_eq!(multiplier_on(built_pool(2), &failing, 4), Err(DispatchError::Invocation("no")));
}

#[test]
fn fan_out_of_one_equals_a_run() {
    let task = TaskDescriptor::wrap(|a: &(i32,), _kw: &Option<()>| Ok::<i32, ()>(a.0 * 3), (7,), None);
    let single = run_on(built_pool(2), &task);
    let fan = multiplier_on(built_pool(2), &task, 1);
    assert_eq!(fan, single.map(|v| vec![v]));
}
