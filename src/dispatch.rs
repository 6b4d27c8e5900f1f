//! Runs one callable with fixed arguments, once or many times, on a worker pool
//! built for each call.

use rayon::iter::IntoParallelIterator;
use rayon::iter::ParallelIterator;
use std::sync::Arc;
use vstd::prelude::*;

verus! {

/// Relies on num_cpus::get: the number of logical CPUs, documented to be at least 1.
#[verifier::external_body]
fn detected_parallelism() -> (n: usize)
    ensures
        n >= 1,
{
    num_cpus::get()
}

#[verifier::external_type_specification]
#[verifier::external_body]
pub struct ExThreadPool(rayon::ThreadPool);

#[verifier::external_type_specification]
#[verifier::external_body]
pub struct ExThreadPoolBuildError(rayon::ThreadPoolBuildError);

/// Relies on rayon::ThreadPoolBuilder::build with `num_threads(workers)`: a new pool,
/// or the error of spawning its threads.
#[verifier::external_body]
fn build_pool(workers: usize) -> (r: Result<rayon::ThreadPool, rayon::ThreadPoolBuildError>) {
    rayon::ThreadPoolBuilder::new().num_threads(workers).build()
}

/// Relies on rayon::ThreadPool::install: runs `op` once, inside the pool, and
/// hands back what it returned.
#[verifier::external_body]
fn install<OP, R>(pool: &rayon::ThreadPool, op: OP) -> (r: R) where
    OP: FnOnce() -> R + Send,
    R: Send,

    requires
        op.requires(()),
    ensures
        op.ensures((), r),
{
    pool.install(op)
}

/// Relies on rayon's indexed parallel iterator over `0..count`: `map` runs the
/// invocation once per index and `collect` into a `Vec` keeps index order.
#[verifier::external_body]
fn invoke_in_parallel<F, A, K, V, E>(task: &TaskDescriptor<F, A, K>, count: usize) -> (r: Vec<
    Result<V, E>,
>) where
    F: Fn(&A, &Option<K>) -> Result<V, E> + Send + Sync,
    A: Send + Sync,
    K: Send + Sync,
    V: Send,
    E: Send,

    requires
        task.ready(),
    ensures
        r@.len() == count,
        forall|i: int| 0 <= i < count ==> task.yields(#[trigger] r@[i]),
{
    (0..count).into_par_iter().map(|_| task.invoke()).collect()
}

/// A callable with its positional and keyword arguments, each held once behind a
/// shared, read-only reference that every worker borrows.
pub struct TaskDescriptor<F, A, K> {
    callable: Arc<F>,
    args: Arc<A>,
    kwargs: Arc<Option<K>>,
}

impl<F, A, K, V, E> TaskDescriptor<F, A, K> where F: Fn(&A, &Option<K>) -> Result<V, E> {
    pub closed spec fn spec_callable(&self) -> F {
        *self.callable
    }

    pub closed spec fn spec_args(&self) -> A {
        *self.args
    }

    pub closed spec fn spec_kwargs(&self) -> Option<K> {
        *self.kwargs
    }

    /// The callable accepts the bundled arguments.
    pub open spec fn ready(&self) -> bool {
        self.spec_callable().requires((&self.spec_args(), &self.spec_kwargs()))
    }

    /// `r` is a possible outcome of one invocation with the bundled arguments.
    pub open spec fn yields(&self, r: Result<V, E>) -> bool {
        self.spec_callable().ensures((&self.spec_args(), &self.spec_kwargs()), r)
    }

    /// Bundles a callable with its arguments; nothing about them is checked here.
    pub fn wrap(callable: F, args: A, kwargs: Option<K>) -> (t: Self)
        ensures
            t.spec_callable() == callable,
            t.spec_args() == args,
            t.spec_kwargs() == kwargs,
    {
        TaskDescriptor { callable: Arc::new(callable), args: Arc::new(args), kwargs: Arc::new(kwargs) }
    }

    /// Calls the callable once with the bundled arguments.
    pub fn invoke(&self) -> (r: Result<V, E>)
        requires
            self.ready(),
        ensures
            self.yields(r),
    {
        let f: &F = &self.callable;
        f(&self.args, &self.kwargs)
    }
}

/// Why a dispatched call failed.
#[derive(Debug, PartialEq, Eq)]
pub enum DispatchError<E> {
    /// The worker threads could not be created.
    PoolBuild,
    /// The callable returned this error.
    Invocation(E),
}

/// Dispatches task executions to a freshly built pool of worker threads.
pub struct Dispatcher {
    max_workers: Option<usize>,
}

impl Dispatcher {
    /// The configured worker limit, if any.
    pub closed spec fn spec_max_workers(&self) -> Option<usize> {
        self.max_workers
    }

    /// A configured worker limit is positive.
    pub open spec fn wf(&self) -> bool {
        self.spec_max_workers() matches Some(n) ==> n >= 1
    }

    /// A dispatcher that uses `max_workers` threads, or as many as the machine
    /// has logical CPUs when it is absent.
    pub fn new(max_workers: Option<usize>) -> (d: Dispatcher)
        requires
            max_workers matches Some(n) ==> n >= 1,
        ensures
            d.spec_max_workers() == max_workers,
            d.wf(),
    {
        Dispatcher { max_workers }
    }

    /// The configured worker limit, if any.
    pub fn max_workers(&self) -> (r: Option<usize>)
        ensures
            r == self.spec_max_workers(),
    {
        self.max_workers
    }

    /// The number of workers a pool built now gets: the configured limit, or the
    /// detected parallelism of the machine.
    pub fn worker_count(&self) -> (n: usize)
        requires
            self.wf(),
        ensures
            n >= 1,
            self.spec_max_workers() matches Some(m) ==> n == m,
    {
        match self.max_workers {
            Some(m) => m,
            None => detected_parallelism(),
        }
    }

    /// Runs `callable(&args, &kwargs)` once on a new pool and returns its outcome.
    pub fn run<F, A, K, V, E>(&self, callable: F, args: A, kwargs: Option<K>) -> (r: Result<
        V,
        DispatchError<E>,
    >) where
        F: Fn(&A, &Option<K>) -> Result<V, E> + Send + Sync,
        A: Send + Sync,
        K: Send + Sync,
        V: Send,
        E: Send,

        requires
            self.wf(),
            callable.requires((&args, &kwargs)),
        ensures
            match r {
                Ok(v) => callable.ensures((&args, &kwargs), Ok::<V, E>(v)),
                Err(DispatchError::Invocation(e)) => callable.ensures(
                    (&args, &kwargs),
                    Err::<V, E>(e),
                ),
                Err(DispatchError::PoolBuild) => true,
            },
    {
        let task = TaskDescriptor::wrap(callable, args, kwargs);
        run_on(build_pool(self.worker_count()), &task)
    }

    /// Runs `callable(&args, &kwargs)` `count` times in parallel on a new pool.
    /// The outcomes are taken in submission order: every value, index 0 first,
    /// or the error of the lowest failing index. `count == 0` returns at once.
    pub fn multiplier<F, A, K, V, E>(
        &self,
        callable: F,
        count: usize,
        args: A,
        kwargs: Option<K>,
    ) -> (r: Result<Vec<V>, DispatchError<E>>) where
        F: Fn(&A, &Option<K>) -> Result<V, E> + Send + Sync,
        A: Send + Sync,
        K: Send + Sync,
        V: Send,
        E: Send,

        requires
            self.wf(),
            callable.requires((&args, &kwargs)),
        ensures
            count == 0 ==> r is Ok && r->Ok_0@.len() == 0,
            match r {
                Ok(vs) => vs@.len() == count && forall|i: int|
                    0 <= i < count ==> callable.ensures((&args, &kwargs), Ok::<V, E>(#[trigger] vs@[i])),
                Err(DispatchError::Invocation(e)) => count > 0 && callable.ensures(
                    (&args, &kwargs),
                    Err::<V, E>(e),
                ),
                Err(DispatchError::PoolBuild) => count > 0,
            },
            // The aggregate is that of some possible outcome at each index.
            r matches Err(DispatchError::Invocation(e)) ==> exists|s: Seq<Result<V, E>>|
                s.len() == count && (forall|i: int| 0 <= i < count ==> callable.ensures((&args, &kwargs), #[trigger] s[i]))
                && gathered(s) == Err::<Seq<V>, E>(e),
    {
        if count == 0 {
            return Ok(Vec::new());
        }
        let task = TaskDescriptor::wrap(callable, args, kwargs);
        let r = multiplier_on(build_pool(self.worker_count()), &task, count);
        proof {
            if r is Ok {
                let vs = r->Ok_0;
                let s = choose|s: Seq<Result<V, E>>| possible_outcomes(task, count as nat, s) && lift(gathered(s)) == fan_view(r);
                lemma_all_succeeded_in_order(s);
                assert forall|i: int| 0 <= i < count implies callable.ensures((&args, &kwargs), Ok::<V, E>(#[trigger] vs@[i])) by {
                    assert(task.yields(s[i]));
                    assert(s[i] == Ok::<V, E>(gathered(s)->Ok_0[i]));
                }
            }
            if r matches Err(DispatchError::Invocation(_)) {
                let s = choose|s: Seq<Result<V, E>>| possible_outcomes(task, count as nat, s) && lift(gathered(s)) == fan_view(r);
                let j = choose|j: int| 0 <= j < s.len() && !(s[j] is Ok);
                lemma_first_failure_unique(s, j);
                let i = choose|i: int| is_first_failure(s, i);
                assert(task.yields(s[i]));
                assert(forall|k: int| 0 <= k < count ==> task.yields(#[trigger] s[k]));
            }
        }
        r
    }
}


/// Every outcome in `s` is a success.
pub open spec fn all_succeeded<V, E>(s: Seq<Result<V, E>>) -> bool {
    forall|i: int| 0 <= i < s.len() ==> (#[trigger] s[i]) is Ok
}

/// Index `i` holds the failure with the lowest index in `s`.
pub open spec fn is_first_failure<V, E>(s: Seq<Result<V, E>>, i: int) -> bool {
    &&& 0 <= i < s.len()
    &&& s[i] is Err
    &&& forall|j: int| 0 <= j < i ==> (#[trigger] s[j]) is Ok
}

/// The success values of `s`, in order.
pub open spec fn success_values<V, E>(s: Seq<Result<V, E>>) -> Seq<V> {
    s.map_values(|x: Result<V, E>| x->Ok_0)
}

/// What a sequence of outcomes, in submission order, aggregates to: every value
/// in order when all succeeded, else the error with the lowest index.
pub open spec fn gathered<V, E>(s: Seq<Result<V, E>>) -> Result<Seq<V>, E> {
    if all_succeeded(s) {
        Ok(success_values(s))
    } else {
        Err(s[choose|i: int| is_first_failure(s, i)]->Err_0)
    }
}

/// A sequence with some failure has exactly one first failure.
pub proof fn lemma_first_failure_unique<V, E>(s: Seq<Result<V, E>>, i: int)
    requires
        0 <= i < s.len(),
        s[i] is Err,
    ensures
        exists|k: int| is_first_failure(s, k),
        forall|a: int, b: int| is_first_failure(s, a) && is_first_failure(s, b) ==> a == b,
    decreases i,
{
    if exists|j: int| 0 <= j < i && s[j] is Err {
        let j = choose|j: int| 0 <= j < i && s[j] is Err;
        lemma_first_failure_unique(s, j);
    } else {
        assert(is_first_failure(s, i));
    }
    assert forall|a: int, b: int| is_first_failure(s, a) && is_first_failure(s, b) implies a == b by {
        if a < b {
            assert(s[a] is Ok);
        } else if b < a {
            assert(s[b] is Ok);
        }
    }
}

/// When the failure at index `i` has no failure before it, the aggregate is that
/// failure, whatever fails after it.
pub proof fn lemma_lowest_failure_wins<V, E>(s: Seq<Result<V, E>>, i: int)
    requires
        is_first_failure(s, i),
    ensures
        gathered(s) == Err::<Seq<V>, E>(s[i]->Err_0),
{
    lemma_first_failure_unique(s, i);
}

/// When every outcome succeeded, the aggregate holds each value at its own index.
pub proof fn lemma_all_succeeded_in_order<V, E>(s: Seq<Result<V, E>>)
    requires
        all_succeeded(s),
    ensures
        gathered(s) is Ok,
        gathered(s)->Ok_0.len() == s.len(),
        forall|i: int| 0 <= i < s.len() ==> s[i] == Ok::<V, E>(#[trigger] gathered(s)->Ok_0[i]),
{
    assert forall|i: int| 0 <= i < s.len() implies s[i] == Ok::<V, E>(#[trigger] gathered(s)->Ok_0[i]) by {
        assert(s[i] is Ok);
    }
}

/// Aggregates outcomes listed in submission order: all values in order when every
/// one succeeded, else the error with the lowest index.
pub fn aggregate<V, E>(results: Vec<Result<V, E>>) -> (r: Result<Vec<V>, E>)
    ensures
        match r {
            Ok(vs) => gathered(results@) == Ok::<Seq<V>, E>(vs@),
            Err(e) => gathered(results@) == Err::<Seq<V>, E>(e),
        },
{
    let ghost s = results@;
    let mut rest = results;
    // Values popped so far, last index first.
    let mut reversed: Vec<V> = Vec::new();
    let mut failure: Option<E> = None;
    while rest.len() > 0
        invariant
            rest@ == s.take(rest.len() as int),
            rest.len() <= s.len(),
            failure is None ==> reversed.len() == s.len() - rest.len(),
            failure is None ==> forall|k: int|
                0 <= k < reversed.len() ==> s[s.len() - 1 - k] == Ok::<V, E>(#[trigger] reversed@[k]),
            failure is Some ==> exists|i: int|
                rest.len() <= i < s.len() && s[i] == Err::<V, E>(failure->Some_0) && forall|j: int|
                    rest.len() <= j < i ==> (#[trigger] s[j]) is Ok,
        decreases rest.len(),
    {
        let ghost n = rest.len();
        let item = rest.pop().unwrap();
        assert(item == s[n - 1]);
        assert(rest@ == s.take(n - 1));
        match item {
            Ok(v) => {
                if failure.is_none() {
                    reversed.push(v);
                } else {
                    proof {
                        let i = choose|i: int|
                            n <= i < s.len() && s[i] == Err::<V, E>(failure->Some_0) && forall|j: int|
                                n <= j < i ==> (#[trigger] s[j]) is Ok;
                        assert(forall|j: int| n - 1 <= j < i ==> (#[trigger] s[j]) is Ok);
                    }
                }
            },
            Err(e) => {
                failure = Some(e);
                assert(s[n - 1] == Err::<V, E>(failure->Some_0));
            },
        }
    }
    match failure {
        Some(e) => {
            proof {
                let i = choose|i: int|
                    0 <= i < s.len() && s[i] == Err::<V, E>(e) && forall|j: int|
                        0 <= j < i ==> (#[trigger] s[j]) is Ok;
                assert(is_first_failure(s, i));
                lemma_lowest_failure_wins(s, i);
            }
            Err(e)
        },
        None => {
            let mut values: Vec<V> = Vec::new();
            while reversed.len() > 0
                invariant
                    reversed.len() + values.len() == s.len(),
                    forall|k: int|
                        0 <= k < reversed.len() ==> s[s.len() - 1 - k] == Ok::<V, E>(#[trigger] reversed@[k]),
                    forall|k: int| 0 <= k < values.len() ==> s[k] == Ok::<V, E>(#[trigger] values@[k]),
                decreases reversed.len(),
            {
                let ghost m = reversed.len();
                let v = reversed.pop().unwrap();
                assert(s[s.len() - 1 - (m - 1)] == Ok::<V, E>(v));
                values.push(v);
            }
            proof {
                assert forall|i: int| 0 <= i < s.len() implies (#[trigger] s[i]) is Ok by {
                    assert(s[i] == Ok::<V, E>(values@[i]));
                }
                lemma_all_succeeded_in_order(s);
                assert(gathered(s)->Ok_0 =~= values@);
            }
            Ok(values)
        },
    }
}

/// The dispatch result of one invocation's outcome.
pub open spec fn as_dispatch<V, E>(o: Result<V, E>) -> Result<V, DispatchError<E>> {
    match o {
        Ok(v) => Ok(v),
        Err(e) => Err(DispatchError::Invocation(e)),
    }
}

/// The dispatch result of an aggregate of outcomes.
pub open spec fn lift<V, E>(g: Result<Seq<V>, E>) -> Result<Seq<V>, DispatchError<E>> {
    match g {
        Ok(vs) => Ok(vs),
        Err(e) => Err(DispatchError::Invocation(e)),
    }
}

/// A fan-out result with its values as a sequence.
pub open spec fn fan_view<V, E>(r: Result<Vec<V>, DispatchError<E>>) -> Result<
    Seq<V>,
    DispatchError<E>,
> {
    match r {
        Ok(vs) => Ok(vs@),
        Err(e) => Err(e),
    }
}

/// `s` is a possible list of `count` invocation outcomes of `task`, by index.
pub open spec fn possible_outcomes<F, A, K, V, E>(
    task: TaskDescriptor<F, A, K>,
    count: nat,
    s: Seq<Result<V, E>>,
) -> bool where F: Fn(&A, &Option<K>) -> Result<V, E> {
    s.len() == count && forall|i: int| 0 <= i < count ==> task.yields(#[trigger] s[i])
}

/// What running `task` once gives: the pool-build error when no pool was built,
/// else an outcome of one invocation, unchanged.
pub open spec fn run_result<F, A, K, V, E>(
    task: TaskDescriptor<F, A, K>,
    built: bool,
    r: Result<V, DispatchError<E>>,
) -> bool where F: Fn(&A, &Option<K>) -> Result<V, E> {
    if built {
        exists|o: Result<V, E>| task.yields(o) && r == #[trigger] as_dispatch(o)
    } else {
        r == Err::<V, DispatchError<E>>(DispatchError::PoolBuild)
    }
}

/// What running `task` `count` times gives: nothing to do for `count == 0`, the
/// pool-build error when no pool was built, else the aggregate of some possible
/// outcome at each index.
pub open spec fn fan_out_result<F, A, K, V, E>(
    task: TaskDescriptor<F, A, K>,
    count: nat,
    built: bool,
    r: Result<Seq<V>, DispatchError<E>>,
) -> bool where F: Fn(&A, &Option<K>) -> Result<V, E> {
    if count == 0 {
        r == Ok::<Seq<V>, DispatchError<E>>(Seq::empty())
    } else if !built {
        r == Err::<Seq<V>, DispatchError<E>>(DispatchError::PoolBuild)
    } else {
        exists|s: Seq<Result<V, E>>| possible_outcomes(task, count, s) && r == #[trigger] lift(
            gathered(s),
        )
    }
}

/// Runs `task` once inside `pool`, when it was built.
pub fn run_on<F, A, K, V, E>(
    pool: Result<rayon::ThreadPool, rayon::ThreadPoolBuildError>,
    task: &TaskDescriptor<F, A, K>,
) -> (r: Result<V, DispatchError<E>>) where
    F: Fn(&A, &Option<K>) -> Result<V, E> + Send + Sync,
    A: Send + Sync,
    K: Send + Sync,
    V: Send,
    E: Send,

    requires
        task.ready(),
    ensures
        run_result(*task, pool is Ok, r),
        pool is Err <==> r matches Err(DispatchError::PoolBuild),
{
    let pool = match pool {
        Ok(pool) => pool,
        Err(_) => return Err(DispatchError::PoolBuild),
    };
    let job = || -> (r: Result<V, E>)
        requires
            task.ready(),
        ensures
            task.yields(r),
        { task.invoke() };
    let outcome = install(&pool, job);
    let ghost o = outcome;
    let r = match outcome {
        Ok(v) => Ok(v),
        Err(e) => Err(DispatchError::Invocation(e)),
    };
    assert(r == as_dispatch(o));
    r
}

/// Runs `task` `count` times in parallel inside `pool`, when it was built, and
/// aggregates the outcomes by index.
pub fn multiplier_on<F, A, K, V, E>(
    pool: Result<rayon::ThreadPool, rayon::ThreadPoolBuildError>,
    task: &TaskDescriptor<F, A, K>,
    count: usize,
) -> (r: Result<Vec<V>, DispatchError<E>>) where
    F: Fn(&A, &Option<K>) -> Result<V, E> + Send + Sync,
    A: Send + Sync,
    K: Send + Sync,
    V: Send,
    E: Send,

    requires
        task.ready(),
    ensures
        fan_out_result(*task, count as nat, pool is Ok, fan_view(r)),
        (pool is Err && count > 0) <==> r matches Err(DispatchError::PoolBuild),
{
    if count == 0 {
        let r: Result<Vec<V>, DispatchError<E>> = Ok(Vec::new());
        assert(fan_view(r) == Ok::<Seq<V>, DispatchError<E>>(Seq::empty()));
        return r;
    }
    let pool = match pool {
        Ok(pool) => pool,
        Err(_) => return Err(DispatchError::PoolBuild),
    };
    let job = || -> (r: Vec<Result<V, E>>)
        requires
            task.ready(),
        ensures
            r@.len() == count,
            forall|i: int| 0 <= i < count ==> task.yields(#[trigger] r@[i]),
        { invoke_in_parallel(task, count) };
    let outcomes = install(&pool, job);
    let ghost s = outcomes@;
    let r = match aggregate(outcomes) {
        Ok(vs) => Ok(vs),
        Err(e) => Err(DispatchError::Invocation(e)),
    };
    assert(possible_outcomes(*task, count as nat, s));
    assert(fan_view(r) == lift(gathered(s)));
    r
}

/// A callable that can only return `out` gives exactly `out` through a run on a
/// built pool.
pub proof fn lemma_pure_run<F, A, K, V, E>(
    task: TaskDescriptor<F, A, K>,
    out: Result<V, E>,
    r: Result<V, DispatchError<E>>,
) where F: Fn(&A, &Option<K>) -> Result<V, E>
    requires
        forall|o: Result<V, E>| task.yields(o) ==> o == out,
        run_result(task, true, r),
    ensures
        r == as_dispatch(out),
{
}

/// A callable that can only return `Ok(v)` gives `v` at every index of a fan-out
/// on a built pool.
pub proof fn lemma_pure_fan_out<F, A, K, V, E>(
    task: TaskDescriptor<F, A, K>,
    v: V,
    count: nat,
    r: Result<Seq<V>, DispatchError<E>>,
) where F: Fn(&A, &Option<K>) -> Result<V, E>
    requires
        forall|o: Result<V, E>| task.yields(o) ==> o == Ok::<V, E>(v),
        fan_out_result(task, count, true, r),
    ensures
        r == Ok::<Seq<V>, DispatchError<E>>(Seq::new(count, |i: int| v)),
{
    if count == 0 {
        assert(Seq::new(count, |i: int| v) =~= Seq::<V>::empty());
    } else {
        let s = choose|s: Seq<Result<V, E>>| possible_outcomes(task, count, s) && r == #[trigger] lift(
            gathered(s),
        );
        assert(forall|i: int| 0 <= i < s.len() ==> #[trigger] s[i] == Ok::<V, E>(v));
        assert(all_succeeded(s));
        assert(success_values(s) =~= Seq::new(count, |i: int| v));
    }
}

/// For a callable that can only return `out`, a fan-out of one on a built pool
/// gives what a single run gives, as a one-element sequence.
pub proof fn lemma_single_fan_out_is_run<F, A, K, V, E>(
    task: TaskDescriptor<F, A, K>,
    out: Result<V, E>,
    run: Result<V, DispatchError<E>>,
    fan: Result<Seq<V>, DispatchError<E>>,
) where F: Fn(&A, &Option<K>) -> Result<V, E>
    requires
        forall|o: Result<V, E>| task.yields(o) ==> o == out,
        run_result(task, true, run),
        fan_out_result(task, 1, true, fan),
    ensures
        fan == match run {
            Ok(v) => Ok(seq![v]),
            Err(e) => Err::<Seq<V>, DispatchError<E>>(e),
        },
{
    let s = choose|s: Seq<Result<V, E>>| possible_outcomes(task, 1, s) && fan == #[trigger] lift(
        gathered(s),
    );
    assert(s[0] == out);
    match out {
        Ok(v) => {
            assert(all_succeeded(s));
            assert(success_values(s) =~= seq![v]);
        },
        Err(e) => {
            assert(is_first_failure(s, 0));
            lemma_lowest_failure_wins(s, 0);
        },
    }
}

} // verus!
