//! The workload model and the four stages that act on it: synthesis,
//! resampling against written keys, measured execution, and reporting.
use crate::stats::{
    ascending, lemma_ascending_total, lemma_sum_nonnegative, lemma_value_at_most_sum, quartile,
    sort_ascending, sorted_values, statistic_x4, sum_of,
};
use crate::random::{choose_key, random_bytes};
use crate::timer::{elapsed_nanos, start_timer};
use crate::{Batch, Error, KeyValueStore};
use vstd::prelude::*;

verus! {

/// A declarative template for the tasks of a workload.
#[derive(Debug, Clone, PartialEq, Eq)]
pub enum TaskGenerator {
    /// A lookup of a key of the given size.
    Get(usize),
    /// An existence check of a key of the given size.
    Exists(usize),
    /// An atomic batch whose operations follow the given templates in order.
    Batch(Vec<BatchOperationGenerator>),
}

/// A template for one operation of a batch.
#[derive(Debug, Clone, PartialEq, Eq)]
pub enum BatchOperationGenerator {
    /// An insert with a key and a value of the given sizes.
    Put(usize, usize),
    /// A delete of a key of the given size.
    Delete(usize),
}

/// An ordered sequence of tasks: the unit of replay.
#[derive(Debug, Clone, PartialEq, Eq)]
pub struct Workload(pub Vec<Task>);

/// One concrete benchmark operation.
#[derive(Debug, Clone, PartialEq, Eq)]
pub enum Task {
    Get(Vec<u8>),
    Exists(Vec<u8>),
    Batch(Vec<BatchOperation>),
}

/// One operation of a batch. A `Put` holds the size of its value: the value
/// itself is drawn when the batch is executed.
#[derive(Debug, Clone, PartialEq, Eq)]
pub enum BatchOperation {
    Put(Vec<u8>, usize),
    Delete(Vec<u8>),
}

/// The measured latencies of a workload, index-aligned with its tasks.
#[derive(Debug, Clone, PartialEq, Eq)]
pub struct WorkloadResult(pub Vec<TaskResult>);

/// The kind of a task and the nanoseconds that its measured call took.
#[derive(Debug, Clone, PartialEq, Eq)]
pub struct TaskResult(pub TaskType, pub u128);

/// The kind of a task.
#[derive(Debug, Clone, Copy, PartialEq, Eq, Structural)]
pub enum TaskType {
    Get,
    Exists,
    Batch,
}

/// Whether `op` is an instance of the template `g`: same kind, a fresh key of
/// the template's size, and the template's value size.
pub open spec fn op_instance_of(op: BatchOperation, g: BatchOperationGenerator) -> bool {
    match (op, g) {
        (BatchOperation::Put(key, value_size), BatchOperationGenerator::Put(key_size, vs)) =>
            key@.len() == key_size && value_size == vs,
        (BatchOperation::Delete(key), BatchOperationGenerator::Delete(key_size)) =>
            key@.len() == key_size,
        _ => false,
    }
}

/// Whether `ops` follows the templates `gs` position by position.
pub open spec fn ops_instance_of(ops: Seq<BatchOperation>, gs: Seq<BatchOperationGenerator>) -> bool {
    &&& ops.len() == gs.len()
    &&& forall|j: int| 0 <= j < ops.len() ==> op_instance_of(#[trigger] ops[j], gs[j])
}

/// Whether `t` is an instance of the generator `g`.
pub open spec fn instance_of(t: Task, g: TaskGenerator) -> bool {
    match (t, g) {
        (Task::Get(key), TaskGenerator::Get(key_size)) => key@.len() == key_size,
        (Task::Exists(key), TaskGenerator::Exists(key_size)) => key@.len() == key_size,
        (Task::Batch(ops), TaskGenerator::Batch(gs)) => ops_instance_of(ops@, gs@),
        _ => false,
    }
}

fn synthesize_ops(gs: &Vec<BatchOperationGenerator>) -> (ops: Vec<BatchOperation>)
    ensures
        ops_instance_of(ops@, gs@),
{
    let mut ops: Vec<BatchOperation> = Vec::new();
    let mut j: usize = 0;
    while j < gs.len()
        invariant
            j <= gs@.len(),
            ops_instance_of(ops@, gs@.take(j as int)),
        decreases gs@.len() - j,
    {
        let op = match &gs[j] {
            BatchOperationGenerator::Put(key_size, value_size) =>
                BatchOperation::Put(random_bytes(*key_size), *value_size),
            BatchOperationGenerator::Delete(key_size) =>
                BatchOperation::Delete(random_bytes(*key_size)),
        };
        ops.push(op);
        j = j + 1;
    }
    assert(gs@.take(j as int) =~= gs@);
    ops
}

fn synthesize_task(g: &TaskGenerator) -> (t: Task)
    ensures
        instance_of(t, *g),
{
    match g {
        TaskGenerator::Get(key_size) => Task::Get(random_bytes(*key_size)),
        TaskGenerator::Exists(key_size) => Task::Exists(random_bytes(*key_size)),
        TaskGenerator::Batch(gs) => Task::Batch(synthesize_ops(gs)),
    }
}

/// Builds a workload of `nums_task` tasks, each instantiated independently
/// from `task_generator` with freshly drawn random keys.
pub fn generate_workload(task_generator: &TaskGenerator, nums_task: usize) -> (w: Workload)
    ensures
        w.0@.len() == nums_task,
        forall|i: int| 0 <= i < nums_task ==> instance_of(#[trigger] w.0@[i], *task_generator),
{
    let mut tasks: Vec<Task> = Vec::new();
    let mut i: usize = 0;
    while i < nums_task
        invariant
            i <= nums_task,
            tasks@.len() == i,
            forall|k: int| 0 <= k < i ==> instance_of(#[trigger] tasks@[k], *task_generator),
        decreases nums_task - i,
    {
        tasks.push(synthesize_task(task_generator));
        i = i + 1;
    }
    Workload(tasks)
}


/// The keys that the `Put` operations of `ops` write, in order.
pub open spec fn ops_put_keys(ops: Seq<BatchOperation>) -> Seq<Seq<u8>>
    decreases ops.len(),
{
    if ops.len() == 0 {
        Seq::empty()
    } else {
        ops_put_keys(ops.drop_last()) + match ops.last() {
            BatchOperation::Put(key, _) => seq![key@],
            BatchOperation::Delete(_) => Seq::empty(),
        }
    }
}

/// The keys that `t` writes: those of the `Put` operations of a batch.
pub open spec fn task_put_keys(t: Task) -> Seq<Seq<u8>> {
    match t {
        Task::Batch(ops) => ops_put_keys(ops@),
        _ => Seq::empty(),
    }
}

/// The key pool of a workload: every key written by a `Put` of one of its
/// batches, with repetitions, in workload order.
pub open spec fn put_keys(tasks: Seq<Task>) -> Seq<Seq<u8>>
    decreases tasks.len(),
{
    if tasks.len() == 0 {
        Seq::empty()
    } else {
        put_keys(tasks.drop_last()) + task_put_keys(tasks.last())
    }
}

/// Whether `op` is a `Put` of `key`.
pub open spec fn puts(op: BatchOperation, key: Seq<u8>) -> bool {
    match op {
        BatchOperation::Put(k, _) => k@ == key,
        BatchOperation::Delete(_) => false,
    }
}

/// Whether operation `j` of task `t` is a `Put` of `key`.
pub open spec fn writes_at(t: Task, j: int, key: Seq<u8>) -> bool {
    match t {
        Task::Batch(ops) => 0 <= j < ops@.len() && puts(ops@[j], key),
        _ => false,
    }
}

/// Whether `key` is written by some `Put` operation of some batch of `tasks`.
pub open spec fn is_put_key(tasks: Seq<Task>, key: Seq<u8>) -> bool {
    exists|i: int, j: int| 0 <= i < tasks.len() && #[trigger] writes_at(tasks[i], j, key)
}

/// Whether drawing tasks from `g` takes keys from the pool.
pub open spec fn needs_pool(g: TaskGenerator) -> bool {
    match g {
        TaskGenerator::Get(_) | TaskGenerator::Exists(_) => true,
        TaskGenerator::Batch(gs) => exists|j: int|
            0 <= j < gs@.len() && #[trigger] gs@[j] is Delete,
    }
}

/// Whether `op` follows the template `g` with its delete key drawn from `pool`.
pub open spec fn op_sampled_from(op: BatchOperation, g: BatchOperationGenerator, pool: Seq<Seq<u8>>) -> bool {
    match (op, g) {
        (BatchOperation::Put(key, value_size), BatchOperationGenerator::Put(key_size, vs)) =>
            key@.len() == key_size && value_size == vs,
        (BatchOperation::Delete(key), BatchOperationGenerator::Delete(_)) => pool.contains(key@),
        _ => false,
    }
}

/// Whether `ops` follows the templates `gs` position by position, deletes
/// drawing their keys from `pool`.
pub open spec fn ops_sampled_from(ops: Seq<BatchOperation>, gs: Seq<BatchOperationGenerator>, pool: Seq<Seq<u8>>) -> bool {
    &&& ops.len() == gs.len()
    &&& forall|j: int| 0 <= j < ops.len() ==> op_sampled_from(#[trigger] ops[j], gs[j], pool)
}

/// Whether `t` follows the generator `g`, its lookups and deletes drawing
/// their keys from `pool` (the declared key sizes of those are ignored).
pub open spec fn sampled_from(t: Task, g: TaskGenerator, pool: Seq<Seq<u8>>) -> bool {
    match (t, g) {
        (Task::Get(key), TaskGenerator::Get(_)) => pool.contains(key@),
        (Task::Exists(key), TaskGenerator::Exists(_)) => pool.contains(key@),
        (Task::Batch(ops), TaskGenerator::Batch(gs)) => ops_sampled_from(ops@, gs@, pool),
        _ => false,
    }
}

/// Why a workload could not be resampled.
#[derive(Debug, Clone, Copy, PartialEq, Eq, Structural)]
pub enum SampleError {
    /// The generator reads or deletes keys, and the reference workload writes none.
    EmptyKeyPool,
}

fn key_pool(workload: &Workload) -> (pool: Vec<Vec<u8>>)
    ensures
        pool@.map_values(|k: Vec<u8>| k@) == put_keys(workload.0@),
{
    let tasks = &workload.0;
    let mut pool: Vec<Vec<u8>> = Vec::new();
    let mut i: usize = 0;
    while i < tasks.len()
        invariant
            i <= tasks@.len(),
            pool@.map_values(|k: Vec<u8>| k@) == put_keys(tasks@.take(i as int)),
        decreases tasks@.len() - i,
    {
        assert(tasks@.take(i + 1).drop_last() =~= tasks@.take(i as int));
        match &tasks[i] {
            Task::Batch(ops) => {
                let ghost before = pool@.map_values(|k: Vec<u8>| k@);
                let mut j: usize = 0;
                while j < ops.len()
                    invariant
                        j <= ops@.len(),
                        pool@.map_values(|k: Vec<u8>| k@) == before + ops_put_keys(ops@.take(j as int)),
                    decreases ops@.len() - j,
                {
                    let ghost prev = pool@;
                    let ghost done = ops_put_keys(ops@.take(j as int));
                    assert(ops@.take(j + 1).drop_last() =~= ops@.take(j as int));
                    assert(ops@.take(j + 1).last() == ops@[j as int]);
                    match &ops[j] {
                        BatchOperation::Put(key, _) => {
                            let k = key.clone();
                            assert(k@ =~= key@);
                            pool.push(k);
                            proof {
                                prev.lemma_push_map_commute(|k: Vec<u8>| k@, k);
                                assert(ops_put_keys(ops@.take(j + 1)) == done + seq![key@]);
                            }
                        },
                        BatchOperation::Delete(_) => {
                            assert(ops_put_keys(ops@.take(j + 1)) =~= done);
                        },
                    }
                    assert(pool@.map_values(|k: Vec<u8>| k@) =~= before + ops_put_keys(ops@.take(j + 1)));
                    j = j + 1;
                }
                assert(ops@.take(j as int) =~= ops@);
            },
            _ => {},
        }
        assert(pool@.map_values(|k: Vec<u8>| k@) =~= put_keys(tasks@.take(i + 1)));
        i = i + 1;
    }
    assert(tasks@.take(i as int) =~= tasks@);
    pool
}

proof fn lemma_chosen_in_pool(pool: Seq<Vec<u8>>, key: Vec<u8>)
    requires
        exists|i: int| 0 <= i < pool.len() && (#[trigger] pool[i])@ == key@,
    ensures
        pool.map_values(|k: Vec<u8>| k@).contains(key@),
{
    let l = choose|l: int| 0 <= l < pool.len() && (#[trigger] pool[l])@ == key@;
    assert(pool.map_values(|k: Vec<u8>| k@)[l] == key@);
}

fn sample_ops(gs: &Vec<BatchOperationGenerator>, pool: &Vec<Vec<u8>>) -> (r: Option<Vec<BatchOperation>>)
    ensures
        r is None <==> pool@.len() == 0 && exists|j: int| 0 <= j < gs@.len() && #[trigger] gs@[j] is Delete,
        r matches Some(ops) ==> ops_sampled_from(ops@, gs@, pool@.map_values(|k: Vec<u8>| k@)),
{
    let ghost keys = pool@.map_values(|k: Vec<u8>| k@);
    let mut ops: Vec<BatchOperation> = Vec::new();
    let mut j: usize = 0;
    while j < gs.len()
        invariant
            j <= gs@.len(),
            ops_sampled_from(ops@, gs@.take(j as int), keys),
            keys == pool@.map_values(|k: Vec<u8>| k@),
            pool@.len() == 0 ==> forall|l: int| 0 <= l < j ==> !(#[trigger] gs@[l] is Delete),
        decreases gs@.len() - j,
    {
        let op = match &gs[j] {
            BatchOperationGenerator::Put(key_size, value_size) =>
                BatchOperation::Put(random_bytes(*key_size), *value_size),
            BatchOperationGenerator::Delete(_) => match choose_key(pool) {
                Some(key) => {
                    proof {
                        lemma_chosen_in_pool(pool@, key);
                    }
                    BatchOperation::Delete(key)
                },
                None => {
                    return None;
                },
            },
        };
        ops.push(op);
        j = j + 1;
    }
    assert(gs@.take(j as int) =~= gs@);
    Some(ops)
}

fn sample_task(g: &TaskGenerator, pool: &Vec<Vec<u8>>) -> (r: Option<Task>)
    ensures
        r is None <==> pool@.len() == 0 && needs_pool(*g),
        r matches Some(t) ==> sampled_from(t, *g, pool@.map_values(|k: Vec<u8>| k@)),
{
    let ghost keys = pool@.map_values(|k: Vec<u8>| k@);
    match g {
        TaskGenerator::Get(_) | TaskGenerator::Exists(_) => match choose_key(pool) {
            Some(key) => {
                proof {
                    lemma_chosen_in_pool(pool@, key);
                }
                match g {
                    TaskGenerator::Get(_) => Some(Task::Get(key)),
                    _ => Some(Task::Exists(key)),
                }
            },
            None => None,
        },
        TaskGenerator::Batch(gs) => match sample_ops(gs, pool) {
            Some(ops) => Some(Task::Batch(ops)),
            None => None,
        },
    }
}

/// Builds a workload of `nums_task` tasks from `task_generator`, whose
/// lookups and deletes target keys that `workload` writes; its inserts get
/// fresh random keys. Fails when keys must be drawn and the pool is empty.
pub fn sample_workload(workload: &Workload, task_generator: &TaskGenerator, nums_task: usize) -> (r: Result<Workload, SampleError>)
    ensures
        r is Err <==> nums_task > 0 && needs_pool(*task_generator) && put_keys(workload.0@).len() == 0,
        r matches Ok(w) ==> w.0@.len() == nums_task && forall|i: int| 0 <= i < nums_task
            ==> sampled_from(#[trigger] w.0@[i], *task_generator, put_keys(workload.0@)),
{
    let pool = key_pool(workload);
    let ghost keys = pool@.map_values(|k: Vec<u8>| k@);
    let mut tasks: Vec<Task> = Vec::new();
    let mut i: usize = 0;
    while i < nums_task
        invariant
            i <= nums_task,
            keys == pool@.map_values(|k: Vec<u8>| k@),
            keys == put_keys(workload.0@),
            tasks@.len() == i,
            i > 0 ==> !(keys.len() == 0 && needs_pool(*task_generator)),
            forall|k: int| 0 <= k < i ==> sampled_from(#[trigger] tasks@[k], *task_generator, keys),
        decreases nums_task - i,
    {
        match sample_task(task_generator, &pool) {
            Some(t) => tasks.push(t),
            None => {
                return Err(SampleError::EmptyKeyPool);
            },
        }
        i = i + 1;
    }
    Ok(Workload(tasks))
}

/// The kind of `t`.
pub open spec fn task_type_of(t: Task) -> TaskType {
    match t {
        Task::Get(_) => TaskType::Get,
        Task::Exists(_) => TaskType::Exists,
        Task::Batch(_) => TaskType::Batch,
    }
}

/// Why a run was aborted: the index of the task whose backend call failed,
/// and the backend's own error.
#[derive(Debug, Clone, PartialEq, Eq)]
pub struct RunError {
    pub index: usize,
    pub error: Error,
}

/// An entry handed to a batch: a key, with the value to insert for a `Put`
/// and none for a `Delete`.
pub type BatchEntry = (Vec<u8>, Option<Vec<u8>>);

/// Whether `e` is what the operation `op` hands to a batch: its key, and for
/// a `Put` a value of exactly the recorded size.
pub open spec fn entry_of(op: BatchOperation, e: BatchEntry) -> bool {
    match op {
        BatchOperation::Put(k, value_size) => e.0@ == k@ && e.1 is Some && e.1->Some_0@.len()
            == value_size,
        BatchOperation::Delete(k) => e.0@ == k@ && e.1 is None,
    }
}

/// Builds what the operations `ops` hand to a batch, in their order, drawing
/// a fresh random value of the recorded size for each `Put`.
pub fn batch_entries(ops: &Vec<BatchOperation>) -> (r: Vec<BatchEntry>)
    ensures
        r@.len() == ops@.len(),
        forall|j: int| 0 <= j < ops@.len() ==> entry_of(ops@[j], #[trigger] r@[j]),
{
    let mut entries: Vec<BatchEntry> = Vec::new();
    let mut j: usize = 0;
    while j < ops.len()
        invariant
            j <= ops@.len(),
            entries@.len() == j,
            forall|l: int| 0 <= l < j ==> entry_of(ops@[l], #[trigger] entries@[l]),
        decreases ops@.len() - j,
    {
        let entry = match &ops[j] {
            BatchOperation::Put(key, value_size) => {
                let k = key.clone();
                assert(k@ =~= key@);
                (k, Some(random_bytes(*value_size)))
            },
            BatchOperation::Delete(key) => {
                let k = key.clone();
                assert(k@ =~= key@);
                (k, None)
            },
        };
        entries.push(entry);
        j = j + 1;
    }
    entries
}

/// Applies `entries` to a fresh batch in order, then commits it; only the
/// commit is timed.
fn run_batch<B: Batch>(mut batch: B, entries: &Vec<BatchEntry>) -> (r: Result<u128, Error>) {
    let mut j: usize = 0;
    while j < entries.len()
        invariant
            j <= entries@.len(),
        decreases entries@.len() - j,
    {
        let applied = match &entries[j] {
            (key, Some(value)) => batch.put(key.as_slice(), value.as_slice()),
            (key, None) => batch.delete(key.as_slice()),
        };
        if let Err(e) = applied {
            return Err(e);
        }
        j = j + 1;
    }
    let now = start_timer();
    let committed = batch.commit();
    let elapsed = elapsed_nanos(&now);
    match committed {
        Ok(()) => Ok(elapsed),
        Err(e) => Err(e),
    }
}

/// Runs one task against `store`, timing its backend call: the nanoseconds
/// it took, or the error of the first backend call that failed.
fn run_task<'a, T: KeyValueStore<'a>>(task: &Task, store: &T) -> (r: Result<u128, Error>) {
    match task {
        Task::Get(key) => {
            let now = start_timer();
            let found = store.get(key.as_slice());
            let elapsed = elapsed_nanos(&now);
            match found {
                Ok(_) => Ok(elapsed),
                Err(e) => Err(e),
            }
        },
        Task::Exists(key) => {
            let now = start_timer();
            let found = store.key_exists(key.as_slice());
            let elapsed = elapsed_nanos(&now);
            match found {
                Ok(_) => Ok(elapsed),
                Err(e) => Err(e),
            }
        },
        Task::Batch(ops) => {
            let batch = match store.batch() {
                Ok(b) => b,
                Err(e) => {
                    return Err(e);
                },
            };
            let entries = batch_entries(ops);
            run_batch(batch, &entries)
        },
    }
}

/// The kind of `task`.
pub fn task_type(task: &Task) -> (r: TaskType)
    ensures
        r == task_type_of(*task),
{
    match task {
        Task::Get(_) => TaskType::Get,
        Task::Exists(_) => TaskType::Exists,
        Task::Batch(_) => TaskType::Batch,
    }
}

/// What task `index`, of kind `kind`, records from the outcome of its backend
/// calls: its latency on success, and otherwise the backend's own error
/// together with the task's index.
pub fn record_outcome(kind: TaskType, index: usize, outcome: Result<u128, Error>) -> (r: Result<TaskResult, RunError>)
    ensures
        outcome matches Ok(ns) ==> r == Ok::<TaskResult, RunError>(TaskResult(kind, ns)),
        outcome matches Err(e) ==> r == Err::<TaskResult, RunError>((RunError { index, error: e })),
{
    match outcome {
        Ok(ns) => Ok(TaskResult(kind, ns)),
        Err(error) => Err(RunError { index, error }),
    }
}

/// Replays `workload` against `store` task by task, in order, and records the
/// latency of each. The first failing backend call aborts the whole run.
pub fn run_workload<'a, T: KeyValueStore<'a>>(workload: &Workload, store: &T) -> (r: Result<WorkloadResult, RunError>)
    ensures
        r matches Ok(res) ==> res.0@.len() == workload.0@.len() && forall|i: int|
            0 <= i < workload.0@.len() ==> (#[trigger] res.0@[i]).0 == task_type_of(workload.0@[i]),
        r is Err ==> r->Err_0.index < workload.0@.len(),
{
    let tasks = &workload.0;
    let mut results: Vec<TaskResult> = Vec::new();
    let mut i: usize = 0;
    while i < tasks.len()
        invariant
            tasks@ == workload.0@,
            i <= tasks@.len(),
            results@.len() == i,
            forall|k: int| 0 <= k < i ==> (#[trigger] results@[k]).0 == task_type_of(tasks@[k]),
        decreases tasks@.len() - i,
    {
        let outcome = run_task(&tasks[i], store);
        match record_outcome(task_type(&tasks[i]), i, outcome) {
            Ok(tr) => results.push(tr),
            Err(e) => {
                return Err(e);
            },
        }
        i = i + 1;
    }
    Ok(WorkloadResult(results))
}

/// Latency statistics of a result. Every figure is a whole number of quarter
/// nanoseconds (divide by 4000 for microseconds), which holds the interpolated
/// quartiles exactly.
#[derive(Debug, Clone, Copy, PartialEq, Eq, Structural)]
pub struct WorkloadReport {
    pub total: u128,
    pub median: u128,
    pub lower_quartile: u128,
    pub upper_quartile: u128,
}

/// Why a result could not be reported.
#[derive(Debug, Clone, Copy, PartialEq, Eq, Structural)]
pub enum ReportError {
    /// The result holds no measurement.
    EmptyResult,
    /// The total, in quarter nanoseconds, does not fit in a `u128`.
    Overflow,
}

/// The measured nanoseconds of `results`, in order.
pub open spec fn elapsed_of(results: Seq<TaskResult>) -> Seq<u128> {
    results.map_values(|t: TaskResult| t.1)
}

/// Reduces `result` to its total, median and quartiles, pooling all tasks.
pub fn generate_report(result: &WorkloadResult) -> (r: Result<WorkloadReport, ReportError>)
    ensures
        r == Err::<WorkloadReport, ReportError>(ReportError::EmptyResult) <==> result.0@.len() == 0,
        r == Err::<WorkloadReport, ReportError>(ReportError::Overflow) <==> result.0@.len() > 0
            && 4 * sum_of(elapsed_of(result.0@)) > u128::MAX,
        r matches Ok(rep) ==> {
            &&& rep.total == 4 * sum_of(elapsed_of(result.0@))
            &&& rep.lower_quartile == statistic_x4(elapsed_of(result.0@), 1)
            &&& rep.median == statistic_x4(elapsed_of(result.0@), 2)
            &&& rep.upper_quartile == statistic_x4(elapsed_of(result.0@), 3)
        },
{
    let results = &result.0;
    if results.len() == 0 {
        return Err(ReportError::EmptyResult);
    }
    let ghost elapsed = elapsed_of(results@);
    let mut data: Vec<u128> = Vec::new();
    let mut total: u128 = 0;
    let mut overflow = false;
    let mut i: usize = 0;
    while i < results.len()
        invariant
            i <= results@.len(),
            elapsed == elapsed_of(results@),
            data@ == elapsed.take(i as int),
            !overflow ==> 4 * sum_of(data@) == total,
            overflow ==> 4 * sum_of(data@) > u128::MAX,
        decreases results@.len() - i,
    {
        let value = results[i].1;
        let ghost prev = data@;
        data.push(value);
        assert(data@.drop_last() == prev);
        assert(data@ =~= elapsed.take(i + 1));
        proof {
            lemma_sum_nonnegative(prev);
        }
        if !overflow {
            if value <= (u128::MAX - total) / 4 {
                total = total + 4 * value;
            } else {
                overflow = true;
            }
        }
        i = i + 1;
    }
    assert(data@ =~= elapsed);
    if overflow {
        return Err(ReportError::Overflow);
    }
    sort_ascending(&mut data);
    proof {
        lemma_ascending_total();
        elapsed.lemma_sort_by_ensures(ascending());
        assert forall|j: int| 0 <= j < data@.len() implies 4 * #[trigger] data@[j] <= u128::MAX by {
            assert(sorted_values(elapsed).contains(data@[j]));
            assert(elapsed.contains(data@[j]));
            let l = choose|l: int| 0 <= l < elapsed.len() && elapsed[l] == data@[j];
            lemma_value_at_most_sum(elapsed, l);
        }
    }
    let report = WorkloadReport {
        total,
        median: quartile(&data, 2),
        lower_quartile: quartile(&data, 1),
        upper_quartile: quartile(&data, 3),
    };
    Ok(report)
}

/// Whether `op` deletes `key`.
pub open spec fn deletes(op: BatchOperation, key: Seq<u8>) -> bool {
    match op {
        BatchOperation::Delete(k) => k@ == key,
        BatchOperation::Put(_, _) => false,
    }
}

/// Whether `t` reads or deletes `key`.
pub open spec fn targets_key(t: Task, key: Seq<u8>) -> bool {
    match t {
        Task::Get(k) => k@ == key,
        Task::Exists(k) => k@ == key,
        Task::Batch(ops) => exists|j: int| 0 <= j < ops@.len() && #[trigger] deletes(ops@[j], key),
    }
}

proof fn lemma_ops_put_keys_written(ops: Seq<BatchOperation>, key: Seq<u8>)
    requires
        ops_put_keys(ops).contains(key),
    ensures
        exists|j: int| 0 <= j < ops.len() && #[trigger] puts(ops[j], key),
    decreases ops.len(),
{
    let rest = ops.drop_last();
    let head = ops_put_keys(rest);
    let l = choose|l: int| 0 <= l < ops_put_keys(ops).len() && ops_put_keys(ops)[l] == key;
    if l < head.len() {
        assert(head[l] == key);
        lemma_ops_put_keys_written(rest, key);
        let j = choose|j: int| 0 <= j < rest.len() && #[trigger] puts(rest[j], key);
        assert(ops[j] == rest[j]);
    } else {
        assert(puts(ops[ops.len() - 1], key));
    }
}

proof fn lemma_put_keys_written(tasks: Seq<Task>, key: Seq<u8>)
    requires
        put_keys(tasks).contains(key),
    ensures
        is_put_key(tasks, key),
    decreases tasks.len(),
{
    let rest = tasks.drop_last();
    let head = put_keys(rest);
    let l = choose|l: int| 0 <= l < put_keys(tasks).len() && put_keys(tasks)[l] == key;
    if l < head.len() {
        assert(head[l] == key);
        lemma_put_keys_written(rest, key);
        let (i, j) = choose|i: int, j: int| 0 <= i < rest.len() && #[trigger] writes_at(rest[i], j, key);
        assert(tasks[i] == rest[i]);
        assert(writes_at(tasks[i], j, key));
    } else {
        let last = tasks[tasks.len() - 1];
        match last {
            Task::Batch(ops) => {
                assert(task_put_keys(last)[l - head.len()] == key);
                lemma_ops_put_keys_written(ops@, key);
                let j = choose|j: int| 0 <= j < ops@.len() && #[trigger] puts(ops@[j], key);
                assert(writes_at(tasks[tasks.len() - 1], j, key));
            },
            _ => {},
        }
    }
}

/// Every key that a sampled task reads or deletes is written by some `Put`
/// of a batch of the reference workload.
pub proof fn lemma_sampled_keys_are_written(reference: Seq<Task>, g: TaskGenerator, t: Task, key: Seq<u8>)
    requires
        sampled_from(t, g, put_keys(reference)),
        targets_key(t, key),
    ensures
        is_put_key(reference, key),
{
    match (t, g) {
        (Task::Batch(ops), TaskGenerator::Batch(gs)) => {
            let j = choose|j: int| 0 <= j < ops@.len() && #[trigger] deletes(ops@[j], key);
            assert(op_sampled_from(ops@[j], gs@[j], put_keys(reference)));
        },
        _ => {},
    }
    lemma_put_keys_written(reference, key);
}

} // verus!
