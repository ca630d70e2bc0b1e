use rust_kvstore_bench::workload::{
    batch_entries, generate_report, generate_workload, record_outcome, run_workload,
    sample_workload, task_type, BatchOperation, RunError,
    BatchOperationGenerator, ReportError, SampleError, Task, TaskGenerator, TaskResult, TaskType,
    Workload, WorkloadReport, WorkloadResult,
};
use rust_kvstore_bench::{Batch, Error, KeyValueStore};
use std::cell::RefCell;
use std::collections::BTreeMap;
use std::rc::Rc;

type Log = Rc<RefCell<Vec<String>>>;

struct MemStore {
    data: Rc<RefCell<BTreeMap<Vec<u8>, Vec<u8>>>>,
    log: Log,
    fail_commit: bool,
}

struct MemBatch {
    data: Rc<RefCell<BTreeMap<Vec<u8>, Vec<u8>>>>,
    pending: Vec<(Vec<u8>, Option<Vec<u8>>)>,
    log: Log,
    fail_commit: bool,
}

impl<'a> KeyValueStore<'a> for MemStore {
    type Batch = MemBatch;

    fn new(_path: &str) -> Self {
        MemStore {
            data: Rc::new(RefCell::new(BTreeMap::new())),
            log: Rc::new(RefCell::new(Vec::new())),
            fail_commit: false,
        }
    }

    fn get(&self, key: &[u8]) -> Result<Option<Vec<u8>>, Error> {
        self.log.borrow_mut().push(format!("get {:?}", key));
        Ok(self.data.borrow().get(key).cloned())
    }

    fn key_exists(&self, key: &[u8]) -> Result<bool, Error> {
        self.log.borrow_mut().push(format!("exists {:?}", key));
        Ok(self.data.borrow().contains_key(key))
    }

    fn batch(&self) -> Result<MemBatch, Error> {
        Ok(MemBatch {
            data: Rc::clone(&self.data),
            pending: Vec::new(),
            log: Rc::clone(&self.log),
            fail_commit: self.fail_commit,
        })
    }
}

impl Batch for MemBatch {
    fn put(&mut self, key: &[u8], value: &[u8]) -> Result<(), Error> {
        self.log.borrow_mut().push(format!("put {:?} {}", key, value.len()));
        self.pending.push((key.to_vec(), Some(value.to_vec())));
        Ok(())
    }

    fn delete(&mut self, key: &[u8]) -> Result<(), Error> {
        self.log.borrow_mut().push(format!("delete {:?}", key));
        self.pending.push((key.to_vec(), None));
        Ok(())
    }

    fn commit(self) -> Result<(), Error> {
        if self.fail_commit {
            return Err(Error::DBError("commit refused".to_string()));
        }
        let mut data = self.data.borrow_mut();
        for (k, v) in self.pending {
            match v {
                Some(v) => {
                    data.insert(k, v);
                }
                None => {
                    data.remove(&k);
                }
            }
        }
        Ok(())
    }
}

fn result_of(nanos: &[u128]) -> WorkloadResult {
    WorkloadResult(nanos.iter().map(|n| TaskResult(TaskType::Get, *n)).collect())
}

fn put_reference(keys: &[Vec<u8>]) -> Workload {
    Workload(vec![Task::Batch(
        keys.iter().map(|k| BatchOperation::Put(k.clone(), 3)).collect(),
    )])
}

#[test]
fn generate_get_tasks_have_count_and_key_size() {
    let w = generate_workload(&TaskGenerator::Get(3), 5);
    assert_eq!(w.0.len(), 5);
    for t in &w.0 {
        match t {
            Task::Get(k) => assert_eq!(k.len(), 3),
            _ => panic!("not a get"),
        }
    }
}

#[test]
fn generate_exists_with_zero_key_size() {
    let w = generate_workload(&TaskGenerator::Exists(0), 2);
    assert_eq!(w.0, vec![Task::Exists(vec![]), Task::Exists(vec![])]);
}

#[test]
fn generate_zero_tasks_is_empty() {
    let w = generate_workload(&TaskGenerator::Get(8), 0);
    assert!(w.0.is_empty());
}

#[test]
fn generate_batch_follows_templates() {
    let g = TaskGenerator::Batch(vec![
        BatchOperationGenerator::Put(2, 7),
        BatchOperationGenerator::Delete(4),
        BatchOperationGenerator::Put(16, 0),
    ]);
    let w = generate_workload(&g, 3);
    assert_eq!(w.0.len(), 3);
    for t in &w.0 {
        match t {
            Task::Batch(ops) => {
                assert_eq!(ops.len(), 3);
                match &ops[0] {
                    BatchOperation::Put(k, v) => {
                        assert_eq!(k.len(), 2);
                        assert_eq!(*v, 7);
                    }
                    _ => panic!("not a put"),
                }
                match &ops[1] {
                    BatchOperation::Delete(k) => assert_eq!(k.len(), 4),
                    _ => panic!("not a delete"),
                }
                match &ops[2] {
                    BatchOperation::Put(k, v) => {
                        assert_eq!(k.len(), 16);
                        assert_eq!(*v, 0);
                    }
                    _ => panic!("not a put"),
                }
            }
            _ => panic!("not a batch"),
        }
    }
}

#[test]
fn sample_gets_from_single_put_key() {
    let reference = Workload(vec![Task::Batch(vec![BatchOperation::Put(vec![0, 0], 3)])]);
    let w = sample_workload(&reference, &TaskGenerator::Get(2), 5).unwrap();
    assert_eq!(w.0.len(), 5);
    for t in &w.0 {
        assert_eq!(*t, Task::Get(vec![0, 0]));
    }
}

#[test]
fn sample_reads_and_deletes_only_written_keys() {
    let keys = vec![vec![1, 2, 3], vec![9], vec![4, 4]];
    let mut reference = put_reference(&keys);
    reference.0.push(Task::Get(vec![7, 7]));
    reference
        .0
        .push(Task::Batch(vec![BatchOperation::Delete(vec![8, 8])]));
    let w = sample_workload(&reference, &TaskGenerator::Exists(1), 20).unwrap();
    for t in &w.0 {
        match t {
            Task::Exists(k) => assert!(keys.contains(k)),
            _ => panic!("not an exists"),
        }
    }
    let g = TaskGenerator::Batch(vec![
        BatchOperationGenerator::Delete(1),
        BatchOperationGenerator::Put(5, 6),
    ]);
    let w = sample_workload(&reference, &g, 20).unwrap();
    assert_eq!(w.0.len(), 20);
    for t in &w.0 {
        match t {
            Task::Batch(ops) => {
                assert_eq!(ops.len(), 2);
                match &ops[0] {
                    BatchOperation::Delete(k) => assert!(keys.contains(k)),
                    _ => panic!("not a delete"),
                }
                match &ops[1] {
                    BatchOperation::Put(k, v) => {
                        assert_eq!(k.len(), 5);
                        assert_eq!(*v, 6);
                    }
                    _ => panic!("not a put"),
                }
            }
            _ => panic!("not a batch"),
        }
    }
}

#[test]
fn sample_without_puts_fails() {
    let reference = Workload(vec![
        Task::Get(vec![1]),
        Task::Batch(vec![BatchOperation::Delete(vec![2])]),
    ]);
    assert_eq!(
        sample_workload(&reference, &TaskGenerator::Get(1), 3),
        Err(SampleError::EmptyKeyPool)
    );
    let g = TaskGenerator::Batch(vec![BatchOperationGenerator::Delete(1)]);
    assert_eq!(sample_workload(&reference, &g, 1), Err(SampleError::EmptyKeyPool));
}

#[test]
fn sample_without_puts_succeeds_when_no_key_is_drawn() {
    let reference = Workload(vec![]);
    let w = sample_workload(&reference, &TaskGenerator::Get(1), 0).unwrap();
    assert!(w.0.is_empty());
    let g = TaskGenerator::Batch(vec![BatchOperationGenerator::Put(3, 1)]);
    let w = sample_workload(&reference, &g, 2).unwrap();
    assert_eq!(w.0.len(), 2);
}

#[test]
fn report_of_four_gets() {
    let rep = generate_report(&result_of(&[1000, 2000, 3000, 4000])).unwrap();
    // quarter nanoseconds: divide by 4000 for microseconds
    assert_eq!(
        rep,
        WorkloadReport {
            total: 40000,
            median: 10000,
            lower_quartile: 7000,
            upper_quartile: 13000,
        }
    );
    assert_eq!(rep.total as f64 / 4000.0, 10.0);
    assert_eq!(rep.median as f64 / 4000.0, 2.5);
    assert_eq!(rep.lower_quartile as f64 / 4000.0, 1.75);
    assert_eq!(rep.upper_quartile as f64 / 4000.0, 3.25);
}

#[test]
fn report_sorts_before_interpolating() {
    let rep = generate_report(&result_of(&[4000, 1000, 3000, 2000])).unwrap();
    assert_eq!(rep.median, 10000);
    assert_eq!(rep.lower_quartile, 7000);
    assert_eq!(rep.upper_quartile, 13000);
}

#[test]
fn report_of_odd_count() {
    let rep = generate_report(&result_of(&[5, 1, 3, 2, 4])).unwrap();
    assert_eq!(rep.total, 60);
    assert_eq!(rep.median, 12);
    assert_eq!(rep.lower_quartile, 8);
    assert_eq!(rep.upper_quartile, 16);
}

#[test]
fn report_of_single_measurement() {
    let rep = generate_report(&result_of(&[7])).unwrap();
    assert_eq!(rep.total, 28);
    assert_eq!(rep.median, 28);
    assert_eq!(rep.lower_quartile, 28);
    assert_eq!(rep.upper_quartile, 28);
}

#[test]
fn report_scales_with_latencies() {
    let base = [120, 5, 77, 3000, 41, 41];
    let rep = generate_report(&result_of(&base)).unwrap();
    let scaled: Vec<u128> = base.iter().map(|n| n * 3).collect();
    let rep3 = generate_report(&result_of(&scaled)).unwrap();
    assert_eq!(rep3.total, 3 * rep.total);
    assert_eq!(rep3.median, 3 * rep.median);
    assert_eq!(rep3.lower_quartile, 3 * rep.lower_quartile);
    assert_eq!(rep3.upper_quartile, 3 * rep.upper_quartile);
}

#[test]
fn report_of_empty_result_fails() {
    assert_eq!(
        generate_report(&WorkloadResult(vec![])),
        Err(ReportError::EmptyResult)
    );
}

#[test]
fn report_overflow_fails() {
    assert_eq!(
        generate_report(&result_of(&[u128::MAX / 4, 1])),
        Err(ReportError::Overflow)
    );
    assert!(generate_report(&result_of(&[u128::MAX / 8, 1])).is_ok());
}

#[test]
fn run_records_one_result_per_task() {
    let store = MemStore::new("unused");
    let w = Workload(vec![
        Task::Batch(vec![
            BatchOperation::Put(vec![1], 4),
            BatchOperation::Delete(vec![2]),
        ]),
        Task::Get(vec![1]),
        Task::Exists(vec![2]),
    ]);
    let r = run_workload(&w, &store).unwrap();
    let kinds: Vec<TaskType> = r.0.iter().map(|t| t.0).collect();
    assert_eq!(kinds, vec![TaskType::Batch, TaskType::Get, TaskType::Exists]);
    assert_eq!(store.data.borrow().get(&vec![1u8]).map(|v| v.len()), Some(4));
    assert_eq!(
        *store.log.borrow(),
        vec!["put [1] 4", "delete [2]", "get [1]", "exists [2]"]
    );
}

#[test]
fn run_of_empty_workload_is_empty() {
    let store = MemStore::new("unused");
    let r = run_workload(&Workload(vec![]), &store).unwrap();
    assert!(r.0.is_empty());
}

#[test]
fn run_aborts_on_failed_commit() {
    let mut store = MemStore::new("unused");
    store.fail_commit = true;
    let w = Workload(vec![
        Task::Get(vec![3]),
        Task::Batch(vec![
            BatchOperation::Put(vec![1], 4),
            BatchOperation::Delete(vec![2]),
        ]),
        Task::Get(vec![1]),
    ]);
    let e = run_workload(&w, &store).unwrap_err();
    assert_eq!(e.index, 1);
    assert_eq!(e.error, Error::DBError("commit refused".to_string()));
    assert_eq!(
        *store.log.borrow(),
        vec!["get [3]", "put [1] 4", "delete [2]"]
    );
}

#[test]
fn batch_entries_follow_operations() {
    let ops = vec![
        BatchOperation::Put(vec![1, 2], 4),
        BatchOperation::Delete(vec![3]),
        BatchOperation::Put(vec![], 0),
    ];
    let entries = batch_entries(&ops);
    assert_eq!(entries.len(), 3);
    assert_eq!(entries[0].0, vec![1, 2]);
    assert_eq!(entries[0].1.as_ref().map(|v| v.len()), Some(4));
    assert_eq!(entries[1], (vec![3], None));
    assert_eq!(entries[2], (vec![], Some(vec![])));
}

#[test]
fn record_outcome_keeps_latency_or_backend_error() {
    assert_eq!(
        record_outcome(TaskType::Exists, 2, Ok(1500)),
        Ok(TaskResult(TaskType::Exists, 1500))
    );
    assert_eq!(
        record_outcome(TaskType::Batch, 7, Err(Error::DBError("disk full".to_string()))),
        Err(RunError {
            index: 7,
            error: Error::DBError("disk full".to_string()),
        })
    );
}

#[test]
fn task_type_of_each_variant() {
    assert_eq!(task_type(&Task::Get(vec![1])), TaskType::Get);
    assert_eq!(task_type(&Task::Exists(vec![])), TaskType::Exists);
    assert_eq!(task_type(&Task::Batch(vec![])), TaskType::Batch);
}

#[test]
fn quartiles_are_ordered() {
    let rep = generate_report(&result_of(&[900, 3, 3, 41, 7000, 12, 5])).unwrap();
    assert!(rep.lower_quartile <= rep.median);
    assert!(rep.median <= rep.upper_quartile);
}
