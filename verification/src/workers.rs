//! The workers that a benchmark starts.

use vstd::prelude::*;
use vstd::string::*;

use crate::args::WorkerBackend;
use crate::text::decimal_string;

verus! {

/// A worker.
#[derive(Debug)]
pub enum WorkerSpec {
    /// A process on the host.
    Local { id: usize },
    /// A virtual machine, by the name of the directory that it works in.
    Firecracker { name: String },
    /// A worker that only takes tasks in.
    Dummy { id: usize },
}

/// A [`WorkerSpec`] over its characters.
pub enum WorkerSpecView {
    Local { id: nat },
    Firecracker { name: Seq<char> },
    Dummy { id: nat },
}

impl View for WorkerSpec {
    type V = WorkerSpecView;

    open spec fn view(&self) -> WorkerSpecView {
        match self {
            WorkerSpec::Local { id } => WorkerSpecView::Local { id: *id as nat },
            WorkerSpec::Firecracker { name } => WorkerSpecView::Firecracker { name: name@ },
            WorkerSpec::Dummy { id } => WorkerSpecView::Dummy { id: *id as nat },
        }
    }
}

/// The configuration has nothing on local workers.
#[derive(Debug)]
pub struct NoLocalWorker;

impl NoLocalWorker {
    /// What is said of the error.
    pub fn message(&self) -> (text: &'static str)
        ensures
            text@ == "No local worker config"@,
    {
        "No local worker config"
    }
}

/// The worker number `i` of a backend.
pub open spec fn worker(backend: WorkerBackend, i: nat) -> WorkerSpecView {
    match backend {
        WorkerBackend::Local => WorkerSpecView::Local { id: i },
        WorkerBackend::Firecracker => WorkerSpecView::Firecracker {
            name: "vm"@ + crate::text::decimal(i) + "-data"@,
        },
        WorkerBackend::Dummy => WorkerSpecView::Dummy { id: i },
    }
}

fn make_worker(backend: WorkerBackend, i: usize) -> (made: WorkerSpec)
    ensures
        made@ == worker(backend, i as nat),
{
    match backend {
        WorkerBackend::Local => WorkerSpec::Local { id: i },
        WorkerBackend::Firecracker => {
            let mut name = "vm".to_string();
            name.append(decimal_string(i as u64).as_str());
            name.append("-data");
            WorkerSpec::Firecracker { name }
        },
        WorkerBackend::Dummy => WorkerSpec::Dummy { id: i },
    }
}

/// The workers of a benchmark: `workers` of them, numbered from zero. Local ones need the
/// configuration to say something on them, however many there are.
pub fn plan_workers(backend: WorkerBackend, workers: usize, has_local_worker: bool) -> (plan: Result<
    Vec<WorkerSpec>,
    NoLocalWorker,
>)
    ensures
        plan is Err <==> backend is Local && !has_local_worker,
        plan matches Ok(list) ==> {
            &&& list@.len() == workers
            &&& forall|i: int|
                0 <= i < workers ==> (#[trigger] list@[i])@ == worker(backend, i as nat)
        },
{
    if matches!(backend, WorkerBackend::Local) && !has_local_worker {
        return Err(NoLocalWorker);
    }
    let mut list: Vec<WorkerSpec> = Vec::new();
    for i in 0..workers
        invariant
            list@.len() == i,
            forall|k: int| 0 <= k < i ==> (#[trigger] list@[k])@ == worker(backend, k as nat),
    {
        list.push(make_worker(backend, i));
    }
    Ok(list)
}

/// No two workers of a benchmark are the same: virtual machines do not share a directory.
pub proof fn lemma_workers_differ(backend: WorkerBackend, i: nat, j: nat)
    requires
        i != j,
    ensures
        worker(backend, i) != worker(backend, j),
{
    let max = if i < j { j } else { i };
    crate::text::lemma_decimal_reads_back(i, max);
    crate::text::lemma_decimal_reads_back(j, max);
    let head = "vm"@;
    let tail = "-data"@;
    let one = head + crate::text::decimal(i) + tail;
    let other = head + crate::text::decimal(j) + tail;
    if one == other {
        assert(one.len() - tail.len() - head.len() == crate::text::decimal(i).len());
        assert(one.subrange(head.len() as int, one.len() - tail.len()) =~= crate::text::decimal(i));
        assert(other.subrange(head.len() as int, other.len() - tail.len())
            =~= crate::text::decimal(j));
    }
}

/// Workers are numbered from zero, whatever the backend. A local or a dummy worker goes by its
/// number, and a virtual machine works in the directory that its number names.
pub proof fn lemma_worker_is_numbered(i: nat)
    ensures
        worker(WorkerBackend::Local, i) == (WorkerSpecView::Local { id: i }),
        worker(WorkerBackend::Dummy, i) == (WorkerSpecView::Dummy { id: i }),
        worker(WorkerBackend::Firecracker, i) == (WorkerSpecView::Firecracker {
            name: "vm"@ + crate::text::decimal(i) + "-data"@,
        }),
{
}

} // verus!
