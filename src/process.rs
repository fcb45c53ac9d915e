//! Worker processes as the master keeps track of them.

use vstd::prelude::*;
use crate::config::Config;

verus! {

#[derive(PartialEq, Eq, Structural, Clone, Copy, Debug)]
pub enum WorkerStatus {
    Running,
    Stopped,
    Failed,
}

#[derive(PartialEq, Eq, Structural, Clone, Copy, Debug)]
pub struct WorkerProcess {
    pid: u32,
    status: WorkerStatus,
}

impl WorkerProcess {
    pub closed spec fn pid_spec(&self) -> u32 {
        self.pid
    }

    pub closed spec fn status_spec(&self) -> WorkerStatus {
        self.status
    }

    /// A running worker with process id `pid`.
    pub fn new(pid: u32) -> (r: Self)
        ensures
            r.pid_spec() == pid,
            r.status_spec() == WorkerStatus::Running,
    {
        WorkerProcess { pid, status: WorkerStatus::Running }
    }

    pub fn get_pid(&self) -> (r: u32)
        ensures
            r == self.pid_spec(),
    {
        self.pid
    }

    pub fn get_status(&self) -> (r: &WorkerStatus)
        ensures
            *r == self.status_spec(),
    {
        &self.status
    }

    pub fn set_status(&mut self, status: WorkerStatus)
        ensures
            final(self).status_spec() == status,
            final(self).pid_spec() == old(self).pid_spec(),
    {
        self.status = status;
    }
}

/// The master process and its workers.
pub struct ProcessManager {
    master_pid: u32,
    worker_processes: Vec<WorkerProcess>,
    config: Config,
}

impl ProcessManager {
    pub closed spec fn master(&self) -> u32 {
        self.master_pid
    }

    pub closed spec fn workers(&self) -> Seq<WorkerProcess> {
        self.worker_processes@
    }

    pub fn new(master_pid: u32, config: Config) -> (r: Self)
        ensures
            r.master() == master_pid,
            r.workers().len() == 0,
    {
        ProcessManager { master_pid, worker_processes: Vec::new(), config }
    }

    /// Starts `count` workers numbered from 0; worker `i` gets the process id
    /// `master + i + 1`.
    pub fn start_worker_processes(&mut self, count: usize)
        requires
            old(self).master() + count <= u32::MAX,
        ensures
            final(self).master() == old(self).master(),
            final(self).workers().len() == old(self).workers().len() + count,
            forall|j: int| 0 <= j < old(self).workers().len() ==> #[trigger] final(self).workers()[j] == old(self).workers()[j],
            forall|i: int| 0 <= i < count ==> {
                let w = #[trigger] final(self).workers()[old(self).workers().len() + i];
                w.pid_spec() == old(self).master() + i + 1 && w.status_spec() == WorkerStatus::Running
            },
    {
        let ghost start = self.worker_processes@;
        let mut i: usize = 0;
        while i < count
            invariant
                i <= count,
                self.master_pid == old(self).master_pid,
                self.master_pid + count <= u32::MAX,
                start == old(self).worker_processes@,
                self.worker_processes@.len() == start.len() + i,
                forall|j: int| 0 <= j < start.len() ==> #[trigger] self.worker_processes@[j] == start[j],
                forall|k: int| 0 <= k < i ==> {
                    let w = #[trigger] self.worker_processes@[start.len() + k];
                    w.pid == self.master_pid + k + 1 && w.status == WorkerStatus::Running
                },
            decreases count - i,
        {
            self.start_worker_process(i);
            i = i + 1;
        }
    }

    fn start_worker_process(&mut self, worker_id: usize)
        requires
            old(self).master_pid + worker_id + 1 <= u32::MAX,
        ensures
            final(self).master_pid == old(self).master_pid,
            final(self).worker_processes@ == old(self).worker_processes@.push(
                WorkerProcess { pid: (old(self).master_pid + worker_id + 1) as u32, status: WorkerStatus::Running },
            ),
    {
        let pid = self.master_pid + worker_id as u32 + 1;
        self.worker_processes.push(WorkerProcess { pid, status: WorkerStatus::Running });
    }

    /// Marks every worker stopped.
    pub fn shutdown_workers(&mut self)
        ensures
            final(self).master() == old(self).master(),
            final(self).workers().len() == old(self).workers().len(),
            forall|j: int| 0 <= j < old(self).workers().len() ==> (#[trigger] final(self).workers()[j]).pid_spec()
                == old(self).workers()[j].pid_spec() && final(self).workers()[j].status_spec() == WorkerStatus::Stopped,
    {
        let mut i: usize = 0;
        while i < self.worker_processes.len()
            invariant
                i <= self.worker_processes@.len(),
                self.master_pid == old(self).master_pid,
                self.worker_processes@.len() == old(self).worker_processes@.len(),
                forall|j: int| 0 <= j < self.worker_processes@.len() ==> (#[trigger] self.worker_processes@[j]).pid
                    == old(self).worker_processes@[j].pid,
                forall|j: int| 0 <= j < i ==> (#[trigger] self.worker_processes@[j]).status == WorkerStatus::Stopped,
            decreases self.worker_processes@.len() - i,
        {
            let w = WorkerProcess { pid: self.worker_processes[i].pid, status: WorkerStatus::Stopped };
            self.worker_processes.set(i, w);
            i = i + 1;
        }
    }
}

} // verus!
