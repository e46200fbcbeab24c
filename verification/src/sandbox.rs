//! Sandboxes: the pass-through sandbox rooted at a directory, and the
//! resource limits a Windows Job Object sandbox applies.

use vstd::prelude::*;
use std::path::PathBuf;

verus! {

#[verifier::external_type_specification]
#[verifier::external_body]
pub struct ExPathBuf(PathBuf);

/// A sandbox that isolates nothing: commands run directly, rooted at
/// `root`.
pub struct Passthrough {
    pub root: PathBuf,
}

impl Passthrough {
    /// Root directory the sandbox considers "home".
    pub fn root(&self) -> (r: &PathBuf)
        ensures
            *r == self.root,
    {
        &self.root
    }
}

/// Kill every process of the job when its handle closes.
pub const JOB_OBJECT_LIMIT_KILL_ON_JOB_CLOSE: u32 = 0x2000;
/// An unhandled exception in any process of the job kills the job.
pub const JOB_OBJECT_LIMIT_DIE_ON_UNHANDLED_EXCEPTION: u32 = 0x0400;
/// Processes may break away from the job.
pub const JOB_OBJECT_LIMIT_BREAKAWAY_OK: u32 = 0x0080;
/// Enforce `process_memory_limit`.
pub const JOB_OBJECT_LIMIT_PROCESS_MEMORY: u32 = 0x0100;
/// Enforce `job_memory_limit`.
pub const JOB_OBJECT_LIMIT_JOB_MEMORY: u32 = 0x0200;

/// Per-process memory cap of the default limits: 512 MB.
pub const DEFAULT_PROCESS_MEMORY_LIMIT: usize = 536870912;
/// Whole-job memory cap of the default limits: 2 GB.
pub const DEFAULT_JOB_MEMORY_LIMIT: usize = 2147483648;
/// Cap on concurrently active processes of the default limits.
pub const DEFAULT_ACTIVE_PROCESS_LIMIT: u32 = 64;

/// `JOBOBJECT_BASIC_LIMIT_INFORMATION`: the core limits struct.
#[derive(Debug, Clone, Copy)]
pub struct JobBasicLimitInfo {
    pub per_process_user_time_limit: i64,
    pub per_job_user_time_limit: i64,
    pub limit_flags: u32,
    pub minimum_working_set_size: usize,
    pub maximum_working_set_size: usize,
    pub active_process_limit: u32,
    pub affinity: usize,
    pub priority_class: u32,
    pub scheduling_class: u32,
}

/// `IO_COUNTERS`: cumulative I/O statistics.
#[derive(Debug, Clone, Copy)]
pub struct IoCounters {
    pub read_operation_count: u64,
    pub write_operation_count: u64,
    pub other_operation_count: u64,
    pub read_transfer_count: u64,
    pub write_transfer_count: u64,
    pub other_transfer_count: u64,
}

/// `JOBOBJECT_EXTENDED_LIMIT_INFORMATION`: the struct handed to
/// `SetInformationJobObject`.
#[derive(Debug, Clone, Copy)]
pub struct JobExtendedLimitInfo {
    pub basic_limit_information: JobBasicLimitInfo,
    pub io_info: IoCounters,
    pub process_memory_limit: usize,
    pub job_memory_limit: usize,
    pub peak_process_memory_used: usize,
    pub peak_job_memory_used: usize,
}

/// All basic limits zero.
pub open spec fn basic_is_zero(b: JobBasicLimitInfo) -> bool {
    &&& b.per_process_user_time_limit == 0
    &&& b.per_job_user_time_limit == 0
    &&& b.limit_flags == 0
    &&& b.minimum_working_set_size == 0
    &&& b.maximum_working_set_size == 0
    &&& b.active_process_limit == 0
    &&& b.affinity == 0
    &&& b.priority_class == 0
    &&& b.scheduling_class == 0
}

/// All I/O counters zero.
pub open spec fn io_is_zero(c: IoCounters) -> bool {
    &&& c.read_operation_count == 0
    &&& c.write_operation_count == 0
    &&& c.other_operation_count == 0
    &&& c.read_transfer_count == 0
    &&& c.write_transfer_count == 0
    &&& c.other_transfer_count == 0
}

impl Default for JobBasicLimitInfo {
    fn default() -> (b: Self)
        ensures
            basic_is_zero(b),
    {
        JobBasicLimitInfo {
            per_process_user_time_limit: 0,
            per_job_user_time_limit: 0,
            limit_flags: 0,
            minimum_working_set_size: 0,
            maximum_working_set_size: 0,
            active_process_limit: 0,
            affinity: 0,
            priority_class: 0,
            scheduling_class: 0,
        }
    }
}

impl Default for IoCounters {
    fn default() -> (c: Self)
        ensures
            io_is_zero(c),
    {
        IoCounters {
            read_operation_count: 0,
            write_operation_count: 0,
            other_operation_count: 0,
            read_transfer_count: 0,
            write_transfer_count: 0,
            other_transfer_count: 0,
        }
    }
}

impl Default for JobExtendedLimitInfo {
    fn default() -> (l: Self)
        ensures
            basic_is_zero(l.basic_limit_information),
            io_is_zero(l.io_info),
            l.process_memory_limit == 0,
            l.job_memory_limit == 0,
            l.peak_process_memory_used == 0,
            l.peak_job_memory_used == 0,
    {
        JobExtendedLimitInfo {
            basic_limit_information: JobBasicLimitInfo::default(),
            io_info: IoCounters::default(),
            process_memory_limit: 0,
            job_memory_limit: 0,
            peak_process_memory_used: 0,
            peak_job_memory_used: 0,
        }
    }
}

/// The limit flags of the safe defaults.
pub open spec fn default_limit_flags() -> u32 {
    JOB_OBJECT_LIMIT_KILL_ON_JOB_CLOSE | JOB_OBJECT_LIMIT_DIE_ON_UNHANDLED_EXCEPTION
        | JOB_OBJECT_LIMIT_BREAKAWAY_OK | JOB_OBJECT_LIMIT_PROCESS_MEMORY
        | JOB_OBJECT_LIMIT_JOB_MEMORY
}

/// The safe-default job limits: 512 MB per process, 2 GB for the whole
/// job, 64 active processes, kill-on-close and die-on-unhandled-exception;
/// everything else zero.
pub fn default_job_limits() -> (l: JobExtendedLimitInfo)
    ensures
        l.basic_limit_information.limit_flags == default_limit_flags(),
        l.basic_limit_information.limit_flags & JOB_OBJECT_LIMIT_KILL_ON_JOB_CLOSE != 0,
        l.basic_limit_information.limit_flags & JOB_OBJECT_LIMIT_DIE_ON_UNHANDLED_EXCEPTION != 0,
        l.process_memory_limit == 512 * 1024 * 1024,
        l.job_memory_limit == 2 * 1024 * 1024 * 1024,
        l.basic_limit_information.active_process_limit == 64,
        l.basic_limit_information.per_process_user_time_limit == 0,
        l.basic_limit_information.per_job_user_time_limit == 0,
        l.basic_limit_information.minimum_working_set_size == 0,
        l.basic_limit_information.maximum_working_set_size == 0,
        l.basic_limit_information.affinity == 0,
        l.basic_limit_information.priority_class == 0,
        l.basic_limit_information.scheduling_class == 0,
        io_is_zero(l.io_info),
        l.peak_process_memory_used == 0,
        l.peak_job_memory_used == 0,
{
    let mut limits = JobExtendedLimitInfo::default();
    limits.basic_limit_information.limit_flags = JOB_OBJECT_LIMIT_KILL_ON_JOB_CLOSE
        | JOB_OBJECT_LIMIT_DIE_ON_UNHANDLED_EXCEPTION | JOB_OBJECT_LIMIT_BREAKAWAY_OK
        | JOB_OBJECT_LIMIT_PROCESS_MEMORY | JOB_OBJECT_LIMIT_JOB_MEMORY;
    limits.process_memory_limit = DEFAULT_PROCESS_MEMORY_LIMIT;
    limits.job_memory_limit = DEFAULT_JOB_MEMORY_LIMIT;
    limits.basic_limit_information.active_process_limit = DEFAULT_ACTIVE_PROCESS_LIMIT;
    assert((0x2000u32 | 0x0400u32 | 0x0080u32 | 0x0100u32 | 0x0200u32) & 0x2000u32 != 0) by (bit_vector);
    assert((0x2000u32 | 0x0400u32 | 0x0080u32 | 0x0100u32 | 0x0200u32) & 0x0400u32 != 0) by (bit_vector);
    limits
}

} // verus!
