use bg_driver::sandbox::{
    default_job_limits, Passthrough, JOB_OBJECT_LIMIT_DIE_ON_UNHANDLED_EXCEPTION,
    JOB_OBJECT_LIMIT_KILL_ON_JOB_CLOSE,
};
use std::path::PathBuf;

#[test]
fn passthrough_root() {
    let s = Passthrough { root: PathBuf::from("/tmp") };
    assert_eq!(s.root(), &PathBuf::from("/tmp"));
}

#[test]
fn default_limits_have_kill_on_close() {
    let l = default_job_limits();
    assert!(l.basic_limit_information.limit_flags & JOB_OBJECT_LIMIT_KILL_ON_JOB_CLOSE != 0);
}

#[test]
fn default_limits_values() {
    let l = default_job_limits();
    assert_eq!(l.basic_limit_information.limit_flags, 0x2780);
    assert!(l.basic_limit_information.limit_flags & JOB_OBJECT_LIMIT_DIE_ON_UNHANDLED_EXCEPTION != 0);
    assert_eq!(l.process_memory_limit, 512 * 1024 * 1024);
    assert_eq!(l.job_memory_limit, 2 * 1024 * 1024 * 1024);
    assert_eq!(l.basic_limit_information.active_process_limit, 64);
    assert_eq!(l.io_info.read_operation_count, 0);
    assert_eq!(l.peak_job_memory_used, 0);
}
