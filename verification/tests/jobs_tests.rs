use meeting_agent::jobs::{JobState, JobTable, JobType, ProgressEvent};

fn table() -> JobTable<f64> {
    JobTable::new()
}

#[test]
fn test_create_job_returns_pending() {
    let mut registry = table();
    let job_id = registry.create_job(JobType::Import, 100);
    let job = registry.get_job(&job_id).unwrap();
    assert_eq!(job.state, JobState::Pending);
    assert_eq!(job.job_type, JobType::Import);
    assert!(job.progress.is_empty());
    assert!(job.meeting_id.is_none());
    assert!(!job.is_terminal());
}

#[test]
fn test_update_progress_sets_processing() {
    let mut registry = table();
    let job_id = registry.create_job(JobType::Import, 100);
    registry.update_progress(&job_id, ProgressEvent::new("transcribing", "Started", 101), 101);
    let job = registry.get_job(&job_id).unwrap();
    assert_eq!(job.state, JobState::Processing);
    assert_eq!(job.progress.len(), 1);
    assert_eq!(job.progress[0].stage, "transcribing");
}

#[test]
fn test_update_progress_with_percent() {
    let mut registry = table();
    let job_id = registry.create_job(JobType::Summary, 100);
    registry.update_progress_with_percent(&job_id, "generating", "50% done", 50.0, 101);
    let job = registry.get_job(&job_id).unwrap();
    assert_eq!(job.progress.len(), 1);
    assert_eq!(job.progress[0].percent, Some(50.0));
}

#[test]
fn test_complete_job_sets_completed() {
    let mut registry = table();
    let job_id = registry.create_job(JobType::Import, 100);
    registry.complete_job(&job_id, 101);
    let job = registry.get_job(&job_id).unwrap();
    assert_eq!(job.state, JobState::Completed);
    assert!(job.is_terminal());
}

#[test]
fn test_fail_job_sets_failed_with_error() {
    let mut registry = table();
    let job_id = registry.create_job(JobType::Import, 100);
    registry.fail_job(&job_id, "network error".to_string(), 101);
    let job = registry.get_job(&job_id).unwrap();
    assert_eq!(job.state, JobState::Failed);
    assert_eq!(job.error, Some("network error".to_string()));
    assert!(job.is_terminal());
}

#[test]
fn test_cancel_job_sets_cancelled() {
    let mut registry = table();
    let job_id = registry.create_job(JobType::Import, 100);
    assert!(registry.cancel_job(&job_id, 101));
    let job = registry.get_job(&job_id).unwrap();
    assert_eq!(job.state, JobState::Cancelled);
    assert!(job.is_terminal());
}

#[test]
fn test_cancel_terminal_job_returns_false() {
    let mut registry = table();
    let job_id = registry.create_job(JobType::Import, 100);
    registry.complete_job(&job_id, 101);
    assert!(!registry.cancel_job(&job_id, 102));
}

#[test]
fn test_set_meeting_id() {
    let mut registry = table();
    let job_id = registry.create_job(JobType::Import, 100);
    registry.set_meeting_id(&job_id, "meeting-123".to_string(), 101);
    let job = registry.get_job(&job_id).unwrap();
    assert_eq!(job.meeting_id, Some("meeting-123".to_string()));
}

#[test]
fn test_set_template() {
    let mut registry = table();
    let job_id = registry.create_job(JobType::Summary, 100);
    registry.set_template(&job_id, "full".to_string(), 101);
    let job = registry.get_job(&job_id).unwrap();
    assert_eq!(job.template, Some("full".to_string()));
}

#[test]
fn test_update_progress_ignored_after_terminal() {
    let mut registry = table();
    let job_id = registry.create_job(JobType::Import, 100);
    registry.complete_job(&job_id, 101);
    registry.update_progress(&job_id, ProgressEvent::new("transcribing", "late event", 102), 102);
    let job = registry.get_job(&job_id).unwrap();
    // Only the "completed" event from complete_job
    assert_eq!(job.progress.len(), 1);
}

#[test]
fn test_list_jobs_sorted_by_created_desc() {
    let mut registry = table();
    let id1 = registry.create_job(JobType::Import, 100);
    let id2 = registry.create_job(JobType::Import, 102);
    let list = registry.list_jobs();
    assert_eq!(list.len(), 2);
    assert_eq!(list[0].id, id2);
    assert_eq!(list[1].id, id1);
}

#[test]
fn test_progress_event_with_percent() {
    let event: ProgressEvent<f64> = ProgressEvent::new("transcribing", "50% done", 100).with_percent(50.0);
    assert_eq!(event.percent, Some(50.0));
}

#[test]
fn test_get_job_nonexistent() {
    let registry = table();
    assert!(registry.get_job("nonexistent").is_none());
}

#[test]
fn completed_job_records_final_event() {
    let mut registry = table();
    let job_id = registry.create_job(JobType::Import, 100);
    assert!(registry.complete_job(&job_id, 105));
    let job = registry.get_job(&job_id).unwrap();
    assert_eq!(job.progress.len(), 1);
    assert_eq!(job.progress[0].stage, "completed");
    assert_eq!(job.progress[0].message, "Job completed successfully");
    assert_eq!(job.updated_at, 105);
    assert_eq!(job.created_at, 100);
}

#[test]
fn failed_job_message_names_error() {
    let mut registry = table();
    let job_id = registry.create_job(JobType::Import, 100);
    registry.fail_job(&job_id, "disk full".to_string(), 101);
    let job = registry.get_job(&job_id).unwrap();
    assert_eq!(job.progress[0].stage, "failed");
    assert_eq!(job.progress[0].message, "Job failed: disk full");
}

#[test]
fn finished_job_stays_finished() {
    let mut registry = table();
    let job_id = registry.create_job(JobType::Import, 100);
    registry.fail_job(&job_id, "x".to_string(), 101);
    assert!(!registry.cancel_job(&job_id, 102));
    assert!(!registry.update_progress(&job_id, ProgressEvent::new("s", "m", 103), 103));
    assert_eq!(registry.get_job_state(&job_id), Some(JobState::Failed));
    assert!(!registry.can_cancel(&job_id));
}

#[test]
fn unknown_job_operations_report_absence() {
    let mut registry = table();
    assert!(!registry.complete_job("nope", 1));
    assert!(!registry.fail_job("nope", "e".to_string(), 1));
    assert!(!registry.cancel_job("nope", 1));
    assert_eq!(registry.get_job_state("nope"), None);
    assert!(registry.list_jobs().is_empty());
}

#[test]
fn job_ids_are_distinct() {
    let mut registry = table();
    let a = registry.create_job(JobType::Import, 1);
    let b = registry.create_job(JobType::Summary, 1);
    assert_ne!(a, b);
    assert_eq!(registry.list_jobs().len(), 2);
}
