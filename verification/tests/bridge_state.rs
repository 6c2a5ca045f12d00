use sheldrive::bridge::{pipe_failure_error, rpc_outcome, PipeFailure, RequestIds, RestartPolicy};
use sheldrive::state::{AppStatus, MountStatus};

#[test]
fn replies_become_results() {
    assert_eq!(rpc_outcome::<u32>(None, Some(7)), Ok(7));
    assert_eq!(
        rpc_outcome::<u32>(Some((-32601, "Method not found".to_string())), Some(7)),
        Err("Sidecar error [-32601]: Method not found".to_string())
    );
    assert_eq!(rpc_outcome::<u32>(None, None), Err("Sidecar returned null result".to_string()));
}

#[test]
fn request_ids_count_from_one() {
    let mut ids = RequestIds::new();
    assert_eq!(ids.take(), 1);
    assert_eq!(ids.take(), 2);
}

#[test]
fn restarts_stop_after_three() {
    let mut p = RestartPolicy::new();
    assert_eq!(p.on_dead(), Ok(1));
    assert_eq!(p.on_dead(), Ok(2));
    assert_eq!(p.on_dead(), Ok(3));
    assert_eq!(
        p.on_dead(),
        Err("Sidecar crashed 3 times \u{2014} not restarting. Restart the app.".to_string())
    );
    p.reset();
    assert_eq!(p.on_dead(), Ok(1));
}

#[test]
fn mount_status_moves() {
    let mut s = AppStatus::new("/mnt/sheldrive".to_string());
    assert_eq!(s.mount_status, MountStatus::Disconnected);
    assert!(s.needs_mount());
    assert!(!s.needs_unmount());
    s.begin_fuse_install();
    assert_eq!(s.mount_status, MountStatus::Connecting);
    assert_eq!(s.error_message.as_deref(), Some("Installing FUSE-T..."));
    s.fuse_install_failed("no network");
    assert_eq!(s.mount_status, MountStatus::Error);
    assert_eq!(
        s.error_message.as_deref(),
        Some("Failed to install FUSE-T: no network. Install manually: brew install --cask fuse-t")
    );
    s.fuse_installed();
    assert!(s.error_message.is_none());
    s.mounted();
    assert!(!s.needs_mount());
    s.mount_failed("busy".to_string());
    assert_eq!(s.error_message.as_deref(), Some("busy"));
    s.unmounted();
    assert_eq!(s.mount_status, MountStatus::Disconnected);
    assert_eq!(s.mount_point, "/mnt/sheldrive");
}

#[test]
fn pipe_failures_name_their_step() {
    assert_eq!(pipe_failure_error(PipeFailure::Write("EPIPE".to_string())), "Sidecar pipe broken: EPIPE");
    assert_eq!(pipe_failure_error(PipeFailure::Flush("x".to_string())), "Sidecar flush failed: x");
    assert_eq!(pipe_failure_error(PipeFailure::Closed), "Sidecar closed unexpectedly");
    assert_eq!(pipe_failure_error(PipeFailure::Read("y".to_string())), "Sidecar read failed: y");
}
