use container_logger::plugin_api::{
    classify_endpoint, sanitize_name, sink_path, Endpoint, LoggingRequestInfo,
};
use container_logger::registry::{Registry, SessionSlot};

fn info(container_name: Option<&str>, container_id: &str) -> LoggingRequestInfo {
    LoggingRequestInfo {
        container_id: container_id.to_string(),
        config: None,
        container_name: container_name.map(|s| s.to_string()),
        container_entrypoint: None,
        container_args: None,
        container_image_id: None,
        container_image_name: None,
        container_created: None,
        container_env: None,
        container_labels: None,
        log_path: None,
        daemon_name: None,
    }
}

#[test]
fn start_stop_scenario() {
    // Start(file="/tmp/f1", containerName="web", containerId="abc123")
    let path = sink_path(&info(Some("web"), "abc123"));
    assert_eq!(path, "/core/container_logs_web_abc123");

    let mut registry: Registry<u32> = Registry::new();
    let id = String::from("/tmp/f1");
    assert!(registry.reserve(&id));
    assert!(registry.install(&id, 7));

    // an immediate second start on the same id is refused
    assert!(!registry.reserve(&id));

    // Stop("/tmp/f1") finds the session; a second stop finds nothing
    assert!(matches!(registry.stop(&id), Some(SessionSlot::Active(7))));
    assert!(registry.stop(&id).is_none());
}

#[test]
fn reserve_is_mutually_exclusive() {
    let mut registry: Registry<u32> = Registry::new();
    let id = String::from("ctr");
    let first = registry.reserve(&id);
    let second = registry.reserve(&id);
    assert!(first);
    assert!(!second);
    // the losing start performs no I/O and leaves no entry behind it
    assert!(registry.contains(&id));
}

#[test]
fn stop_absent_id_changes_nothing() {
    let mut registry: Registry<u32> = Registry::new();
    let other = String::from("other");
    registry.reserve(&other);
    assert!(registry.stop(&String::from("absent")).is_none());
    assert!(registry.contains(&other));
    assert!(!registry.contains(&String::from("absent")));
}

#[test]
fn id_absent_immediately_after_stop() {
    let mut registry: Registry<u32> = Registry::new();
    let id = String::from("ctr");
    registry.reserve(&id);
    registry.install(&id, 1);
    assert!(registry.stop(&id).is_some());
    assert!(!registry.contains(&id));
}

#[test]
fn failed_start_releases_reservation() {
    let mut registry: Registry<u32> = Registry::new();
    let id = String::from("ctr");
    assert!(registry.reserve(&id));
    // opening the source or sink failed: the start releases its reservation
    assert!(matches!(registry.stop(&id), Some(SessionSlot::Reserved)));
    assert!(registry.reserve(&id));
}

#[test]
fn install_needs_a_reservation() {
    let mut registry: Registry<u32> = Registry::new();
    let id = String::from("ctr");
    assert!(!registry.install(&id, 1));
    registry.reserve(&id);
    assert!(registry.install(&id, 1));
    assert!(!registry.install(&id, 2));
    assert!(matches!(registry.stop(&id), Some(SessionSlot::Active(1))));
}

#[test]
fn sanitize_replaces_path_separators() {
    assert_eq!(sanitize_name("web/1"), "web_1");
    assert_eq!(sanitize_name("/a/b/"), "_a_b_");
    assert_eq!(sanitize_name("plain"), "plain");
    assert_eq!(sanitize_name(""), "");
}

#[test]
fn sink_path_defaults_placeholder_name() {
    let path = sink_path(&info(None, "abc123"));
    assert_eq!(path, "/core/container_logs_unnamed_abc123");
}

#[test]
fn sink_path_sanitizes_name() {
    let path = sink_path(&info(Some("proj/web"), "abc123"));
    assert_eq!(path, "/core/container_logs_proj_web_abc123");
}

#[test]
fn classify_endpoints() {
    assert_eq!(
        classify_endpoint(&String::from("/LogDriver.StartLogging")),
        Endpoint::StartLogging
    );
    assert_eq!(
        classify_endpoint(&String::from("/LogDriver.StopLogging")),
        Endpoint::StopLogging
    );
    assert_eq!(classify_endpoint(&String::from("/LogDriver.Other")), Endpoint::Unknown);
}
