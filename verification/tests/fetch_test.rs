use oxirast::fetch::{fetch_state, initial_fetch_state, FetchOutcome};
use oxirast::vdom::{mount_mode, MountMode};

#[test]
fn fetch_starts_loading() {
    let s = initial_fetch_state::<u32>();
    assert_eq!((s.data, s.loading, s.error), (None, true, None));
}

#[test]
fn fetch_outcomes() {
    let s = fetch_state(FetchOutcome::Data(7u32));
    assert_eq!((s.data, s.loading, s.error), (Some(7), false, None));
    let s = fetch_state(FetchOutcome::<u32>::ParseError);
    assert_eq!((s.data, s.loading, s.error), (None, false, Some("Parse Error".to_string())));
    let s = fetch_state(FetchOutcome::<u32>::RequestError("timed out".to_string()));
    assert_eq!((s.data, s.loading, s.error), (None, false, Some("timed out".to_string())));
}

#[test]
fn hydrate_only_on_first_load_over_server_html() {
    assert_eq!(mount_mode(true, true), MountMode::Hydrate);
    assert_eq!(mount_mode(true, false), MountMode::Replace);
    assert_eq!(mount_mode(false, true), MountMode::Replace);
    assert_eq!(mount_mode(false, false), MountMode::Replace);
}
