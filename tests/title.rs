use ttymon::title::make_window_title;

#[test]
fn cwd_under_home_is_abbreviated() {
    let t = make_window_title("/home/u", "/home/u/src", "bash", None, "ttymon");
    assert_eq!(t, "~/src - bash - ttymon");
    assert!(!t.contains("/home/u"));
}

#[test]
fn cwd_equal_to_home() {
    assert_eq!(make_window_title("/home/u/", "/home/u", "bash", None, "x"), "~/ - bash - x");
}

#[test]
fn cwd_outside_home_is_kept() {
    assert_eq!(
        make_window_title("/home/u", "/home/user2/src", "vim", None, "x"),
        "/home/user2/src - vim - x"
    );
    assert_eq!(make_window_title("/home/u", "/tmp", "vim", None, "x"), "/tmp - vim - x");
}

#[test]
fn container_name_leads_the_title() {
    let t = make_window_title("/home/u", "/home/u", "bash", Some("dev"), "ttymon");
    assert!(t.starts_with("dev - "));
    assert_eq!(t, "dev - ~/ - bash - ttymon");
}
