use file_io::{cd, CdGuard, WorkingDir};

#[test]
fn guard_switches_then_restores() {
    let mut wd = WorkingDir::new("/home/user/project".to_string());
    let guard = cd(&mut wd, "/home/user/project/src");
    assert_eq!(wd.current(), "/home/user/project/src");
    assert_eq!(guard.original_cwd(), "/home/user/project");
    guard.restore(&mut wd);
    assert_eq!(wd.current(), "/home/user/project");
}

#[test]
fn guard_restores_whatever_happened_inside() {
    let mut wd = WorkingDir::new("/start".to_string());
    let guard = CdGuard::new(&mut wd, "/tmp/subfolder");
    let stray = cd(&mut wd, "/somewhere/else");
    drop(stray);
    assert_eq!(wd.current(), "/somewhere/else");
    guard.restore(&mut wd);
    assert_eq!(wd.current(), "/start");
}

#[test]
fn nested_guards_restore_in_turn() {
    let mut wd = WorkingDir::new("/a".to_string());
    let outer = cd(&mut wd, "/b");
    let inner = cd(&mut wd, "/c");
    assert_eq!(wd.current(), "/c");
    inner.restore(&mut wd);
    assert_eq!(wd.current(), "/b");
    outer.restore(&mut wd);
    assert_eq!(wd.current(), "/a");
}
