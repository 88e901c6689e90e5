use genpack_install::terminal::{
    is_drawable, new_grid, terminal_area, KeyRepeat, Shell, ShellAction, Shown,
};

/// The ticks, counted from one, on which a key is repeated.
fn fired(r: &mut KeyRepeat, ticks: u32) -> Vec<u32> {
    let mut on = Vec::new();
    for n in 1..=ticks {
        if let Some(bytes) = r.tick() {
            assert_eq!(bytes, b"a");
            on.push(n);
        }
    }
    on
}

#[test]
fn held_key_repeats() {
    let mut r = KeyRepeat::new();
    assert!(fired(&mut r, 50).is_empty());
    r.press("a", b"a".to_vec());
    assert_eq!(fired(&mut r, 40), [22, 25, 28, 31, 34, 37, 40]);
    r.release("b");
    assert_eq!(fired(&mut r, 4), [3]);
    r.release("a");
    assert!(fired(&mut r, 50).is_empty());
    r.press("a", b"a".to_vec());
    r.stop();
    assert!(fired(&mut r, 50).is_empty());
}

#[test]
fn key_that_sends_nothing_is_not_repeated() {
    let mut r = KeyRepeat::new();
    r.press("a", Vec::new());
    assert!(fired(&mut r, 50).is_empty());
}

#[test]
fn repeat_of_the_platform_is_left_alone() {
    let mut r = KeyRepeat::new();
    r.press("a", b"a".to_vec());
    r.press("b", b"a".to_vec());
    assert_eq!(fired(&mut r, 22), [22]);
    r.press("b", b"a".to_vec());
    assert!(fired(&mut r, 100).is_empty());
    r.release("b");
    r.press("a", b"a".to_vec());
    assert!(fired(&mut r, 100).is_empty());
}

#[test]
fn another_key_starts_the_delay_anew() {
    let mut r = KeyRepeat::new();
    r.press("b", b"b".to_vec());
    for _ in 0..20 {
        assert!(r.tick().is_none());
    }
    r.press("a", b"a".to_vec());
    assert_eq!(fired(&mut r, 24), [22]);
}

#[test]
fn shell_runs_only_on_its_page() {
    let mut s = Shell::new();
    assert_eq!(s.begin(Shown::Disks), ShellAction::Rest);
    assert_eq!(s.begin(Shown::Terminal), ShellAction::Open);
    assert_eq!(s.opened(false, Shown::Terminal), Shown::Disks);
    assert_eq!(s.begin(Shown::Terminal), ShellAction::Open);
    s.press("a", b"a".to_vec());
    assert_eq!(s.opened(true, Shown::Terminal), Shown::Terminal);
    for _ in 0..50 {
        assert!(s.tick().is_none());
    }
    assert_eq!(s.driven(Shown::Terminal), ShellAction::Drive);
    assert_eq!(s.begin(Shown::Terminal), ShellAction::Drive);
    s.press("a", b"a".to_vec());
    assert_eq!(s.begin(Shown::Other), ShellAction::Close);
    assert_eq!(s.begin(Shown::Disks), ShellAction::Rest);
    assert!((0..50).all(|_| s.tick().is_none()));
    s.begin(Shown::Terminal);
    s.opened(true, Shown::Terminal);
    s.press("b", b"a".to_vec());
    s.release("b");
    s.press("c", b"c".to_vec());
    assert_eq!((0..22).filter_map(|_| s.tick()).collect::<Vec<_>>(), [b"c".to_vec()]);
    let page = s.exited();
    assert_eq!(page, Shown::Disks);
    assert_eq!(s.driven(page), ShellAction::Close);
    assert!((0..50).all(|_| s.tick().is_none()));
    assert_eq!(s.begin(Shown::Terminal), ShellAction::Open);
}

#[test]
fn terminal_fills_what_is_below_the_header() {
    assert_eq!(terminal_area(1920, 1080, 84), (1920, 996));
    assert_eq!(terminal_area(1920, 50, 84), (1920, 0));
    assert!(is_drawable((1, 1)));
    assert!(!is_drawable((0, 1)));
    assert!(!is_drawable((1, 0)));
    assert_eq!(new_grid((100, 30), (80, 24)), Some((100, 30)));
    assert_eq!(new_grid((80, 30), (80, 24)), Some((80, 30)));
    assert_eq!(new_grid((80, 24), (80, 24)), None);
    assert_eq!(new_grid((0, 24), (80, 24)), None);
    assert_eq!(new_grid((80, 0), (80, 24)), None);
}
