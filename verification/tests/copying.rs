use genpack_install::backend::Ratio;
use genpack_install::copying::{CopyAction, CopyReply, ImageCopy, COUNT_LIMIT};

/// Copies an image in pieces of the given sizes, and gives the result and what was shown.
fn copy(size: u64, pieces: &[u64]) -> (Result<(), String>, Vec<(u64, u64)>) {
    let mut c = ImageCopy::new("/b/a.squashfs", "/m/system.img", size);
    let mut shown = Vec::new();
    let mut next = 0;
    let mut written = 0;
    loop {
        let reply = match c.request() {
            CopyAction::Open | CopyAction::Create | CopyAction::Flush => CopyReply::Outcome(Ok(())),
            CopyAction::Report(Ratio { done, whole }) => {
                assert!(whole > 0);
                shown.push((done, whole));
                CopyReply::Shown
            }
            CopyAction::Read => {
                next += 1;
                CopyReply::Bytes(Ok(if next <= pieces.len() { pieces[next - 1] } else { 0 }))
            }
            CopyAction::Write => {
                written += pieces[next - 1];
                CopyReply::Outcome(Ok(()))
            }
            CopyAction::Finish(r) => {
                if r.is_ok() {
                    assert_eq!(written, pieces.iter().sum::<u64>());
                }
                return (r, shown);
            }
        };
        assert!(c.can_count(&reply));
        c.answer(reply);
    }
}

#[test]
fn copy_shows_each_percentage_once() {
    let (r, shown) = copy(1000, &[4, 4, 4, 500, 3, 485]);
    assert_eq!(r, Ok(()));
    assert_eq!(
        shown,
        [(0, 1), (4, 1000), (12, 1000), (512, 1000), (1000, 1000), (1, 1)]
    );
    assert!(shown.iter().all(|(done, whole)| done <= whole));
    let (_, shown) = copy(100_000, &[10; 10_000]);
    assert_eq!(shown.len(), 103);
    for pair in shown[1..shown.len() - 1].windows(2) {
        assert!(pair[0].0 * 100 / pair[0].1 < pair[1].0 * 100 / pair[1].1);
    }
}

#[test]
fn empty_image_is_copied() {
    assert_eq!(copy(0, &[]), (Ok(()), vec![(0, 1), (1, 1)]));
}

#[test]
fn image_that_grows_is_copied() {
    let (r, shown) = copy(0, &[7]);
    assert_eq!(r, Ok(()));
    assert_eq!(shown, [(0, 1), (7, 1), (1, 1)]);
}

fn fail_at(step: usize) -> String {
    let mut c = ImageCopy::new("from", "to", 10);
    let mut n = 0;
    loop {
        let failed = n == step;
        n += 1;
        let e = "gone".to_string();
        let reply = match c.request() {
            CopyAction::Report(_) => CopyReply::Shown,
            CopyAction::Read => {
                if failed {
                    CopyReply::Bytes(Err(e))
                } else {
                    CopyReply::Bytes(Ok(if n < 6 { 10 } else { 0 }))
                }
            }
            CopyAction::Finish(r) => return r.unwrap_err(),
            _ => CopyReply::Outcome(if failed { Err(e) } else { Ok(()) }),
        };
        c.answer(reply);
    }
}

#[test]
fn copy_tells_what_failed() {
    assert_eq!(fail_at(0), "open from: gone");
    assert_eq!(fail_at(1), "create to: gone");
    assert_eq!(fail_at(3), "read from: gone");
    assert_eq!(fail_at(4), "write to: gone");
    assert_eq!(fail_at(7), "flush to: gone");
}

#[test]
fn count_has_a_limit() {
    let mut c = ImageCopy::new("from", "to", 10);
    c.answer(CopyReply::Outcome(Ok(())));
    c.answer(CopyReply::Outcome(Ok(())));
    c.answer(CopyReply::Shown);
    assert!(c.can_count(&CopyReply::Bytes(Ok(COUNT_LIMIT))));
    assert!(!c.can_count(&CopyReply::Bytes(Ok(COUNT_LIMIT + 1))));
    assert_eq!(COUNT_LIMIT, u64::MAX / 100);
}

#[test]
fn stray_copy_reply_is_an_error() {
    let mut c = ImageCopy::new("from", "to", 10);
    c.answer(CopyReply::Shown);
    assert!(matches!(c.request(), CopyAction::Finish(Err(e)) if e == "unexpected reply"));
}
