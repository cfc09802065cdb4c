use jp2tw_captioner::translate::{Action, TranslateError, Translation};

/// Drives a run to its end: `bulk` answers bulk requests for `start..end`,
/// `single` answers single-line requests.  Returns the outcome with the
/// number of bulk and single-line requests made.
fn drive(
    n: usize,
    batch: usize,
    bulk: impl Fn(usize, usize) -> Option<Vec<String>>,
    single: impl Fn(usize) -> String,
) -> (Result<Vec<String>, TranslateError>, usize, usize, Vec<(usize, usize)>) {
    let mut t = Translation::new(n, batch);
    let (mut bulk_calls, mut single_calls) = (0, 0);
    let mut ranges = Vec::new();
    loop {
        match t.next_action() {
            Action::Bulk { start, end } => {
                bulk_calls += 1;
                ranges.push((start, end));
                t.on_bulk(bulk(start, end));
            }
            Action::Single { index } => {
                single_calls += 1;
                t.on_single(single(index));
            }
            Action::Finished => break,
        }
    }
    (t.finish(), bulk_calls, single_calls, ranges)
}

fn lines(n: usize) -> Vec<String> {
    (0..n).map(|i| format!("line{}", i)).collect()
}

#[test]
fn bisection_of_two_lines() {
    let src = vec!["おはよう".to_string(), "こんにちは".to_string()];
    let mut t = Translation::new(src.len(), 2);
    assert_eq!(t.next_action(), Action::Bulk { start: 0, end: 2 });
    t.on_bulk(Some(vec!["早安".to_string()]));
    assert_eq!(t.next_action(), Action::Bulk { start: 0, end: 1 });
    t.on_bulk(None);
    assert_eq!(t.next_action(), Action::Single { index: 0 });
    t.on_single("早安".to_string());
    assert_eq!(t.next_action(), Action::Bulk { start: 1, end: 2 });
    t.on_bulk(Some(vec![]));
    assert_eq!(t.next_action(), Action::Single { index: 1 });
    t.on_single("你好".to_string());
    assert_eq!(t.next_action(), Action::Finished);
    let out = t.finish().unwrap();
    assert_eq!(out, vec!["早安", "你好"]);
    assert_eq!(out.len(), src.len());
}

#[test]
fn all_bulk_succeed_keeps_order() {
    for n in 1..=13 {
        for batch in 1..=6 {
            let src = lines(n);
            let (r, bulk_calls, singles, ranges) = drive(
                n,
                batch,
                |s, e| Some(src[s..e].iter().map(|l| format!("T:{}", l)).collect()),
                |_| panic!("no single-line request expected"),
            );
            let out = r.unwrap();
            assert_eq!(out.len(), n);
            for (i, t) in out.iter().enumerate() {
                assert_eq!(t, &format!("T:line{}", i));
            }
            assert_eq!(bulk_calls, (n + batch - 1) / batch);
            assert_eq!(singles, 0);
            assert!(ranges.iter().all(|(s, e)| e - s <= batch && s % batch == 0));
        }
    }
}

#[test]
fn all_bulk_fail_resolves_every_line_alone() {
    for n in 1..=17 {
        for batch in [1usize, 2, 3, 4, 8, 60] {
            let (r, bulk_calls, singles, _) =
                drive(n, batch, |s, e| Some(vec!["x".to_string(); e - s + 1]), |i| format!("S{}", i));
            let out = r.unwrap();
            let expected: Vec<String> = (0..n).map(|i| format!("S{}", i)).collect();
            assert_eq!(out, expected);
            assert_eq!(singles, n);
            let windows = (n + batch - 1) / batch;
            assert_eq!(bulk_calls, 2 * n - windows);
            assert!(bulk_calls <= 2 * n - 1);
        }
    }
}

#[test]
fn mixed_replies_fill_by_absolute_index() {
    let n = 7;
    let src = lines(n);
    let (r, _, singles, _) = drive(
        n,
        7,
        |s, e| {
            if e - s > 2 || (s <= 4 && 4 < e) {
                None
            } else {
                Some(src[s..e].iter().map(|l| l.to_uppercase()).collect())
            }
        },
        |i| format!("single{}", i),
    );
    let out = r.unwrap();
    assert_eq!(out, vec!["LINE0", "LINE1", "LINE2", "LINE3", "single4", "LINE5", "LINE6"]);
    assert_eq!(singles, 1);
}

#[test]
fn empty_input_finishes_at_once() {
    let t = Translation::new(0, 5);
    assert_eq!(t.next_action(), Action::Finished);
    assert_eq!(t.finish(), Ok(vec![]));
}

#[test]
fn zero_batch_size_counts_as_one() {
    let t = Translation::new(3, 0);
    assert_eq!(t.next_action(), Action::Bulk { start: 0, end: 1 });
}

#[test]
fn finishing_early_names_first_missing_line() {
    let mut t = Translation::new(4, 2);
    assert_eq!(t.finish(), Err(TranslateError::Incomplete { index: 0 }));
    t.on_bulk(Some(vec!["a".to_string(), "b".to_string()]));
    assert_eq!(t.next_action(), Action::Bulk { start: 2, end: 4 });
    assert_eq!(t.finish(), Err(TranslateError::Incomplete { index: 2 }));
}
