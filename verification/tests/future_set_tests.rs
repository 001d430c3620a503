use egui_multiwin::future_set::{
    FuturesHashSet, FuturesHashSetAll, FuturesHashSetFirst, FuturesHashSetInternal,
};

#[test]
fn handles_are_assigned_upward_from_one() {
    let mut s: FuturesHashSetInternal<i32, ()> = FuturesHashSetInternal::new();
    let h1 = s.add_future(10);
    let h2 = s.add_future(20);
    let h3 = s.add_future(30);
    assert_eq!(h1, 1);
    assert_eq!(h2, 2);
    assert_eq!(h3, 3);
    assert_eq!(s.len(), 3);
}

#[test]
fn live_handles_never_collide() {
    let mut s: FuturesHashSetInternal<i32, ()> = FuturesHashSetInternal::new();
    let mut handles = Vec::new();
    for k in 0..20 {
        handles.push(s.add_future(k));
        if k % 3 == 0 {
            let victim = handles[handles.len() / 2];
            s.remove_future(victim);
            handles.retain(|&h| h != victim);
        }
    }
    for a in 0..handles.len() {
        for b in 0..handles.len() {
            if a != b {
                assert_ne!(handles[a], handles[b]);
            }
        }
    }
}

#[test]
fn handle_search_skips_live_handles_after_removal() {
    let mut s: FuturesHashSetInternal<i32, ()> = FuturesHashSetInternal::new();
    let h1 = s.add_future(1);
    let h2 = s.add_future(2);
    let h3 = s.add_future(3);
    assert_eq!((h1, h2, h3), (1, 2, 3));
    // Dropping the middle handle does not move the search backwards.
    s.remove_future(h2);
    assert_eq!(s.add_future(4), 4);
    assert_eq!(s.len(), 3);
}

#[test]
fn remove_future_is_idempotent() {
    let mut s: FuturesHashSetInternal<i32, ()> = FuturesHashSetInternal::new();
    let h = s.add_future(5);
    assert_eq!(s.len(), 1);
    s.remove_future(99);
    assert_eq!(s.len(), 1);
    s.remove_future(h);
    assert_eq!(s.len(), 0);
    s.remove_future(h);
    assert_eq!(s.len(), 0);
}

#[test]
fn ops_can_be_polled_in_place() {
    let mut s: FuturesHashSetInternal<i32, ()> = FuturesHashSetInternal::new();
    s.add_future(41);
    {
        let op = s.op_at_mut(0);
        *op += 1;
    }
    assert_eq!(*s.op_at_mut(0), 42);
    assert_eq!(s.handle_at(0), 1);
}

#[test]
fn all_resolves_once_after_every_op_completed() {
    let mut all: FuturesHashSetAll<&'static str, &'static str> = FuturesHashSetAll::new();
    all.get().add_future("a");
    all.get().add_future("b");
    all.get().add_future("c");
    // First turn: only the middle operation completes.
    let r1 = all.poll_step(&vec![false, true, false], vec!["b"]);
    assert!(r1.is_none());
    assert_eq!(all.get().len(), 2);
    // A turn with nothing ready stays pending.
    let r2 = all.poll_step(&vec![false, false], vec![]);
    assert!(r2.is_none());
    // Final turn: the rest complete; the list is in completion order.
    let r3 = all.poll_step(&vec![true, true], vec!["a", "c"]);
    assert_eq!(r3, Some(vec!["b", "a", "c"]));
    assert_eq!(all.get().len(), 0);
    // Resolution is idempotent: an empty turn returns the same list again.
    let r4 = all.poll_step(&vec![], vec![]);
    assert_eq!(r4, Some(vec!["b", "a", "c"]));
}

#[test]
fn all_with_three_staggered_ops_yields_three_results() {
    let mut all: FuturesHashSetAll<u8, u8> = FuturesHashSetAll::new();
    for k in 0..3u8 {
        all.get().add_future(k);
    }
    let mut resolved = None;
    let turns: [(Vec<bool>, Vec<u8>); 3] =
        [(vec![true, false, false], vec![7]), (vec![false, true], vec![9]), (vec![true], vec![8])];
    for (ready, results) in turns {
        resolved = all.poll_step(&ready, results);
    }
    let list = resolved.expect("all ops done");
    assert_eq!(list.len(), 3);
    assert_eq!(list, vec![7, 9, 8]);
}

#[test]
fn first_resolves_with_the_single_ready_op_and_keeps_the_rest() {
    let first: FuturesHashSetFirst<i32, i32> = {
        let mut f = FuturesHashSetFirst::new();
        f.get().add_future(100);
        f.get().add_future(200);
        f.get().add_future(300);
        f
    };
    let mut first = first;
    let r = first.poll_step(&mut vec![None, Some(7), None]);
    assert_eq!(r, Some(7));
    // Everything stays registered; further polling has no further effect.
    assert_eq!(first.get().len(), 3);
    let r2 = first.poll_step(&mut vec![None, None, None]);
    assert_eq!(r2, None);
    assert_eq!(first.get().len(), 3);
}

#[test]
fn first_with_nothing_registered_stays_pending() {
    let first: FuturesHashSetFirst<i32, i32> = FuturesHashSetFirst::new();
    let mut first = first;
    assert_eq!(first.poll_step(&mut vec![]), None);
}

#[test]
fn stream_yields_one_result_per_poll_turn() {
    let mut stream: FuturesHashSet<&'static str, &'static str> = FuturesHashSet::new();
    stream.get().add_future("a");
    stream.get().add_future("b");
    stream.get().add_future("c");
    // Each turn surfaces at most the first completed operation.
    let y1 = stream.poll_next_step(1, Some("b"));
    assert_eq!(y1, Some("b"));
    assert_eq!(stream.get().len(), 2);
    let y2 = stream.poll_next_step(0, Some("a"));
    assert_eq!(y2, Some("a"));
    assert_eq!(stream.get().len(), 1);
    let y3 = stream.poll_next_step(0, Some("c"));
    assert_eq!(y3, Some("c"));
    assert_eq!(stream.get().len(), 0);
    // Exactly three yields for three operations; afterwards it pends.
    let y4 = stream.poll_next_step(0, None);
    assert_eq!(y4, None);
    assert_eq!(stream.get().len(), 0);
}

#[test]
fn stream_is_restartable_by_registration() {
    let mut stream: FuturesHashSet<u8, u8> = FuturesHashSet::new();
    stream.get().add_future(1);
    assert_eq!(stream.poll_next_step(0, Some(10)), Some(10));
    assert_eq!(stream.poll_next_step(0, None), None);
    // Registering more work revives the stream.
    stream.get().add_future(2);
    assert_eq!(stream.get().len(), 1);
    assert_eq!(stream.poll_next_step(0, Some(20)), Some(20));
    assert_eq!(stream.get().len(), 0);
}

#[test]
fn gathered_results_survive_between_turns() {
    let mut all: FuturesHashSetAll<i32, i32> = FuturesHashSetAll::new();
    all.get().add_future(0);
    all.get().add_future(0);
    assert!(all.poll_step(&vec![true, false], vec![5]).is_none());
    // New work registered mid-flight joins the same accumulator.
    all.get().add_future(0);
    assert!(all.poll_step(&vec![false, true], vec![6]).is_none());
    assert_eq!(all.poll_step(&vec![true], vec![4]), Some(vec![5, 6, 4]));
}
