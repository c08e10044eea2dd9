use signals::{Event, Filter, Iter, MapStage, Sink};
use std::cell::Cell;
use std::rc::Rc;

type IntSink = Sink<i32, fn(i32) -> i32, fn(&i32) -> bool>;

#[test]
fn sink() {
    let mut sink: IntSink = Sink::new();
    let iter = sink.iter();
    sink.send(1);
    sink.send(2);
    assert_eq!(iter.next(&mut sink), Some(1));
    assert_eq!(iter.next(&mut sink), Some(2));
}

#[test]
fn map() {
    let mut sink: IntSink = Sink::new();
    let triple = sink.map(|x| 3 * x);
    let iter = triple.iter(&mut sink);
    sink.send(1);
    assert_eq!(iter.next(&mut sink), Some(3));
}

#[test]
fn filter() {
    let mut sink: IntSink = Sink::new();
    let small = sink.filter(|&x: &i32| x < 11);
    let iter = small.iter(&mut sink);
    sink.send(12);
    sink.send(9);
    assert_eq!(iter.next(&mut sink), Some(9));
}

#[test]
fn sends_come_out_in_order() {
    let mut sink: IntSink = Sink::new();
    let iter = sink.iter();
    let values = vec![5, -3, 0, 5, 42, i32::MAX, i32::MIN];
    for v in values.iter() {
        sink.send(*v);
    }
    for v in values.iter() {
        assert_eq!(iter.next(&mut sink), Some(*v));
    }
    assert_eq!(iter.next(&mut sink), None);
}

#[test]
fn empty_pull_stage_returns_none() {
    let mut sink: IntSink = Sink::new();
    let iter = sink.iter();
    assert_eq!(iter.next(&mut sink), None);
    sink.send(7);
    assert_eq!(iter.next(&mut sink), Some(7));
    assert_eq!(iter.next(&mut sink), None);
}

#[test]
fn values_sent_before_attaching_are_not_seen() {
    let mut sink: IntSink = Sink::new();
    sink.send(1);
    let iter = sink.iter();
    sink.send(2);
    assert_eq!(iter.next(&mut sink), Some(2));
    assert_eq!(iter.next(&mut sink), None);
}

#[test]
fn map_applies_function_to_each_value() {
    let mut sink: IntSink = Sink::new();
    let neg = sink.map(|x| -x + 1);
    let iter = neg.iter(&mut sink);
    sink.send(10);
    sink.send(-4);
    assert_eq!(iter.next(&mut sink), Some(-9));
    assert_eq!(iter.next(&mut sink), Some(5));
}

#[test]
fn filter_drops_rejected_and_keeps_order() {
    let mut sink: IntSink = Sink::new();
    let even = sink.filter(|x: &i32| x % 2 == 0);
    let iter = even.iter(&mut sink);
    for v in 1..=6 {
        sink.send(v);
    }
    assert_eq!(iter.next(&mut sink), Some(2));
    assert_eq!(iter.next(&mut sink), Some(4));
    assert_eq!(iter.next(&mut sink), Some(6));
    assert_eq!(iter.next(&mut sink), None);
}

#[test]
fn filter_lets_accepted_value_through() {
    let mut sink: IntSink = Sink::new();
    let small = sink.filter(|&x: &i32| x < 11);
    let iter = small.iter(&mut sink);
    sink.send(10);
    assert_eq!(iter.next(&mut sink), Some(10));
}

#[test]
fn sibling_maps_each_see_every_value() {
    let mut sink: IntSink = Sink::new();
    let double = sink.map(|x| 2 * x);
    let plus = sink.map(|x| x + 100);
    let a = double.iter(&mut sink);
    let b = plus.iter(&mut sink);
    sink.send(1);
    sink.send(2);
    assert_eq!(a.next(&mut sink), Some(2));
    assert_eq!(a.next(&mut sink), Some(4));
    assert_eq!(b.next(&mut sink), Some(101));
    assert_eq!(b.next(&mut sink), Some(102));
    assert_eq!(a.next(&mut sink), None);
    assert_eq!(b.next(&mut sink), None);
}

#[test]
fn two_pull_stages_on_one_stage_are_independent() {
    let mut sink: IntSink = Sink::new();
    let a = sink.iter();
    let b = sink.iter();
    sink.send(3);
    assert_eq!(a.next(&mut sink), Some(3));
    assert_eq!(a.next(&mut sink), None);
    assert_eq!(b.next(&mut sink), Some(3));
}

#[test]
fn chained_stages_compose() {
    let mut sink: IntSink = Sink::new();
    let triple: MapStage = sink.map(|x| 3 * x);
    let big: Filter = triple.filter(&mut sink, |x: &i32| *x > 10);
    let shifted: MapStage = big.map(&mut sink, |x| x - 1);
    let iter: Iter = shifted.iter(&mut sink);
    for v in 1..=5 {
        sink.send(v);
    }
    assert_eq!(iter.next(&mut sink), Some(11));
    assert_eq!(iter.next(&mut sink), Some(14));
    assert_eq!(iter.next(&mut sink), None);
}

#[test]
fn dropped_pull_stage_receives_nothing() {
    let mut sink: IntSink = Sink::new();
    let kept = sink.iter();
    let dropped = sink.iter();
    sink.send(1);
    drop(dropped);
    sink.send(2);
    assert_eq!(kept.next(&mut sink), Some(1));
    assert_eq!(kept.next(&mut sink), Some(2));
    assert_eq!(kept.next(&mut sink), None);
}

#[test]
fn dropped_map_stops_its_downstream() {
    let mut sink: IntSink = Sink::new();
    let triple = sink.map(|x| 3 * x);
    let iter = triple.iter(&mut sink);
    sink.send(1);
    drop(triple);
    sink.send(2);
    assert_eq!(iter.next(&mut sink), Some(3));
    assert_eq!(iter.next(&mut sink), None);
}

#[test]
fn dropped_filter_stops_its_downstream() {
    let mut sink: IntSink = Sink::new();
    let small = sink.filter(|&x: &i32| x < 11);
    let iter = small.iter(&mut sink);
    let other = sink.iter();
    drop(small);
    sink.send(5);
    assert_eq!(iter.next(&mut sink), None);
    assert_eq!(other.next(&mut sink), Some(5));
}

#[test]
fn dropped_map_is_not_called_and_not_kept() {
    let calls = Rc::new(Cell::new(0usize));
    let seen = Rc::clone(&calls);
    let mut sink: Sink<i32, Box<dyn Fn(i32) -> i32>, fn(&i32) -> bool> = Sink::new();
    let counted = sink.map(Box::new(move |x| {
        seen.set(seen.get() + 1);
        x + 1
    }));
    let iter = counted.iter(&mut sink);
    sink.send(1);
    assert_eq!(calls.get(), 1);
    assert_eq!(iter.next(&mut sink), Some(2));
    assert_eq!(Rc::strong_count(&calls), 2);
    drop(counted);
    sink.send(2);
    assert_eq!(calls.get(), 1);
    assert_eq!(Rc::strong_count(&calls), 1);
    assert_eq!(iter.next(&mut sink), None);
}

#[test]
fn handles_kept_alive_keep_stages() {
    let mut sink: IntSink = Sink::new();
    let plus = sink.map(|x| x + 1);
    let iter = plus.iter(&mut sink);
    for v in 0..3 {
        sink.send(v);
    }
    assert_eq!(iter.next(&mut sink), Some(1));
    assert_eq!(iter.next(&mut sink), Some(2));
    assert_eq!(iter.next(&mut sink), Some(3));
}

#[test]
fn prune_vacates_only_unheld_stages() {
    let mut sink: IntSink = Sink::new();
    let a = sink.iter();
    let b = sink.iter();
    sink.deliver(4);
    sink.prune(&vec![true, true, false]);
    sink.deliver(5);
    assert_eq!(a.next(&mut sink), Some(4));
    assert_eq!(a.next(&mut sink), Some(5));
    assert_eq!(b.next(&mut sink), None);
}

#[test]
fn deliver_skips_nothing_while_all_held() {
    let mut sink: IntSink = Sink::new();
    let a = sink.iter();
    sink.prune(&vec![true, true]);
    sink.deliver(8);
    assert_eq!(a.next(&mut sink), Some(8));
}
