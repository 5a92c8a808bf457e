use netscope::capture::LinkType;
use netscope::dissect::worker::{Batcher, Event, Step, BATCH};
use netscope::dissect::Options;
use netscope::synthetic::raw_frame;

#[test]
fn frames_are_numbered_in_the_order_they_arrive() {
    let mut b = Batcher::new(LinkType::ethernet(), Options::default(), 7);
    assert!(matches!(b.step(Event::Idle), Step::Wait));
    assert!(matches!(b.step(Event::Frame(raw_frame(0))), Step::Poll));
    assert!(matches!(b.step(Event::Frame(raw_frame(1))), Step::Poll));
    let Step::Append(batch) = b.step(Event::Idle) else {
        panic!("two frames are on their way");
    };
    let numbers: Vec<u32> = batch.iter().map(|f| f.number).collect();
    assert_eq!(numbers, [7, 8]);
    assert!(matches!(b.step(Event::Idle), Step::Wait));
}

#[test]
fn a_full_batch_is_handed_on_at_once() {
    let mut b = Batcher::new(LinkType::ethernet(), Options::default(), 1);
    for i in 1..BATCH {
        assert!(matches!(b.step(Event::Frame(raw_frame(i as u64))), Step::Poll));
    }
    let Step::Append(batch) = b.step(Event::Frame(raw_frame(0))) else {
        panic!("the batch is full");
    };
    assert_eq!(batch.len(), BATCH);
}

#[test]
fn nothing_is_lost_when_the_capture_ends() {
    let mut b = Batcher::new(LinkType::ethernet(), Options::default(), u32::MAX);
    b.step(Event::Frame(raw_frame(0)));
    b.step(Event::Frame(raw_frame(1)));
    let Step::Append(batch) = b.step(Event::Closed) else {
        panic!("two frames are on their way");
    };
    let numbers: Vec<u32> = batch.iter().map(|f| f.number).collect();
    assert_eq!(numbers, [u32::MAX, 0], "numbering starts over");
    assert!(matches!(b.step(Event::Closed), Step::Stop));
}
