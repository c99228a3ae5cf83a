use futures::sync::oneshot::Receiver;
use write_queue::{write_queue, Action, Event};

fn resolved(token: &mut Receiver<u32>) -> Option<u32> {
    token.try_recv().expect("the signal is alive or resolved")
}

#[test]
fn fresh_queue_counts_its_first_handle() {
    let (mut sender, queue, shared) = write_queue::<u8, u32>(0);
    assert_eq!(shared.live_handles(), 1);
    assert_eq!(shared.pending_count(), 0);
    assert_eq!(sender.len(&shared), 0);
    assert!(!shared.is_parked());
    assert!(!queue.is_writing());
    assert!(!queue.is_finished());
}

#[test]
fn len_leaves_out_the_write_in_flight() {
    let (mut sender, mut queue, mut shared) = write_queue::<u8, u32>(0);
    let _t1 = sender.send(&mut shared, 1);
    let _t2 = sender.send(&mut shared, 2);
    assert_eq!(sender.len(&shared), 2);

    assert!(matches!(queue.poll(&mut shared, Event::Resumed), Action::StartWrite(0, 1)));
    assert!(queue.is_writing());
    assert_eq!(sender.len(&shared), 1);
}

#[test]
fn unfinished_write_is_awaited() {
    let (mut sender, mut queue, mut shared) = write_queue::<u8, u32>(0);
    let mut t1 = sender.send(&mut shared, 1);
    let _t2 = sender.send(&mut shared, 2);
    assert!(matches!(queue.poll(&mut shared, Event::Resumed), Action::StartWrite(0, 1)));

    assert!(matches!(queue.poll(&mut shared, Event::Resumed), Action::AwaitWrite));
    assert!(matches!(queue.poll(&mut shared, Event::Resumed), Action::AwaitWrite));
    assert!(queue.is_writing());
    assert_eq!(shared.pending_count(), 1);
    assert_eq!(resolved(&mut t1), None);
}

#[test]
fn signal_resolves_when_its_write_is_done_and_not_before() {
    let (mut sender, mut queue, mut shared) = write_queue::<u8, u32>(0);
    let mut t1 = sender.send(&mut shared, 11);
    let mut t2 = sender.send(&mut shared, 22);
    assert_eq!(resolved(&mut t1), None);

    assert!(matches!(queue.poll(&mut shared, Event::Resumed), Action::StartWrite(0, 11)));
    assert_eq!(resolved(&mut t1), None);

    assert!(matches!(queue.poll(&mut shared, Event::WriteDone(5, 11)), Action::StartWrite(5, 22)));
    assert_eq!(resolved(&mut t1), Some(11));
    assert_eq!(resolved(&mut t2), None);

    assert!(matches!(queue.poll(&mut shared, Event::WriteDone(6, 22)), Action::Suspend));
    assert_eq!(resolved(&mut t2), Some(22));
}

#[test]
fn sink_that_comes_back_is_the_sink_that_goes_out() {
    let (mut sender, mut queue, mut shared) = write_queue::<u8, u32>(1);
    let _t1 = sender.send(&mut shared, 10);
    let _t2 = sender.send(&mut shared, 20);
    sender.release(&mut shared);
    assert!(matches!(queue.poll(&mut shared, Event::Resumed), Action::StartWrite(1, 10)));
    assert!(matches!(queue.poll(&mut shared, Event::WriteDone(2, 10)), Action::StartWrite(2, 20)));
    assert!(matches!(queue.poll(&mut shared, Event::WriteDone(3, 20)), Action::Finish(3)));
}

#[test]
fn backlog_is_written_after_the_last_handle_is_gone() {
    let (mut sender, mut queue, mut shared) = write_queue::<u8, u32>(0);
    let _t1 = sender.send(&mut shared, 1);
    sender.release(&mut shared);
    assert_eq!(shared.live_handles(), 0);

    assert!(matches!(queue.poll(&mut shared, Event::Resumed), Action::StartWrite(0, 1)));
    assert!(!queue.is_finished());
    assert!(matches!(queue.poll(&mut shared, Event::Resumed), Action::AwaitWrite));
    assert!(matches!(queue.poll(&mut shared, Event::WriteDone(0, 1)), Action::Finish(0)));
    assert!(queue.is_finished());
}

#[test]
fn driver_with_live_handle_parks_after_the_backlog() {
    let (mut sender, mut queue, mut shared) = write_queue::<u8, u32>(0);
    let _t1 = sender.send(&mut shared, 1);
    assert!(matches!(queue.poll(&mut shared, Event::Resumed), Action::StartWrite(0, 1)));
    assert!(matches!(queue.poll(&mut shared, Event::WriteDone(0, 1)), Action::Suspend));
    assert!(!queue.is_writing());
    assert!(!queue.is_finished());

    let _t2 = sender.send(&mut shared, 2);
    assert!(matches!(queue.poll(&mut shared, Event::Resumed), Action::StartWrite(0, 2)));
}

#[test]
fn failed_write_keeps_the_backlog_and_the_signal() {
    let (mut sender, mut queue, mut shared) = write_queue::<u8, u32>(0);
    let mut t1 = sender.send(&mut shared, 1);
    let mut t2 = sender.send(&mut shared, 2);
    assert!(matches!(queue.poll(&mut shared, Event::Resumed), Action::StartWrite(0, 1)));

    let error = capnp::Error::from_kind(capnp::ErrorKind::Disconnected);
    match queue.poll(&mut shared, Event::WriteFailed(error)) {
        Action::Fail(error) => assert_eq!(error.kind, capnp::ErrorKind::Disconnected),
        _ => panic!("the driver did not fail"),
    }
    assert!(queue.is_writing());
    assert_eq!(shared.pending_count(), 1);
    assert_eq!(resolved(&mut t1), None);
    assert_eq!(resolved(&mut t2), None);
}

#[test]
fn message_whose_token_was_dropped_is_still_written() {
    let (mut sender, mut queue, mut shared) = write_queue::<u8, u32>(0);
    drop(sender.send(&mut shared, 1));
    let mut t2 = sender.send(&mut shared, 2);
    assert!(matches!(queue.poll(&mut shared, Event::Resumed), Action::StartWrite(0, 1)));
    assert!(matches!(queue.poll(&mut shared, Event::WriteDone(0, 1)), Action::StartWrite(0, 2)));
    assert!(matches!(queue.poll(&mut shared, Event::WriteDone(0, 2)), Action::Suspend));
    assert_eq!(resolved(&mut t2), Some(2));
}

#[test]
fn handles_are_counted() {
    let (first, mut queue, mut shared) = write_queue::<u8, u32>(0);
    let second = first.clone_handle(&mut shared);
    let third = second.clone_handle(&mut shared);
    assert_eq!(shared.live_handles(), 3);

    first.release(&mut shared);
    third.release(&mut shared);
    assert_eq!(shared.live_handles(), 1);
    assert!(matches!(queue.poll(&mut shared, Event::Resumed), Action::Suspend));

    second.release(&mut shared);
    assert_eq!(shared.live_handles(), 0);
    assert!(matches!(queue.poll(&mut shared, Event::Resumed), Action::Finish(0)));
}

#[test]
fn tokens_of_a_dropped_queue_resolve_to_no_message() {
    let (mut sender, mut queue, mut shared) = write_queue::<u8, u32>(0);
    let mut t1 = sender.send(&mut shared, 1);
    let mut t2 = sender.send(&mut shared, 2);
    assert!(matches!(queue.poll(&mut shared, Event::Resumed), Action::StartWrite(0, 1)));

    drop(queue);
    drop(shared);
    assert!(!matches!(t1.try_recv(), Ok(Some(_))));
    assert!(!matches!(t2.try_recv(), Ok(Some(_))));
}
