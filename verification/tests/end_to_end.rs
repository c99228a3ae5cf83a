use futures::sync::oneshot::Receiver;
use write_queue::{write_queue, Action, Event, Shared, WriteQueue};

type Sink = Vec<String>;

/// Polls the driver until it asks for something other than a write. Each
/// write appends the message to the sink and is reported done.
fn run(queue: &mut WriteQueue<Sink, String>, shared: &mut Shared<String>) -> Action<Sink, String> {
    let mut event = Event::Resumed;
    loop {
        match queue.poll(shared, event) {
            Action::StartWrite(mut sink, message) => {
                sink.push(message.clone());
                event = Event::WriteDone(sink, message);
            }
            other => return other,
        }
    }
}

fn resolved(token: &mut Receiver<String>) -> Option<String> {
    token.try_recv().expect("the signal is alive or resolved")
}

fn text(s: &str) -> String {
    s.to_string()
}

#[test]
fn three_messages_one_handle() {
    let (mut sender, mut queue, mut shared) = write_queue::<Sink, String>(Vec::new());
    let mut t1 = sender.send(&mut shared, text("m1"));
    let mut t2 = sender.send(&mut shared, text("m2"));
    let mut t3 = sender.send(&mut shared, text("m3"));
    sender.release(&mut shared);

    match run(&mut queue, &mut shared) {
        Action::Finish(sink) => assert_eq!(sink, vec![text("m1"), text("m2"), text("m3")]),
        _ => panic!("the driver did not finish"),
    }
    assert!(queue.is_finished());
    assert_eq!(shared.pending_count(), 0);
    assert_eq!(shared.live_handles(), 0);
    assert_eq!(resolved(&mut t1), Some(text("m1")));
    assert_eq!(resolved(&mut t2), Some(text("m2")));
    assert_eq!(resolved(&mut t3), Some(text("m3")));
}

#[test]
fn two_handles_interleaved() {
    let (mut h1, mut queue, mut shared) = write_queue::<Sink, String>(Vec::new());
    let mut h2 = h1.clone_handle(&mut shared);
    let _a = h1.send(&mut shared, text("a"));
    let _b = h2.send(&mut shared, text("b"));
    let _c = h1.send(&mut shared, text("c"));
    h1.release(&mut shared);
    h2.release(&mut shared);

    match run(&mut queue, &mut shared) {
        Action::Finish(sink) => assert_eq!(sink, vec![text("a"), text("b"), text("c")]),
        _ => panic!("the driver did not finish"),
    }
}

#[test]
fn writes_follow_sends_across_parks_and_handles() {
    let (mut h1, mut queue, mut shared) = write_queue::<Sink, String>(Vec::new());
    let mut tokens = Vec::new();
    tokens.push(h1.send(&mut shared, text("1")));
    assert!(matches!(run(&mut queue, &mut shared), Action::Suspend));

    let mut h2 = h1.clone_handle(&mut shared);
    tokens.push(h2.send(&mut shared, text("2")));
    tokens.push(h1.send(&mut shared, text("3")));
    h1.release(&mut shared);
    assert!(matches!(run(&mut queue, &mut shared), Action::Suspend));

    tokens.push(h2.send(&mut shared, text("4")));
    h2.release(&mut shared);
    let sink = match run(&mut queue, &mut shared) {
        Action::Finish(sink) => sink,
        _ => panic!("the driver did not finish"),
    };
    assert_eq!(sink, vec![text("1"), text("2"), text("3"), text("4")]);
    for (token, message) in tokens.iter_mut().zip(sink) {
        assert_eq!(resolved(token), Some(message));
    }
}

#[test]
fn failed_write_fails_the_queue() {
    let (mut sender, mut queue, mut shared) = write_queue::<Sink, String>(Vec::new());
    let mut token = sender.send(&mut shared, text("m"));

    match queue.poll(&mut shared, Event::Resumed) {
        Action::StartWrite(sink, message) => {
            assert!(sink.is_empty());
            assert_eq!(message, text("m"));
        }
        _ => panic!("the driver did not start the write"),
    }
    let error = capnp::Error::failed(text("broken pipe"));
    match queue.poll(&mut shared, Event::WriteFailed(error)) {
        Action::Fail(error) => {
            assert_eq!(error.kind, capnp::ErrorKind::Failed);
            assert_eq!(error.extra, text("broken pipe"));
        }
        _ => panic!("the driver did not fail"),
    }
    assert_eq!(resolved(&mut token), None);
    assert!(!queue.is_finished());
}

#[test]
fn idle_driver_parks_then_finishes() {
    let (sender, mut queue, mut shared) = write_queue::<Sink, String>(vec![text("kept")]);

    assert!(matches!(queue.poll(&mut shared, Event::Resumed), Action::Suspend));
    assert!(!queue.is_finished());
    assert!(!queue.is_writing());

    sender.release(&mut shared);
    match queue.poll(&mut shared, Event::Resumed) {
        Action::Finish(sink) => assert_eq!(sink, vec![text("kept")]),
        _ => panic!("the driver did not finish"),
    }
    assert!(queue.is_finished());
}
