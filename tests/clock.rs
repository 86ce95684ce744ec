use covenant::clock::{Clock, ClockError, TickRound};

fn s(x: &str) -> String {
    x.to_string()
}

#[test]
fn enqueue_is_whitelisted_and_idempotent() {
    let mut c = Clock::new(vec![s("holder"), s("pooler")], 100);
    assert_eq!(Ok(()), c.enqueue(&s("holder")));
    assert_eq!(Ok(()), c.enqueue(&s("holder")));
    assert_eq!(Err(ClockError::NotWhitelisted), c.enqueue(&s("stranger")));
    assert_eq!(vec![s("holder")], c.queue);
    c.paused = true;
    assert_eq!(Err(ClockError::Paused), c.enqueue(&s("pooler")));
    assert_eq!(Err(ClockError::Paused), c.next_subscriber());
}

#[test]
fn ticks_rotate_in_fifo_order() {
    let mut c = Clock::new(vec![s("a"), s("b"), s("c")], 100);
    c.enqueue(&s("a")).unwrap();
    c.enqueue(&s("b")).unwrap();
    c.enqueue(&s("c")).unwrap();
    let order: Vec<String> = (0..4).map(|_| c.next_subscriber().unwrap().unwrap()).collect();
    assert_eq!(vec![s("a"), s("b"), s("c"), s("a")], order);
    c.dequeue(&s("b")).unwrap();
    assert_eq!(vec![s("c"), s("a")], c.queue);
    assert_eq!(Err(ClockError::NotWhitelisted), c.dequeue(&s("z")));
}

#[test]
fn round_stops_when_gas_exceeds_ceiling() {
    let mut c = Clock::new(vec![s("a"), s("b"), s("c")], 10);
    for x in ["a", "b", "c"] {
        c.enqueue(&s(x)).unwrap();
    }
    let mut round = TickRound::new();
    let mut ticked = vec![];
    while c.round_continues(&round) {
        let who = c.next_subscriber().unwrap().unwrap();
        ticked.push(who.clone());
        round.record(who, 6, ticked.len() != 1);
    }
    assert_eq!(vec![s("a"), s("b")], ticked);
    assert_eq!(vec![s("a")], round.failed);
    assert_eq!(12, round.gas_used);
}

#[test]
fn empty_clock_has_no_subscriber() {
    let mut c = Clock::new(vec![], 10);
    assert_eq!(Ok(None), c.next_subscriber());
}
