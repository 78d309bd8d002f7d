use ccb_labs::queue_sim::{Event, EventState, State};

#[test]
fn arrivals_fill_the_chairs_up_to_three() {
    let s = State::S0.next(Event::In);
    assert_eq!(s, State::S1);
    let s = s.next(Event::In);
    assert_eq!(s, State::S2);
    let s = s.next(Event::In);
    assert_eq!(s, State::S3);
    assert_eq!(s.next(Event::In), State::S3);
}

#[test]
fn departures_free_chairs() {
    assert_eq!(State::S3.next(Event::Out), State::S2);
    assert_eq!(State::S2.next(Event::Out), State::S1);
    assert_eq!(State::S1.next(Event::Out), State::S0);
}

#[test]
fn departure_undoes_arrival_below_full() {
    for s in [State::S0, State::S1, State::S2] {
        assert_eq!(s.next(Event::In).next(Event::Out), s);
    }
}

#[test]
fn arrival_undoes_departure() {
    for s in [State::S1, State::S2, State::S3] {
        assert_eq!(s.next(Event::Out).next(Event::In), s);
    }
}

#[test]
fn full_salon_turns_a_newcomer_away() {
    assert_eq!(State::S3.next(Event::In).next(Event::Out), State::S2);
}
