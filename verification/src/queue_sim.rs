use vstd::prelude::*;

verus! {

/// A customer arriving (`In`) or leaving (`Out`) the salon.
#[derive(Clone, Copy, Debug, PartialEq, Eq, Structural)]
pub enum Event {
    In,
    Out,
}

/// Number of busy chairs: `S0` (none) up to `S3` (all three).
#[derive(Clone, Copy, Debug, PartialEq, Eq, Structural)]
pub enum State {
    S0,
    S1,
    S2,
    S3,
}

/// The number of busy chairs that a state stands for.
pub open spec fn occupancy(s: State) -> nat {
    match s {
        State::S0 => 0,
        State::S1 => 1,
        State::S2 => 2,
        State::S3 => 3,
    }
}

/// The state with `n` busy chairs (`n` at most 3).
pub open spec fn state_with(n: nat) -> State {
    if n == 0 {
        State::S0
    } else if n == 1 {
        State::S1
    } else if n == 2 {
        State::S2
    } else {
        State::S3
    }
}

/// An arrival takes a chair when one is free (a fourth customer is turned
/// away); a departure frees a chair.
pub open spec fn transition(s: State, e: Event) -> State {
    match e {
        Event::In => if occupancy(s) < 3 { state_with(occupancy(s) + 1) } else { State::S3 },
        Event::Out => state_with((occupancy(s) - 1) as nat),
    }
}

/// A departure from the empty salon cannot happen.
pub open spec fn accepts_event(s: State, e: Event) -> bool {
    !(s is S0 && e is Out)
}

/// A state that reacts to events.
pub trait EventState: Sized {
    spec fn accepts(&self, event: Event) -> bool;

    fn next(&self, event: Event) -> Self
        requires
            self.accepts(event),
    ;
}

impl EventState for State {
    open spec fn accepts(&self, event: Event) -> bool {
        accepts_event(*self, event)
    }

    fn next(&self, event: Event) -> (result: State)
        ensures
            result == transition(*self, event),
    {
        match self {
            State::S0 => match event {
                Event::In => State::S1,
                Event::Out => State::S0,
            },
            State::S1 => match event {
                Event::In => State::S2,
                Event::Out => State::S0,
            },
            State::S2 => match event {
                Event::In => State::S3,
                Event::Out => State::S1,
            },
            State::S3 => match event {
                Event::In => State::S3,
                Event::Out => State::S2,
            },
        }
    }
}

/// A customer who arrives while a chair is free and then leaves brings the
/// salon back to the state it was in.
pub proof fn law_departure_undoes_arrival(s: State)
    requires
        occupancy(s) < 3,
    ensures
        transition(transition(s, Event::In), Event::Out) == s,
{
}

/// A customer who leaves and is replaced by a newcomer brings the salon back
/// to the state it was in.
pub proof fn law_arrival_undoes_departure(s: State)
    requires
        accepts_event(s, Event::Out),
    ensures
        accepts_event(transition(s, Event::Out), Event::In),
        transition(transition(s, Event::Out), Event::In) == s,
{
}

/// An arrival takes one chair unless all three are busy; a departure frees
/// exactly one chair.
pub proof fn law_occupancy_moves_by_one(s: State, e: Event)
    requires
        accepts_event(s, e),
    ensures
        e is In ==> occupancy(transition(s, e)) == if occupancy(s) < 3 { occupancy(s) + 1 } else { 3 },
        e is Out ==> occupancy(transition(s, e)) + 1 == occupancy(s),
        occupancy(transition(s, e)) <= 3,
{
}

} // verus!
