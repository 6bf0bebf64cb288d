//! How a connection to the login server goes on.
//!
//! Reading, sending and proving are left to the caller, who says how they went.
use crate::auth::AuthRoute;
use vstd::prelude::*;

verus! {

/// How far a connection has come. Whoever was there before comes back.
#[derive(Debug, Clone, Copy, PartialEq, Eq, Structural)]
pub enum Stage {
    /// The challenge is on its way.
    Challenging { back: bool },
    /// The client has to prove itself.
    Proving { back: bool },
    /// The client is told that the proof is right.
    Accepting { back: bool },
    /// The client is told that the proof is wrong, or the account unknown.
    Refusing,
    /// The client may ask for the realms.
    Listening,
    /// The realms are on their way.
    Listing,
    Closed,
}

/// How it went.
#[derive(Debug, Clone, Copy, PartialEq, Eq, Structural)]
pub enum Event {
    /// What was to be sent was sent.
    Sent,
    /// The client gave a proof.
    Proof { right: bool },
    /// The client asked for the realms.
    Asked,
    /// Reading or sending failed.
    Broken,
}

/// What is to be done.
#[derive(Debug, Clone, Copy, PartialEq, Eq, Structural)]
pub enum Action {
    SendChallenge,
    AwaitProof,
    SendAccepted,
    /// Who logged in is remembered, and may then ask for the realms.
    RememberAndListen,
    Listen,
    SendRefused,
    /// The client is told that there is no such account.
    SendUnknown,
    SendRealms,
    Close,
}

/// How a connection starts. `known` says of somebody who logs in whether they may, and
/// of somebody who comes back whether they are remembered.
pub open spec fn started(route: AuthRoute, known: bool) -> (Stage, Action) {
    match route {
        AuthRoute::Login(_) => if known {
            (Stage::Challenging { back: false }, Action::SendChallenge)
        } else {
            (Stage::Refusing, Action::SendUnknown)
        },
        AuthRoute::Reconnect(_) => if known {
            (Stage::Challenging { back: true }, Action::SendChallenge)
        } else {
            (Stage::Closed, Action::Close)
        },
        AuthRoute::Ignore => (Stage::Closed, Action::Close),
    }
}

/// How a connection goes on. A wrong proof is answered only to who comes back.
pub open spec fn went_on(at: Stage, e: Event) -> (Stage, Action) {
    match (at, e) {
        (Stage::Challenging { back }, Event::Sent) => (Stage::Proving { back }, Action::AwaitProof),
        (Stage::Proving { back }, Event::Proof { right }) => if right {
            (Stage::Accepting { back }, Action::SendAccepted)
        } else if back {
            (Stage::Refusing, Action::SendRefused)
        } else {
            (Stage::Closed, Action::Close)
        },
        (Stage::Accepting { back }, Event::Sent) => (
            Stage::Listening,
            if back {
                Action::Listen
            } else {
                Action::RememberAndListen
            },
        ),
        (Stage::Listening, Event::Asked) => (Stage::Listing, Action::SendRealms),
        (Stage::Listing, Event::Sent) => (Stage::Listening, Action::Listen),
        _ => (Stage::Closed, Action::Close),
    }
}

pub fn start(route: AuthRoute, known: bool) -> (r: (Stage, Action))
    ensures
        r == started(route, known),
{
    match route {
        AuthRoute::Login(_) => if known {
            (Stage::Challenging { back: false }, Action::SendChallenge)
        } else {
            (Stage::Refusing, Action::SendUnknown)
        },
        AuthRoute::Reconnect(_) => if known {
            (Stage::Challenging { back: true }, Action::SendChallenge)
        } else {
            (Stage::Closed, Action::Close)
        },
        AuthRoute::Ignore => (Stage::Closed, Action::Close),
    }
}

pub fn go_on(at: &mut Stage, e: Event) -> (r: Action)
    ensures
        (*final(at), r) == went_on(*old(at), e),
{
    let (next, action): (Stage, Action) = match (*at, e) {
        (Stage::Challenging { back }, Event::Sent) => (Stage::Proving { back }, Action::AwaitProof),
        (Stage::Proving { back }, Event::Proof { right }) => if right {
            (Stage::Accepting { back }, Action::SendAccepted)
        } else if back {
            (Stage::Refusing, Action::SendRefused)
        } else {
            (Stage::Closed, Action::Close)
        },
        (Stage::Accepting { back }, Event::Sent) => (
            Stage::Listening,
            if back {
                Action::Listen
            } else {
                Action::RememberAndListen
            },
        ),
        (Stage::Listening, Event::Asked) => (Stage::Listing, Action::SendRealms),
        (Stage::Listing, Event::Sent) => (Stage::Listening, Action::Listen),
        _ => (Stage::Closed, Action::Close),
    };
    *at = next;
    action
}

/// Where a connection is after everything in `events`.
pub open spec fn reached(start: Stage, events: Seq<Event>) -> Stage
    decreases events.len(),
{
    if events.len() == 0 {
        start
    } else {
        went_on(reached(start, events.drop_last()), events.last()).0
    }
}

/// What was done last.
pub open spec fn last_action(start: (Stage, Action), events: Seq<Event>) -> Action {
    if events.len() == 0 {
        start.1
    } else {
        went_on(reached(start.0, events.drop_last()), events.last()).1
    }
}

/// Whether a right proof is among `events`.
pub open spec fn proved(events: Seq<Event>) -> bool {
    events.contains(Event::Proof { right: true })
}

proof fn lemma_reached(start: Stage, events: Seq<Event>)
    requires
        start is Challenging || start is Closed || start is Refusing,
    ensures
        ({
            let s = reached(start, events);
            &&& s is Accepting || s is Listening || s is Listing ==> proved(events)
            &&& s matches Stage::Challenging { back } ==> start == Stage::Challenging { back }
            &&& s matches Stage::Proving { back } ==> start == Stage::Challenging { back }
            &&& s matches Stage::Accepting { back } ==> start == Stage::Challenging { back }
        }),
    decreases events.len(),
{
    if events.len() > 0 {
        let before = events.drop_last();
        lemma_reached(start, before);
        if proved(before) {
            let i = choose|i: int| 0 <= i < before.len() && before[i] == Event::Proof { right: true };
            assert(events[i] == Event::Proof { right: true });
        }
        if events.last() == (Event::Proof { right: true }) {
            assert(events[events.len() - 1] == Event::Proof { right: true });
        }
    }
}

/// Nobody is shown the realms, or remembered, who did not give a right proof; and
/// nobody is remembered who only came back.
pub proof fn only_the_proved_are_let_in(route: AuthRoute, known: bool, events: Seq<Event>)
    ensures
        last_action(started(route, known), events) == Action::SendRealms ==> proved(events),
        last_action(started(route, known), events) == Action::RememberAndListen ==> proved(events) && route is Login,
{
    let start = started(route, known).0;
    if events.len() > 0 {
        let before = events.drop_last();
        lemma_reached(start, before);
        lemma_reached(start, events);
    }
}

/// A connection that is closed stays closed.
pub proof fn what_is_closed_stays_closed(e: Event)
    ensures
        went_on(Stage::Closed, e) == (Stage::Closed, Action::Close),
{
}

/// Who may not log in is told so, and the connection is closed whatever they send.
pub proof fn strangers_do_not_log_in(route: AuthRoute, events: Seq<Event>)
    requires
        route is Login,
    ensures
        last_action(started(route, false), events) == (if events.len() == 0 {
            Action::SendUnknown
        } else {
            Action::Close
        }),
        events.len() > 0 ==> reached(started(route, false).0, events) == Stage::Closed,
    decreases events.len(),
{
    if events.len() > 0 {
        strangers_do_not_log_in(route, events.drop_last());
    }
}

/// Who is not remembered cannot come back, whatever they send.
pub proof fn strangers_do_not_come_back(route: AuthRoute, events: Seq<Event>)
    requires
        route is Reconnect,
    ensures
        last_action(started(route, false), events) == Action::Close,
    decreases events.len(),
{
    if events.len() > 0 {
        strangers_do_not_come_back(route, events.drop_last());
        lemma_closed(events.drop_last());
    }
}

proof fn lemma_closed(events: Seq<Event>)
    ensures
        reached(Stage::Closed, events) == Stage::Closed,
    decreases events.len(),
{
    if events.len() > 0 {
        lemma_closed(events.drop_last());
    }
}

/// Whoever may log in is challenged; others are told that there is no such account. Whoever
/// comes back is challenged if they are remembered; everybody else is hung up on.
pub proof fn who_connects_is_challenged(route: AuthRoute, known: bool, r: (Stage, Action))
    requires
        call_ensures(start, (route, known), r),
    ensures
        route is Login && known ==> r == (Stage::Challenging { back: false }, Action::SendChallenge),
        route is Login && !known ==> r == (Stage::Refusing, Action::SendUnknown),
        route is Reconnect && known ==> r == (Stage::Challenging { back: true }, Action::SendChallenge),
        route is Reconnect && !known ==> r == (Stage::Closed, Action::Close),
        route is Ignore ==> r == (Stage::Closed, Action::Close),
{
}

/// After the challenge the client has to prove itself. A right proof is accepted, and a wrong
/// one is refused in words only to who comes back. Who was accepted may ask for the realms as
/// often as they like, and whatever comes out of turn ends the connection.
pub proof fn a_connection_goes_its_way(at: &mut Stage, e: Event, r: Action, back: bool, right: bool)
    requires
        call_ensures(go_on, (at, e), r),
    ensures
        *old(at) == (Stage::Challenging { back }) && e is Sent ==> *final(at) == (Stage::Proving { back })
            && r is AwaitProof,
        *old(at) == (Stage::Proving { back }) && e == (Event::Proof { right: true }) ==> *final(at)
            == (Stage::Accepting { back }) && r is SendAccepted,
        *old(at) == (Stage::Proving { back: true }) && e == (Event::Proof { right: false }) ==> *final(at) is Refusing
            && r is SendRefused,
        *old(at) == (Stage::Proving { back: false }) && e == (Event::Proof { right: false }) ==> *final(at) is Closed
            && r is Close,
        *old(at) == (Stage::Accepting { back: true }) && e is Sent ==> *final(at) is Listening && r is Listen,
        *old(at) == (Stage::Accepting { back: false }) && e is Sent ==> *final(at) is Listening
            && r is RememberAndListen,
        *old(at) is Listening && e is Asked ==> *final(at) is Listing && r is SendRealms,
        *old(at) is Listing && e is Sent ==> *final(at) is Listening && r is Listen,
        *old(at) is Refusing || *old(at) is Closed || e is Broken ==> *final(at) is Closed && r is Close,
        e is Sent && (*old(at) is Proving || *old(at) is Listening) ==> *final(at) is Closed && r is Close,
        e is Proof && !(*old(at) is Proving) ==> *final(at) is Closed && r is Close,
        e is Asked && !(*old(at) is Listening) ==> *final(at) is Closed && r is Close,
{
}

} // verus!
