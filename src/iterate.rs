use vstd::prelude::*;
use crate::error::ClientError;

verus! {

/// One page of search results, in the order the service returned them.
pub struct ResultPage<R> {
    pub items: Vec<R>,
    /// Index of the following page; absent on the last page.
    pub next: Option<u64>,
}

/// Where an iteration stands.
#[derive(Debug, Clone, Copy, PartialEq, Eq, Structural)]
pub enum Stage {
    /// A page has been requested and its arrival is awaited.
    Fetching,
    /// A record has been handed out and the handler's verdict is awaited.
    Delivering,
    /// Every page has been read and every record delivered.
    Finished,
    /// A fetch or the handler failed; nothing further happens.
    Failed,
}

/// What the driver of an iteration reports back.
pub enum Event<R> {
    /// The requested page came back.
    PageArrived(ResultPage<R>),
    /// The requested page could not be fetched.
    FetchFailed(ClientError),
    /// The handler accepted the record last delivered.
    Handled,
    /// The handler failed on the record last delivered.
    HandlerFailed(String),
}

/// What the driver of an iteration must do next.
pub enum Action<R> {
    /// Fetch this page (`None`: the first one).
    Fetch(Option<u64>),
    /// Hand this record to the handler.
    Deliver(R),
    /// Stop: the result set has been walked to its end.
    Finished,
    /// Stop with this error.
    Failed(ClientError),
}

/// A forward-only walk over a paged result set. It holds at most one page of
/// records, asks for the next page only once the current one has been
/// handled, and stops at the first failure.
pub struct ResultIterator<R> {
    stage: Stage,
    /// Records of the current page still to deliver, last one first.
    pending: Vec<R>,
    next: Option<u64>,
    received: Ghost<Seq<R>>,
    delivered: Ghost<Seq<R>>,
}

impl<R> ResultIterator<R> {
    pub closed spec fn stage(&self) -> Stage {
        self.stage
    }

    /// The page to ask for once the current one is used up.
    pub closed spec fn next_page(&self) -> Option<u64> {
        self.next
    }

    /// Records of the current page not yet delivered, in page order.
    pub closed spec fn remaining(&self) -> Seq<R> {
        Seq::new(self.pending@.len(), |i: int| self.pending@[self.pending@.len() - 1 - i])
    }

    /// The items of every page that has arrived, concatenated in arrival order.
    pub closed spec fn received(&self) -> Seq<R> {
        self.received@
    }

    /// Every record handed to the handler so far, in order.
    pub closed spec fn delivered(&self) -> Seq<R> {
        self.delivered@
    }

    /// What has been delivered is exactly the start of what has arrived, and
    /// the rest of it is the unread part of the current page.
    pub open spec fn wf(&self) -> bool {
        &&& self.received() == self.delivered() + self.remaining()
        &&& self.stage() == Stage::Fetching ==> self.remaining().len() == 0
        &&& self.stage() == Stage::Finished ==> self.remaining().len() == 0
            && self.next_page() is None
    }

    /// The state and action that come of moving on with `rem` left to
    /// deliver and `next` as the following page.
    pub open spec fn advanced(
        &self,
        r: Action<R>,
        delivered: Seq<R>,
        received: Seq<R>,
        rem: Seq<R>,
        next: Option<u64>,
    ) -> bool {
        &&& self.received() == received
        &&& self.next_page() == next
        &&& if rem.len() > 0 {
            &&& r == Action::Deliver(rem[0])
            &&& self.stage() == Stage::Delivering
            &&& self.delivered() == delivered.push(rem[0])
            &&& self.remaining() == rem.skip(1)
        } else {
            &&& self.delivered() == delivered
            &&& self.remaining().len() == 0
            &&& match next {
                Some(n) => r == Action::<R>::Fetch(Some(n)) && self.stage() == Stage::Fetching,
                None => r == Action::<R>::Finished && self.stage() == Stage::Finished,
            }
        }
    }

    /// The state after a failure: stopped, with the history kept.
    pub open spec fn stopped_from(&self, old: &Self) -> bool {
        &&& self.stage() == Stage::Failed
        &&& self.delivered() == old.delivered()
        &&& self.received() == old.received()
        &&& self.remaining() == old.remaining()
        &&& self.next_page() == old.next_page()
    }

    /// Begins a walk whose first request is for page `first` (`None`: the
    /// first page of the session).
    pub fn start(first: Option<u64>) -> (r: (Self, Action<R>))
        ensures
            r.0.wf(),
            r.0.stage() == Stage::Fetching,
            r.0.next_page() == first,
            r.0.received().len() == 0,
            r.0.delivered().len() == 0,
            r.1 == Action::<R>::Fetch(first),
    {
        let it = ResultIterator {
            stage: Stage::Fetching,
            pending: Vec::new(),
            next: first,
            received: Ghost(Seq::empty()),
            delivered: Ghost(Seq::empty()),
        };
        proof {
            assert(it.remaining() =~= Seq::<R>::empty());
            assert(it.received() =~= it.delivered() + it.remaining());
        }
        (it, Action::Fetch(first))
    }

    /// Moves on from the current state: the next record of the page if one
    /// is left, else the following page if there is one, else the end.
    fn advance(&mut self) -> (r: Action<R>)
        requires
            old(self).received() == old(self).delivered() + old(self).remaining(),
        ensures
            final(self).wf(),
            final(self).advanced(
                r,
                old(self).delivered(),
                old(self).received(),
                old(self).remaining(),
                old(self).next_page(),
            ),
    {
        let ghost rem = self.remaining();
        match self.pending.pop() {
            Some(x) => {
                self.stage = Stage::Delivering;
                self.delivered = Ghost(self.delivered@.push(x));
                proof {
                    assert(rem[0] == x);
                    assert(self.remaining() =~= rem.skip(1));
                    assert(self.received() =~= self.delivered() + self.remaining());
                }
                Action::Deliver(x)
            },
            None => {
                proof {
                    assert(self.received() =~= self.delivered() + self.remaining());
                }
                match self.next {
                    Some(n) => {
                        self.stage = Stage::Fetching;
                        Action::Fetch(Some(n))
                    },
                    None => {
                        self.stage = Stage::Finished;
                        Action::Finished
                    },
                }
            },
        }
    }

    /// Takes in a page that has arrived, its records becoming the ones to
    /// deliver next.
    fn load(&mut self, page: ResultPage<R>)
        requires
            old(self).wf(),
            old(self).stage() == Stage::Fetching,
        ensures
            final(self).stage() == Stage::Fetching,
            final(self).remaining() == page.items@,
            final(self).next_page() == page.next,
            final(self).delivered() == old(self).delivered(),
            final(self).received() == old(self).received() + page.items@,
            final(self).received() == final(self).delivered() + final(self).remaining(),
    {
        let ResultPage { mut items, next } = page;
        let ghost orig = items@;
        let mut pending: Vec<R> = Vec::new();
        while items.len() > 0
            invariant
                pending@.len() <= orig.len(),
                items@ == orig.subrange(0, orig.len() - pending@.len()),
                forall|j: int|
                    0 <= j < pending@.len() ==> #[trigger] pending@[j] == orig[orig.len() - 1 - j],
            decreases items.len(),
        {
            match items.pop() {
                Some(x) => {
                    pending.push(x);
                },
                None => {},
            }
        }
        self.pending = pending;
        self.next = next;
        self.received = Ghost(self.received@ + orig);
        proof {
            assert(self.remaining() =~= orig);
            assert(old(self).remaining() =~= Seq::<R>::empty());
            assert(old(self).received() =~= old(self).delivered());
        }
    }

    /// How one step relates the state before (`o`), the event, the state
    /// after (`f`) and the action handed out.
    pub open spec fn steps_to(o: Self, ev: Event<R>, f: Self, r: Action<R>) -> bool {
        &&& o.stage() == Stage::Fetching ==> match ev {
            Event::PageArrived(p) => f.advanced(
                r,
                o.delivered(),
                o.received() + p.items@,
                p.items@,
                p.next,
            ),
            Event::FetchFailed(e) => r == Action::<R>::Failed(e) && f.stopped_from(&o),
            _ => r == Action::<R>::Failed(ClientError::ProtocolError) && f.stopped_from(&o),
        }
        &&& o.stage() == Stage::Delivering ==> match ev {
            Event::Handled => f.advanced(
                r,
                o.delivered(),
                o.received(),
                o.remaining(),
                o.next_page(),
            ),
            Event::HandlerFailed(m) => r == Action::<R>::Failed(
                ClientError::HandlerFailure { message: m },
            ) && f.stopped_from(&o),
            _ => r == Action::<R>::Failed(ClientError::ProtocolError) && f.stopped_from(&o),
        }
        &&& o.stage() == Stage::Finished || o.stage() == Stage::Failed ==> r
            == Action::<R>::Failed(ClientError::ProtocolError) && f.stopped_from(&o)
    }

    /// Feeds the outcome of the last action in and says what to do next.
    /// An event that does not answer the last action stops the walk with a
    /// protocol error.
    pub fn step(&mut self, ev: Event<R>) -> (r: Action<R>)
        requires
            old(self).wf(),
        ensures
            final(self).wf(),
            Self::steps_to(*old(self), ev, *final(self), r),
    {
        match self.stage {
            Stage::Fetching => match ev {
                Event::PageArrived(p) => {
                    self.load(p);
                    self.advance()
                },
                Event::FetchFailed(e) => {
                    self.stage = Stage::Failed;
                    Action::Failed(e)
                },
                _ => {
                    self.stage = Stage::Failed;
                    Action::Failed(ClientError::ProtocolError)
                },
            },
            Stage::Delivering => match ev {
                Event::Handled => self.advance(),
                Event::HandlerFailed(m) => {
                    self.stage = Stage::Failed;
                    Action::Failed(ClientError::HandlerFailure { message: m })
                },
                _ => {
                    self.stage = Stage::Failed;
                    Action::Failed(ClientError::ProtocolError)
                },
            },
            _ => {
                self.stage = Stage::Failed;
                Action::Failed(ClientError::ProtocolError)
            },
        }
    }
}

/// Records are handed out in the order in which they arrived, each once:
/// what has been delivered is always a prefix of the concatenated pages.
pub proof fn lemma_delivery_is_prefix<R>(it: &ResultIterator<R>)
    requires
        it.wf(),
    ensures
        it.delivered().len() <= it.received().len(),
        it.delivered() == it.received().subrange(0, it.delivered().len() as int),
{
    assert(it.received().subrange(0, it.delivered().len() as int) =~= it.delivered());
}

/// A walk that has finished has handed out every record of every page that
/// arrived, in page order, and no other.
pub proof fn lemma_finished_delivers_all<R>(it: &ResultIterator<R>)
    requires
        it.wf(),
        it.stage() == Stage::Finished,
    ensures
        it.delivered() == it.received(),
        it.next_page() is None,
{
    assert(it.delivered() + it.remaining() =~= it.delivered());
}

/// The items of every page that arrived among `events`, concatenated in
/// arrival order.
pub open spec fn arrived_items<R>(events: Seq<Event<R>>) -> Seq<R>
    decreases events.len(),
{
    if events.len() == 0 {
        Seq::empty()
    } else {
        arrived_items(events.drop_last()) + match events.last() {
            Event::PageArrived(p) => p.items@,
            _ => Seq::empty(),
        }
    }
}

/// `states`, `events` and `actions` record a walk from its start: step `i`
/// took `states[i]` with `events[i]` to `states[i + 1]` and handed out
/// `actions[i]`.
pub open spec fn is_run<R>(
    states: Seq<ResultIterator<R>>,
    events: Seq<Event<R>>,
    actions: Seq<Action<R>>,
) -> bool {
    &&& states.len() == events.len() + 1
    &&& actions.len() == events.len()
    &&& states[0].received().len() == 0
    &&& forall|i: int| 0 <= i < states.len() ==> (#[trigger] states[i]).wf()
    &&& forall|i: int|
        0 <= i < events.len() ==> ResultIterator::steps_to(
            states[i],
            #[trigger] events[i],
            states[i + 1],
            actions[i],
        )
}

proof fn lemma_run_received<R>(
    states: Seq<ResultIterator<R>>,
    events: Seq<Event<R>>,
    actions: Seq<Action<R>>,
    n: int,
)
    requires
        is_run(states, events, actions),
        0 <= n <= events.len(),
    ensures
        states[n].stage() != Stage::Failed ==> states[n].received() == arrived_items(
            events.take(n),
        ),
    decreases n,
{
    if n > 0 {
        lemma_run_received(states, events, actions, n - 1);
        let ev = events[n - 1];
        assert(ResultIterator::steps_to(states[n - 1], ev, states[n], actions[n - 1]));
        assert(events.take(n).drop_last() =~= events.take(n - 1));
        assert(events.take(n).last() == ev);
        if states[n].stage() != Stage::Failed {
            match ev {
                Event::PageArrived(p) => {},
                _ => {
                    assert(arrived_items(events.take(n)) =~= arrived_items(events.take(n - 1)));
                },
            }
        }
    } else {
        assert(events.take(0).len() == 0);
    }
}

/// A walk that has finished has handed the handler every record of every page
/// that arrived, each once, in page order and, within a page, in the order of
/// the page.
pub proof fn lemma_finished_run_delivers_all<R>(
    states: Seq<ResultIterator<R>>,
    events: Seq<Event<R>>,
    actions: Seq<Action<R>>,
)
    requires
        is_run(states, events, actions),
        states.last().stage() == Stage::Finished,
    ensures
        states.last().delivered() == arrived_items(events),
{
    let n = events.len() as int;
    lemma_run_received(states, events, actions, n);
    assert(events.take(n) =~= events);
    lemma_finished_delivers_all(&states[n]);
}

/// Once a walk has failed it stays failed: it asks for no further page,
/// hands out no further record, and what it delivered stays as it was.
pub proof fn lemma_failure_is_final<R>(
    states: Seq<ResultIterator<R>>,
    events: Seq<Event<R>>,
    actions: Seq<Action<R>>,
    i: int,
)
    requires
        is_run(states, events, actions),
        0 <= i < states.len(),
        states[i].stage() == Stage::Failed,
    ensures
        forall|j: int|
            i <= j < states.len() ==> (#[trigger] states[j]).stage() == Stage::Failed
                && states[j].delivered() == states[i].delivered(),
        forall|j: int|
            i <= j < actions.len() ==> #[trigger] actions[j] == Action::<R>::Failed(
                ClientError::ProtocolError,
            ),
{
    assert forall|j: int| i <= j < states.len() implies (#[trigger] states[j]).stage()
        == Stage::Failed && states[j].delivered() == states[i].delivered() by {
        lemma_failed_stays(states, events, actions, i, j);
    }
    assert forall|j: int| i <= j < actions.len() implies #[trigger] actions[j]
        == Action::<R>::Failed(ClientError::ProtocolError) by {
        lemma_failed_stays(states, events, actions, i, j);
        assert(ResultIterator::steps_to(states[j], events[j], states[j + 1], actions[j]));
    }
}

proof fn lemma_failed_stays<R>(
    states: Seq<ResultIterator<R>>,
    events: Seq<Event<R>>,
    actions: Seq<Action<R>>,
    i: int,
    j: int,
)
    requires
        is_run(states, events, actions),
        0 <= i <= j < states.len(),
        states[i].stage() == Stage::Failed,
    ensures
        states[j].stage() == Stage::Failed,
        states[j].delivered() == states[i].delivered(),
    decreases j - i,
{
    if j > i {
        lemma_failed_stays(states, events, actions, i, j - 1);
        assert(ResultIterator::steps_to(states[j - 1], events[j - 1], states[j], actions[j - 1]));
    }
}

/// When the handler fails on a record, the walk surfaces that failure and
/// stops: the records delivered are those up to and including the one that
/// failed, and no later record or page is asked for.
pub proof fn lemma_handler_failure_ends_run<R>(
    states: Seq<ResultIterator<R>>,
    events: Seq<Event<R>>,
    actions: Seq<Action<R>>,
    i: int,
    message: String,
)
    requires
        is_run(states, events, actions),
        0 <= i < events.len(),
        states[i].stage() == Stage::Delivering,
        events[i] == Event::<R>::HandlerFailed(message),
    ensures
        actions[i] == Action::<R>::Failed(ClientError::HandlerFailure { message }),
        states.last().delivered() == states[i].delivered(),
        forall|j: int|
            i < j < actions.len() ==> #[trigger] actions[j] == Action::<R>::Failed(
                ClientError::ProtocolError,
            ),
{
    assert(ResultIterator::steps_to(states[i], events[i], states[i + 1], actions[i]));
    lemma_failure_is_final(states, events, actions, i + 1);
    assert(states[i + 1].delivered() == states[i].delivered());
}

/// When a page cannot be fetched (the session expired, say), the walk
/// surfaces that very error and stops: it asks for no page again and
/// delivers nothing more.
pub proof fn lemma_fetch_failure_ends_run<R>(
    states: Seq<ResultIterator<R>>,
    events: Seq<Event<R>>,
    actions: Seq<Action<R>>,
    i: int,
    e: ClientError,
)
    requires
        is_run(states, events, actions),
        0 <= i < events.len(),
        states[i].stage() == Stage::Fetching,
        events[i] == Event::<R>::FetchFailed(e),
    ensures
        actions[i] == Action::<R>::Failed(e),
        states.last().delivered() == states[i].delivered(),
        forall|j: int|
            i < j < actions.len() ==> #[trigger] actions[j] == Action::<R>::Failed(
                ClientError::ProtocolError,
            ),
{
    assert(ResultIterator::steps_to(states[i], events[i], states[i + 1], actions[i]));
    lemma_failure_is_final(states, events, actions, i + 1);
    assert(states[i + 1].delivered() == states[i].delivered());
}

/// The answers a driver gives while walking page `p` when the handler
/// accepts every record: the page itself, then one acceptance per record.
pub open spec fn page_events<R>(p: ResultPage<R>) -> Seq<Event<R>> {
    seq![Event::PageArrived(p)] + Seq::new(p.items@.len(), |k: int| Event::<R>::Handled)
}

/// The answers for a walk over `pages`, served in order, with every record
/// accepted.
pub open spec fn served_events<R>(pages: Seq<ResultPage<R>>) -> Seq<Event<R>>
    decreases pages.len(),
{
    if pages.len() == 0 {
        Seq::empty()
    } else {
        served_events(pages.drop_last()) + page_events(pages.last())
    }
}

/// `pages` form a session's result set: every page but the last names a
/// following one, and the last names none.
pub open spec fn is_page_chain<R>(pages: Seq<ResultPage<R>>) -> bool {
    &&& pages.len() > 0
    &&& forall|k: int| 0 <= k < pages.len() - 1 ==> (#[trigger] pages[k]).next is Some
    &&& pages.last().next is None
}

proof fn lemma_run_prefix<R>(
    states: Seq<ResultIterator<R>>,
    events: Seq<Event<R>>,
    actions: Seq<Action<R>>,
    n: int,
)
    requires
        is_run(states, events, actions),
        0 <= n <= events.len(),
    ensures
        is_run(states.take(n + 1), events.take(n), actions.take(n)),
{
    let s2 = states.take(n + 1);
    let e2 = events.take(n);
    let a2 = actions.take(n);
    assert forall|i: int| 0 <= i < s2.len() implies (#[trigger] s2[i]).wf() by {
        assert(s2[i] == states[i]);
    }
    assert forall|i: int| 0 <= i < e2.len() implies ResultIterator::steps_to(
        s2[i],
        #[trigger] e2[i],
        s2[i + 1],
        a2[i],
    ) by {
        assert(e2[i] == events[i]);
        assert(ResultIterator::steps_to(states[i], events[i], states[i + 1], actions[i]));
    }
}

proof fn lemma_page_walk<R>(
    states: Seq<ResultIterator<R>>,
    events: Seq<Event<R>>,
    actions: Seq<Action<R>>,
    o: int,
    p: ResultPage<R>,
    j: int,
)
    requires
        is_run(states, events, actions),
        0 <= o,
        o + 1 + p.items@.len() <= events.len(),
        events.subrange(o, o + 1 + p.items@.len()) == page_events(p),
        states[o].stage() == Stage::Fetching,
        1 <= j <= p.items@.len(),
    ensures
        states[o + j].stage() == Stage::Delivering,
        states[o + j].remaining() == p.items@.skip(j),
        states[o + j].next_page() == p.next,
        forall|q: int| o <= q < o + j ==> (#[trigger] actions[q]) is Deliver,
    decreases j,
{
    let m = p.items@.len() as int;
    assert(events[o] == events.subrange(o, o + 1 + m)[0]);
    if j == 1 {
        assert(ResultIterator::steps_to(states[o], events[o], states[o + 1], actions[o]));
    } else {
        lemma_page_walk(states, events, actions, o, p, j - 1);
        assert(events[o + j - 1] == events.subrange(o, o + 1 + m)[j - 1]);
        assert(ResultIterator::steps_to(
            states[o + j - 1],
            events[o + j - 1],
            states[o + j],
            actions[o + j - 1],
        ));
        assert(p.items@.skip(j - 1).skip(1) =~= p.items@.skip(j));
    }
}

proof fn lemma_page_done<R>(
    states: Seq<ResultIterator<R>>,
    events: Seq<Event<R>>,
    actions: Seq<Action<R>>,
    o: int,
    p: ResultPage<R>,
)
    requires
        is_run(states, events, actions),
        0 <= o,
        o + 1 + p.items@.len() <= events.len(),
        events.subrange(o, o + 1 + p.items@.len()) == page_events(p),
        states[o].stage() == Stage::Fetching,
    ensures
        ({
            let e = o + 1 + p.items@.len();
            match p.next {
                Some(n) => states[e].stage() == Stage::Fetching && actions[e - 1]
                    == Action::<R>::Fetch(Some(n)),
                None => states[e].stage() == Stage::Finished && actions[e - 1]
                    == Action::<R>::Finished,
            }
        }),
{
    let m = p.items@.len() as int;
    assert(events[o] == events.subrange(o, o + 1 + m)[0]);
    if m == 0 {
        assert(ResultIterator::steps_to(states[o], events[o], states[o + 1], actions[o]));
    } else {
        lemma_page_walk(states, events, actions, o, p, m);
        assert(events[o + m] == events.subrange(o, o + 1 + m)[m]);
        assert(ResultIterator::steps_to(states[o + m], events[o + m], states[o + m + 1], actions[o + m]));
    }
}

/// A walk whose every request is answered by the next page of a session's
/// result set, and whose handler accepts every record, ends: its last action
/// is `Finished`, and the handler has had every record of every page, each
/// once, in page order.
pub proof fn lemma_served_run_finishes<R>(
    pages: Seq<ResultPage<R>>,
    states: Seq<ResultIterator<R>>,
    actions: Seq<Action<R>>,
)
    requires
        is_page_chain(pages),
        is_run(states, served_events(pages), actions),
        states[0].stage() == Stage::Fetching,
    ensures
        states.last().stage() == Stage::Finished,
        actions.last() == Action::<R>::Finished,
        states.last().delivered() == concat_items(pages),
{
    lemma_chain_walk(pages, states, actions);
    lemma_served_items(pages);
    lemma_finished_run_delivers_all(states, served_events(pages), actions);
}

proof fn lemma_chain_walk<R>(
    pages: Seq<ResultPage<R>>,
    states: Seq<ResultIterator<R>>,
    actions: Seq<Action<R>>,
)
    requires
        pages.len() > 0,
        is_run(states, served_events(pages), actions),
        states[0].stage() == Stage::Fetching,
        forall|k: int| 0 <= k < pages.len() - 1 ==> (#[trigger] pages[k]).next is Some,
    ensures
        fetched_pages(actions) == Seq::new((pages.len() - 1) as nat, |k: int| pages[k].next) + match pages.last().next {
            Some(n) => seq![Some(n)],
            None => Seq::empty(),
        },
        match pages.last().next {
            Some(n) => states.last().stage() == Stage::Fetching && actions.last()
                == Action::<R>::Fetch(Some(n)),
            None => states.last().stage() == Stage::Finished && actions.last()
                == Action::<R>::Finished,
        },
    decreases pages.len(),
{
    let events = served_events(pages);
    let q = pages.drop_last();
    let p = pages.last();
    let eq = served_events(q);
    let l = eq.len() as int;
    let m = p.items@.len() as int;
    assert(events == eq + page_events(p));
    assert(events.subrange(l, l + 1 + m) =~= page_events(p));
    if q.len() > 0 {
        lemma_run_prefix(states, events, actions, l);
        assert(events.take(l) =~= eq);
        assert forall|k: int| 0 <= k < q.len() - 1 implies (#[trigger] q[k]).next is Some by {
            assert(q[k] == pages[k]);
        }
        lemma_chain_walk(q, states.take(l + 1), actions.take(l));
        assert(q.last() == pages[pages.len() - 2]);
        assert(states.take(l + 1).last() == states[l]);
        assert(q.last().next is Some);
        assert(fetched_pages(actions.take(l)) =~= Seq::new((pages.len() - 1) as nat, |k: int| pages[k].next));
    } else {
        assert(l == 0);
        assert(fetched_pages(actions.take(0)) =~= Seq::new((pages.len() - 1) as nat, |k: int| pages[k].next));
    }
    lemma_page_done(states, events, actions, l, p);
    let seg = actions.subrange(l, l + 1 + m);
    assert(actions =~= actions.take(l) + seg);
    lemma_fetched_split(actions.take(l), seg);
    if m > 0 {
        lemma_page_walk(states, events, actions, l, p, m);
    }
    assert(seg.drop_last() =~= actions.subrange(l, l + m));
    lemma_no_fetch(seg.drop_last());
    assert(seg.last() == actions[l + m]);
}

/// The pages that `actions` ask for, in order.
pub open spec fn fetched_pages<R>(actions: Seq<Action<R>>) -> Seq<Option<u64>>
    decreases actions.len(),
{
    if actions.len() == 0 {
        Seq::empty()
    } else {
        fetched_pages(actions.drop_last()) + match actions.last() {
            Action::Fetch(t) => seq![t],
            _ => Seq::empty(),
        }
    }
}

proof fn lemma_fetched_split<R>(a: Seq<Action<R>>, b: Seq<Action<R>>)
    ensures
        fetched_pages(a + b) == fetched_pages(a) + fetched_pages(b),
    decreases b.len(),
{
    if b.len() == 0 {
        assert(a + b =~= a);
        assert(fetched_pages(a) + fetched_pages(b) =~= fetched_pages(a));
    } else {
        assert((a + b).drop_last() =~= a + b.drop_last());
        lemma_fetched_split(a, b.drop_last());
        assert((a + b).last() == b.last());
        assert(fetched_pages(a + b) =~= fetched_pages(a) + fetched_pages(b));
    }
}

proof fn lemma_no_fetch<R>(a: Seq<Action<R>>)
    requires
        forall|q: int| 0 <= q < a.len() ==> (#[trigger] a[q]) is Deliver,
    ensures
        fetched_pages(a).len() == 0,
    decreases a.len(),
{
    if a.len() > 0 {
        assert(a.last() is Deliver);
        lemma_no_fetch(a.drop_last());
    }
}

/// A walk served the pages of a session's result set asks, after its first
/// request (the one `start` hands out), for the page each served page names
/// as its next, in order, and for no other: one request per page in all.
pub proof fn lemma_served_run_fetches<R>(
    pages: Seq<ResultPage<R>>,
    states: Seq<ResultIterator<R>>,
    actions: Seq<Action<R>>,
)
    requires
        is_page_chain(pages),
        is_run(states, served_events(pages), actions),
        states[0].stage() == Stage::Fetching,
    ensures
        fetched_pages(actions) == Seq::new((pages.len() - 1) as nat, |k: int| pages[k].next),
{
    lemma_chain_walk(pages, states, actions);
    assert(fetched_pages(actions) =~= Seq::new((pages.len() - 1) as nat, |k: int| pages[k].next));
}

/// The items of `pages`, concatenated in page order.
pub open spec fn concat_items<R>(pages: Seq<ResultPage<R>>) -> Seq<R>
    decreases pages.len(),
{
    if pages.len() == 0 {
        Seq::empty()
    } else {
        concat_items(pages.drop_last()) + pages.last().items@
    }
}

proof fn lemma_arrived_split<R>(a: Seq<Event<R>>, b: Seq<Event<R>>)
    ensures
        arrived_items(a + b) == arrived_items(a) + arrived_items(b),
    decreases b.len(),
{
    if b.len() == 0 {
        assert(a + b =~= a);
        assert(arrived_items(a) + arrived_items(b) =~= arrived_items(a));
    } else {
        assert((a + b).drop_last() =~= a + b.drop_last());
        lemma_arrived_split(a, b.drop_last());
        assert((a + b).last() == b.last());
        assert(arrived_items(a + b) =~= arrived_items(a) + arrived_items(b));
    }
}

proof fn lemma_handled_arrive_nothing<R>(m: nat)
    ensures
        arrived_items(Seq::new(m, |k: int| Event::<R>::Handled)).len() == 0,
    decreases m,
{
    if m > 0 {
        let s = Seq::new(m, |k: int| Event::<R>::Handled);
        assert(s.drop_last() =~= Seq::new((m - 1) as nat, |k: int| Event::<R>::Handled));
        lemma_handled_arrive_nothing::<R>((m - 1) as nat);
    }
}

/// Serving `pages` in order hands the walk exactly their items, concatenated.
pub proof fn lemma_served_items<R>(pages: Seq<ResultPage<R>>)
    ensures
        arrived_items(served_events(pages)) == concat_items(pages),
    decreases pages.len(),
{
    if pages.len() > 0 {
        let p = pages.last();
        lemma_served_items(pages.drop_last());
        let h = Seq::new(p.items@.len(), |k: int| Event::<R>::Handled);
        lemma_arrived_split(served_events(pages.drop_last()), page_events(p));
        lemma_arrived_split(seq![Event::PageArrived(p)], h);
        lemma_handled_arrive_nothing::<R>(p.items@.len());
        let one = seq![Event::PageArrived(p)];
        assert(one.drop_last() =~= Seq::<Event<R>>::empty());
        assert(one.last() == Event::PageArrived(p));
        assert(arrived_items(Seq::<Event<R>>::empty()) =~= Seq::<R>::empty());
        assert(arrived_items(one) =~= p.items@);
        assert(arrived_items(page_events(p)) =~= p.items@);
    }
}

} // verus!
