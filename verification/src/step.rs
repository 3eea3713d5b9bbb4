//! Operations as machines that ask and are answered.
//!
//! Nothing in this library reads or writes a store itself. An operation is a value that is either
//! finished or waits for the reply to one request. A driver performs the request, hands the reply
//! to [`Operation::resume`], and goes on with the [`Step`] that comes back.

use vstd::prelude::*;

verus! {

/// Where an operation stands: it asks for something and keeps a state to go on from, or it is
/// done.
#[derive(Debug)]
pub enum Step<Q, S, T, X> {
    /// Perform the request, then resume the state with the reply.
    Ask(Q, S),
    /// The operation has ended.
    Done(Result<T, X>),
}

/// A result by its contents.
pub open spec fn outcome<T: DeepView, X: DeepView>(result: Result<T, X>) -> Result<T::V, X::V> {
    match result {
        Ok(t) => Ok(t.deep_view()),
        Err(x) => Err(x.deep_view()),
    }
}

impl<Q: DeepView, S: DeepView, T: DeepView, X: DeepView> DeepView for Step<Q, S, T, X> {
    type V = Step<Q::V, S::V, T::V, X::V>;

    open spec fn deep_view(&self) -> Self::V {
        match self {
            Step::Ask(q, s) => Step::Ask(q.deep_view(), s.deep_view()),
            Step::Done(result) => Step::Done(outcome(*result)),
        }
    }
}

/// An operation that waits for a reply of type `P` to a request of type `Q`.
pub trait Operation<Q, P>: Sized {
    /// What the operation gives when it succeeds.
    type Value;

    /// What the operation gives when it fails.
    type Failure;

    /// The replies that this operation goes on from.
    spec fn awaits(&self, reply: &P) -> bool;

    /// Takes the reply to the request and goes on to the next request or to the end.
    fn resume(self, reply: P) -> Step<Q, Self, Self::Value, Self::Failure>
        requires
            self.awaits(&reply),
    ;
}

/// A request, by its contents, that replies of type `P` are for.
pub trait Request<P>: Sized {
    /// The replies that answer the request.
    spec fn answered_by(self, reply: P) -> bool;
}

/// The mathematical side of an [`Operation`]: requests, replies and states by their contents.
pub trait Program<Q: Request<P>, P>: Sized {
    /// What the program gives when it succeeds.
    type Value;

    /// What the program gives when it fails.
    type Failure;

    /// The replies that the program goes on from.
    spec fn expects(self, reply: P) -> bool;

    /// The step that follows when the reply to the outstanding request is `reply`.
    spec fn next(self, reply: P) -> Step<Q, Self, Self::Value, Self::Failure>;

    /// Whatever the program asks for next, it goes on from every reply that answers that.
    proof fn goes_on(self, reply: P)
        requires
            self.expects(reply),
        ensures
            self.next(reply) matches Step::Ask(request, state) ==> forall|r: P| #[trigger]
                request.answered_by(r) ==> state.expects(r),
    ;
}

/// A store that performs requests of type `Q` and never fails to.
pub trait Service<Q, P>: Sized {
    /// The reply to `request`, and the store afterwards.
    spec fn serve(self, request: Q) -> (P, Self);
}

/// How a program ends when `store` serves it, and the store afterwards, if `limit` requests are
/// enough for it.
pub open spec fn run<Q: Request<P>, P, S: Program<Q, P>, W: Service<Q, P>>(
    step: Step<Q, S, S::Value, S::Failure>,
    store: W,
    limit: nat,
) -> Option<(Result<S::Value, S::Failure>, W)>
    decreases limit,
{
    match step {
        Step::Done(result) => Some((result, store)),
        Step::Ask(request, state) => if limit == 0 {
            None
        } else {
            let (reply, after) = store.serve(request);
            run(state.next(reply), after, (limit - 1) as nat)
        },
    }
}

/// The program goes on from every reply that answers its request.
pub open spec fn answerable<Q: Request<P>, P, S: Program<Q, P>>(
    step: Step<Q, S, S::Value, S::Failure>,
) -> bool {
    match step {
        Step::Ask(request, state) => forall|reply: P| #[trigger]
            request.answered_by(reply) ==> state.expects(reply),
        Step::Done(_) => true,
    }
}

/// A program that is answerable stays so: a driver that answers each request has met all that is
/// required of it.
pub proof fn law_stays_answerable<Q: Request<P>, P, S: Program<Q, P>>(
    request: Q,
    state: S,
    reply: P,
)
    requires
        answerable::<Q, P, S>(Step::Ask(request, state)),
        request.answered_by(reply),
    ensures
        answerable::<Q, P, S>(state.next(reply)),
{
    let step = Step::<Q, S, S::Value, S::Failure>::Ask(request, state);
    assert(step->Ask_0.answered_by(reply));
    state.goes_on(reply);
}

/// The contents of a step are those of its parts.
pub proof fn law_contents<Q: DeepView, S: DeepView, T: DeepView, X: DeepView>(
    step: Step<Q, S, T, X>,
)
    ensures
        step.deep_view() == match step {
            Step::Ask(request, state) => Step::<Q::V, S::V, T::V, X::V>::Ask(
                request.deep_view(),
                state.deep_view(),
            ),
            Step::Done(Ok(value)) => Step::Done(Ok(value.deep_view())),
            Step::Done(Err(error)) => Step::Done(Err(error.deep_view())),
        },
{
}

} // verus!
