//! Small adapters around a single operation or future.

use crate::slot::{Operation, Readiness, Teardown, WakeToken};
use std::future::Future;
use vstd::prelude::*;

verus! {

/// Wraps an ordinary future so that it can stand where an operation is expected. An
/// ordinary future holds nothing that outlives it, so its cancellation is immediate.
pub struct Adapter<F>(pub F);

/// Extension of every ordinary future with the conversion into an [`Adapter`].
pub trait FutureExt: Future + Sized {
    /// Wraps this future, unchanged, in an [`Adapter`].
    fn into_completion(self) -> (a: Adapter<Self>)
        ensures
            a.0 == self,
    {
        Adapter(self)
    }
}

impl<T: Future> FutureExt for T {
}

/// The answer to a cancellation query of an operation that must run to completion,
/// given what its readiness query answered: the operation counts as cancelled once it
/// has finished, and its output is dropped.
pub fn teardown_when_done<O>(r: Readiness<O>) -> (t: Teardown)
    ensures
        t is Cancelled <==> r is Done,
{
    match r {
        Readiness::Done(_) => Teardown::Cancelled,
        Readiness::Pending => Teardown::Pending,
    }
}

/// What a fire-and-peek operation answers when its inner operation, asked to cancel,
/// answered `t`.
pub open spec fn nothing_when<O>(t: Teardown) -> Readiness<Option<O>> {
    match t {
        Teardown::Cancelled => Readiness::Done(None::<O>),
        Teardown::Pending => Readiness::Pending,
    }
}

/// The answer of a fire-and-peek operation whose inner operation was asked to cancel:
/// it finishes without an output once the inner operation has acknowledged.
pub fn nothing_when_cancelled<O>(t: Teardown) -> (r: Readiness<Option<O>>)
    ensures
        r == nothing_when::<O>(t),
{
    match t {
        Teardown::Cancelled => Readiness::Done(None),
        Teardown::Pending => Readiness::Pending,
    }
}

/// The answer to a readiness query that was made behind a fault barrier: a fault `p`
/// that the query raised is the output of the operation, which has thereby finished.
pub fn ready_or_fault<O, P>(r: Result<Readiness<O>, P>) -> (out: Readiness<Result<O, P>>)
    ensures
        out == (match r {
            Ok(Readiness::Pending) => Readiness::Pending,
            Ok(Readiness::Done(o)) => Readiness::Done(Ok(o)),
            Err(p) => Readiness::Done(Err(p)),
        }),
{
    match r {
        Ok(Readiness::Pending) => Readiness::Pending,
        Ok(Readiness::Done(o)) => Readiness::Done(Ok(o)),
        Err(p) => Readiness::Done(Err(p)),
    }
}

/// The answer to a cancellation query that was made behind a fault barrier: an operation
/// that raised a fault while cancelling counts as cancelled.
pub fn cancelled_or_fault<P>(t: Result<Teardown, P>) -> (out: Teardown)
    ensures
        out == (match t {
            Ok(t) => t,
            Err(_) => Teardown::Cancelled,
        }),
{
    match t {
        Ok(t) => t,
        Err(_) => Teardown::Cancelled,
    }
}

/// An operation that ignores requests to cancel: a cancellation query drives the inner
/// operation towards its output instead, and reports `Cancelled` when it has finished.
pub struct MustComplete<Op> {
    inner: Op,
}

impl<Op> MustComplete<Op> {
    pub closed spec fn inner(&self) -> Op {
        self.inner
    }

    pub fn new(inner: Op) -> (m: Self)
        ensures
            m.inner() == inner,
    {
        MustComplete { inner }
    }

    pub fn into_inner(self) -> (op: Op)
        ensures
            op == self.inner(),
    {
        self.inner
    }
}

impl<Op: Operation> Operation for MustComplete<Op> {
    type Output = Op::Output;

    /// A readiness query is that of the inner operation.
    open spec fn ready_step(
        &self,
        token: WakeToken,
        r: Readiness<Op::Output>,
        after: &Self,
    ) -> bool {
        self.inner().ready_step(token, r, &after.inner())
    }

    /// A cancellation query is a readiness query of the inner operation, whose output
    /// is dropped: it answers `Cancelled` exactly when the inner operation finished.
    open spec fn cancel_step(&self, token: WakeToken, t: Teardown, after: &Self) -> bool {
        exists|r: Readiness<Op::Output>|
            #[trigger] self.inner().ready_step(token, r, &after.inner()) && (t is Cancelled
                <==> r is Done)
    }

    /// Hands the query, with its token, to the inner operation and its answer back.
    fn poll_ready(&mut self, token: WakeToken) -> (r: Readiness<Op::Output>)
        ensures
            old(self).inner().ready_step(token, r, &final(self).inner()),
    {
        self.inner.poll_ready(token)
    }

    /// Asks the inner operation, with the same token, whether it is ready, and answers
    /// `Cancelled` exactly when it has finished.
    fn poll_cancel(&mut self, token: WakeToken) -> (t: Teardown)
        ensures
            exists|r: Readiness<Op::Output>|
                #[trigger] old(self).inner().ready_step(token, r, &final(self).inner()) && (t
                    is Cancelled <==> r is Done),
    {
        let r = self.inner.poll_ready(token);
        assert(old(self).inner().ready_step(token, r, &self.inner()));
        teardown_when_done(r)
    }
}

/// An operation that yields the output of the inner operation if the first readiness
/// query finds it, and otherwise cancels the inner operation and yields nothing.
pub struct NowOrNever<Op> {
    inner: Op,
    cancelling: bool,
}

impl<Op> NowOrNever<Op> {
    pub closed spec fn inner(&self) -> Op {
        self.inner
    }

    /// Whether the one readiness query was made and found the inner operation pending.
    pub closed spec fn is_cancelling(&self) -> bool {
        self.cancelling
    }

    pub fn new(inner: Op) -> (n: Self)
        ensures
            n.inner() == inner,
            !n.is_cancelling(),
    {
        NowOrNever { inner, cancelling: false }
    }

    pub fn cancelling(&self) -> (b: bool)
        ensures
            b == self.is_cancelling(),
    {
        self.cancelling
    }
}

impl<Op: Operation> Operation for NowOrNever<Op> {
    type Output = Option<Op::Output>;

    /// The first readiness query asks the inner operation whether it is ready and yields
    /// its output if it is; if it is not, the same query goes on to ask it to cancel.
    /// Every later query only asks the inner operation to cancel, and yields nothing once
    /// it has acknowledged.
    open spec fn ready_step(
        &self,
        token: WakeToken,
        r: Readiness<Option<Op::Output>>,
        after: &Self,
    ) -> bool {
        if self.is_cancelling() {
            &&& after.is_cancelling()
            &&& exists|t: Teardown|
                #[trigger] self.inner().cancel_step(token, t, &after.inner()) && r
                    == nothing_when::<Op::Output>(t)
        } else {
            ||| {
                &&& !after.is_cancelling()
                &&& r matches Readiness::Done(Some(output))
                &&& self.inner().ready_step(token, Readiness::Done(output), &after.inner())
            }
            ||| {
                &&& after.is_cancelling()
                &&& exists|mid: Op, t: Teardown|
                    {
                        &&& self.inner().ready_step(token, Readiness::Pending, &mid)
                        &&& #[trigger] mid.cancel_step(token, t, &after.inner())
                        &&& r == nothing_when::<Op::Output>(t)
                    }
            }
        }
    }

    /// A cancellation query is that of the inner operation, and leaves the adapter as
    /// far from its one readiness query as it was.
    open spec fn cancel_step(&self, token: WakeToken, t: Teardown, after: &Self) -> bool {
        &&& after.is_cancelling() == self.is_cancelling()
        &&& self.inner().cancel_step(token, t, &after.inner())
    }

    fn poll_ready(&mut self, token: WakeToken) -> (r: Readiness<Option<Op::Output>>)
        ensures
            old(self).is_cancelling() ==> final(self).is_cancelling(),
            old(self).is_cancelling() ==> r is Pending || r == Readiness::Done(
                None::<Op::Output>,
            ),
            r is Pending ==> final(self).is_cancelling(),
            !final(self).is_cancelling() ==> (r matches Readiness::Done(Some(_))),
    {
        let ghost start = self.inner;
        if !self.cancelling {
            let first = self.inner.poll_ready(token);
            assert(start.ready_step(token, first, &self.inner()));
            match first {
                Readiness::Done(output) => {
                    return Readiness::Done(Some(output));
                },
                Readiness::Pending => {
                    self.cancelling = true;
                },
            }
        }
        let ghost mid = self.inner;
        let t = self.inner.poll_cancel(token);
        assert(mid.cancel_step(token, t, &self.inner()));
        let r = nothing_when_cancelled(t);
        proof {
            if old(self).is_cancelling() {
                assert(old(self).inner().cancel_step(token, t, &self.inner()));
            } else {
                assert(old(self).inner().ready_step(token, Readiness::Pending, &mid));
            }
            assert(old(self).ready_step(token, r, self));
        }
        r
    }

    /// Hands the query, with its token, to the inner operation and its answer back.
    fn poll_cancel(&mut self, token: WakeToken) -> (t: Teardown)
        ensures
            final(self).is_cancelling() == old(self).is_cancelling(),
            old(self).inner().cancel_step(token, t, &final(self).inner()),
    {
        self.inner.poll_cancel(token)
    }
}

} // verus!
