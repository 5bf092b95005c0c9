//! Conditional dispatch: a predicate either hands a request on to the wrapped
//! handler or answers it with a response of its own.
use vstd::prelude::*;

verus! {

/// Checks a request synchronously.
///
/// Users implement it for their own checks.
pub trait Predicate<Request> {
    /// The request that goes on to the wrapped handler when the check succeeds.
    type Request;

    /// The response sent back when the check fails.
    type Response;

    /// Checks whether the request should be forwarded.
    fn check(&self, request: Request) -> Result<Self::Request, Self::Response>;
}

/// Checks a request asynchronously.
///
/// Users implement it for their own checks; `Future` resolves to what
/// [`Predicate::check`] would return.
pub trait AsyncPredicate<R> {
    /// The request that goes on to the wrapped handler when the check succeeds.
    type Request;

    /// The response sent back when the check fails.
    type Response;

    /// The pending check.
    type Future;

    /// Starts checking whether the request should be forwarded.
    fn check(&self, request: R) -> Self::Future;
}

/// What becomes of a checked request.
#[derive(Debug)]
pub enum Dispatch<Q, S> {
    /// The wrapped handler is called once, with this request.
    Forward(Q),
    /// The wrapped handler is not called; this response is returned.
    Respond(S),
}

/// The dispatch that a check's outcome calls for.
pub open spec fn dispatch_of<Q, S>(checked: Result<Q, S>) -> Dispatch<Q, S> {
    match checked {
        Ok(q) => Dispatch::Forward(q),
        Err(s) => Dispatch::Respond(s),
    }
}

/// How many times the wrapped handler runs under a dispatch.
pub open spec fn handler_calls<Q, S>(d: Dispatch<Q, S>) -> nat {
    match d {
        Dispatch::Forward(_) => 1,
        Dispatch::Respond(_) => 0,
    }
}

/// Turns the outcome of a check into a dispatch.
pub fn route<Q, S>(checked: Result<Q, S>) -> (d: Dispatch<Q, S>)
    ensures
        d == dispatch_of(checked),
{
    match checked {
        Ok(q) => Dispatch::Forward(q),
        Err(s) => Dispatch::Respond(s),
    }
}

/// A request that passes the check reaches the wrapped handler exactly once, as the
/// request that the check handed on; a request that fails it never reaches the handler,
/// and the check's response is what the caller gets.
pub proof fn lemma_dispatch_calls<Q, S>(checked: Result<Q, S>)
    ensures
        checked is Ok ==> handler_calls(dispatch_of(checked)) == 1 && dispatch_of(checked)
            == Dispatch::<Q, S>::Forward(checked->Ok_0),
        checked is Err ==> handler_calls(dispatch_of(checked)) == 0 && dispatch_of(checked)
            == Dispatch::<Q, S>::Respond(checked->Err_0),
{
}

/// Dispatches requests to `inner` according to a synchronous [`Predicate`].
#[derive(Debug, Clone)]
pub struct FilterEx<T, U> {
    inner: T,
    predicate: U,
}

impl<T, U> FilterEx<T, U> {
    pub closed spec fn service(&self) -> T {
        self.inner
    }

    pub closed spec fn guard(&self) -> U {
        self.predicate
    }

    /// A filter in front of `inner`.
    pub fn new(inner: T, predicate: U) -> (r: Self)
        ensures
            r.service() == inner,
            r.guard() == predicate,
    {
        FilterEx { inner, predicate }
    }

    /// A layer that puts this filter, with `predicate`, in front of services.
    pub fn layer(predicate: U) -> (r: FilterExLayer<U>)
        ensures
            r.guard() == predicate,
    {
        FilterExLayer::new(predicate)
    }

    /// Checks a request against the filter's predicate.
    pub fn check<R>(&mut self, request: R) -> (r: Result<U::Request, U::Response>)
        where
            U: Predicate<R>,
        ensures
            *final(self) == *old(self),
    {
        self.predicate.check(request)
    }

    /// The wrapped service.
    pub fn get_ref(&self) -> (r: &T)
        ensures
            *r == self.service(),
    {
        &self.inner
    }

    /// The wrapped service, for changing it.
    pub fn get_mut(&mut self) -> (r: &mut T)
        ensures
            *r == old(self).service(),
            final(self).service() == *final(r),
            final(self).guard() == old(self).guard(),
    {
        &mut self.inner
    }

    /// The wrapped service, giving up the filter.
    pub fn into_inner(self) -> (r: T)
        ensures
            r == self.service(),
    {
        self.inner
    }
}

/// Produces [`FilterEx`] services around the services it is applied to.
#[derive(Debug, Clone)]
pub struct FilterExLayer<U> {
    predicate: U,
}

impl<U> FilterExLayer<U> {
    pub closed spec fn guard(&self) -> U {
        self.predicate
    }

    /// A layer that filters with `predicate`.
    pub fn new(predicate: U) -> (r: Self)
        ensures
            r.guard() == predicate,
    {
        FilterExLayer { predicate }
    }

    /// The predicate that each produced filter uses.
    pub fn predicate(&self) -> (r: &U)
        ensures
            *r == self.guard(),
    {
        &self.predicate
    }
}

/// Dispatches requests to `inner` according to an [`AsyncPredicate`].
#[derive(Debug, Clone)]
pub struct AsyncFilterEx<T, U> {
    inner: T,
    predicate: U,
}

impl<T, U> AsyncFilterEx<T, U> {
    pub closed spec fn service(&self) -> T {
        self.inner
    }

    pub closed spec fn guard(&self) -> U {
        self.predicate
    }

    /// A filter in front of `inner`.
    pub fn new(inner: T, predicate: U) -> (r: Self)
        ensures
            r.service() == inner,
            r.guard() == predicate,
    {
        AsyncFilterEx { inner, predicate }
    }

    /// A layer that puts this filter, with `predicate`, in front of services.
    pub fn layer<R>(predicate: U) -> (r: AsyncFilterExLayer<U, R>)
        where
            U: AsyncPredicate<R>,
        ensures
            r.guard() == predicate,
    {
        AsyncFilterExLayer::new(predicate)
    }

    /// Starts checking a request against the filter's predicate.
    pub fn check<R>(&mut self, request: R) -> (r: U::Future)
        where
            U: AsyncPredicate<R>,
        ensures
            *final(self) == *old(self),
    {
        self.predicate.check(request)
    }

    /// The wrapped service.
    pub fn get_ref(&self) -> (r: &T)
        ensures
            *r == self.service(),
    {
        &self.inner
    }

    /// The wrapped service, for changing it.
    pub fn get_mut(&mut self) -> (r: &mut T)
        ensures
            *r == old(self).service(),
            final(self).service() == *final(r),
            final(self).guard() == old(self).guard(),
    {
        &mut self.inner
    }

    /// The wrapped service, giving up the filter.
    pub fn into_inner(self) -> (r: T)
        ensures
            r == self.service(),
    {
        self.inner
    }

    /// The predicate.
    pub fn predicate(&self) -> (r: &U)
        ensures
            *r == self.guard(),
    {
        &self.predicate
    }
}

/// Produces [`AsyncFilterEx`] services around the services it is applied to.
#[derive(Debug)]
pub struct AsyncFilterExLayer<U, R> {
    predicate: U,
    request: std::marker::PhantomData<R>,
}

impl<U: Clone, R> Clone for AsyncFilterExLayer<U, R> {
    fn clone(&self) -> Self {
        AsyncFilterExLayer { predicate: self.predicate.clone(), request: std::marker::PhantomData }
    }
}

impl<U, R> AsyncFilterExLayer<U, R> {
    pub closed spec fn guard(&self) -> U {
        self.predicate
    }

    /// A layer that filters with `predicate`.
    pub fn new(predicate: U) -> (r: Self)
        where
            U: AsyncPredicate<R>,
        ensures
            r.guard() == predicate,
    {
        AsyncFilterExLayer { predicate, request: std::marker::PhantomData }
    }

    /// The predicate that each produced filter uses.
    pub fn predicate(&self) -> (r: &U)
        ensures
            *r == self.guard(),
    {
        &self.predicate
    }
}

} // verus!
