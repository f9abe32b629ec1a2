//! Values that an actor hands back for a message, and the request that
//! carries a message together with the place its answer goes.
use vstd::prelude::*;
use std::marker::PhantomData;

verus! {

/// A value that becomes available, now or later.
pub trait Async: Sized {
    /// Hands the value to `cb` once it is complete.
    fn ready<F: FnOnce(Self)>(self, cb: F)
        requires
            call_requires(cb, (self,)),
    ;

    /// A request carrying `msg`, and the value through which its answer is
    /// seen.
    fn request<Msg>(msg: Msg) -> (Request<Msg, Self>, Self);

    /// Forwards this value into the response of a request.
    fn link(self, resp: Response<Self>);
}

/// A message with the response slot its answer goes to.
pub struct Request<Msg, T> {
    pub message: Msg,
    pub response: Response<T>,
}

/// The slot an answer goes to.
pub struct Response<T> {
    pub value: T,
}

impl<Msg, T> Request<Msg, T> {
    pub fn new(message: Msg, value: T) -> (r: Request<Msg, T>)
        ensures
            r.message == message,
            r.response.value == value,
    {
        Request { message, response: Response { value } }
    }
}

impl Async for () {
    fn ready<F: FnOnce(())>(self, cb: F) {
        cb(self);
    }

    fn request<Msg>(msg: Msg) -> (r: (Request<Msg, ()>, ()))
        ensures
            r.0.message == msg,
    {
        (Request::new(msg, ()), ())
    }

    fn link(self, _resp: Response<()>) {
    }
}

/// A stream of values; it carries nothing yet.
pub struct Stream<T> {
    pub marker: PhantomData<T>,
}

} // verus!
