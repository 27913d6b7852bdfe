//! The application: its configuration, and what the accept loop decides for
//! the bytes of each connection.
//!
//! The loop itself, which accepts, reads and hands work to the pool, is not
//! here: it gives the bytes it read to [`App::dispatch`] and carries out what
//! comes back.

use vstd::prelude::*;
use crate::defaults::{bad_request, default_route_400, default_view_400};
use crate::request::{parse_request, ParseError, Request};
use crate::response::Response;

verus! {

/// The address that is bound where none other is configured.
pub const DEFAULT_BIND: &'static str = "127.0.0.1:7878";

/// The number of workers where none other is configured.
pub const DEFAULT_THREADPOOL_SIZE: usize = 4;

/// The number of bytes that are read off a connection, in one read. A
/// request that is longer is cut off there.
pub const REQUEST_BUFFER_SIZE: usize = 1024;

/// A view for a request that could not be parsed: it answers the error.
#[derive(Clone, Copy, Debug, PartialEq, Eq)]
pub enum ErrorView {
    /// Answers with a plain text `400 BAD REQUEST` that names the error.
    BadRequest,
}

impl ErrorView {
    /// Answers `error`.
    pub fn call(&self, error: ParseError) -> (r: Response)
        ensures
            r@ == bad_request(error@),
    {
        match self {
            ErrorView::BadRequest => default_view_400(error),
        }
    }
}

/// A route for requests that could not be parsed: it picks the view for an error.
#[derive(Clone, Copy, Debug, PartialEq, Eq)]
pub enum ErrorRouteFn {
    /// Routes every error to [`ErrorView::BadRequest`].
    Default400,
}

impl ErrorRouteFn {
    /// The view for `error`.
    pub fn call(&self, error: &ParseError) -> (view: ErrorView)
        ensures
            view == ErrorView::BadRequest,
    {
        match self {
            ErrorRouteFn::Default400 => default_route_400(error),
        }
    }
}

/// An application under construction. `R` is the route function, which
/// picks a view for a request.
pub struct AppBuilder<R> {
    route_fn: Option<R>,
    route_400_fn: Option<ErrorRouteFn>,
    bind: Option<&'static str>,
    threadpool_size: Option<usize>,
}

/// What a builder is: what has been set so far.
pub struct AppBuilderView<R> {
    pub route_fn: Option<R>,
    pub route_400_fn: Option<ErrorRouteFn>,
    pub bind: Option<&'static str>,
    pub threadpool_size: Option<usize>,
}

impl<R> View for AppBuilder<R> {
    type V = AppBuilderView<R>;

    closed spec fn view(&self) -> AppBuilderView<R> {
        AppBuilderView {
            route_fn: self.route_fn,
            route_400_fn: self.route_400_fn,
            bind: self.bind,
            threadpool_size: self.threadpool_size,
        }
    }
}

/// A configured application.
pub struct App<R> {
    route_fn: R,
    route_400_fn: ErrorRouteFn,
    bind: &'static str,
    threadpool_size: usize,
}

/// What an application is: its configuration.
pub struct AppView<R> {
    pub route_fn: R,
    pub route_400_fn: ErrorRouteFn,
    pub bind: &'static str,
    pub threadpool_size: usize,
}

impl<R> View for App<R> {
    type V = AppView<R>;

    closed spec fn view(&self) -> AppView<R> {
        AppView {
            route_fn: self.route_fn,
            route_400_fn: self.route_400_fn,
            bind: self.bind,
            threadpool_size: self.threadpool_size,
        }
    }
}

/// What is to be done for one connection.
pub enum Dispatch<V> {
    /// The request parsed: `view` is to answer `request`.
    Handle { view: V, request: Request },
    /// The request did not parse: `error_view` is to answer `error`.
    Reject { error_view: ErrorView, error: ParseError },
}

impl<R> App<R> {
    /// An application has at least one worker.
    #[verifier::type_invariant]
    spec fn has_workers(self) -> bool {
        self.threadpool_size > 0
    }

    /// Starts an application with nothing configured.
    pub fn build() -> (builder: AppBuilder<R>)
        ensures
            builder@ == (AppBuilderView::<R> {
                route_fn: None,
                route_400_fn: None,
                bind: None,
                threadpool_size: None,
            }),
    {
        AppBuilder { route_fn: None, route_400_fn: None, bind: None, threadpool_size: None }
    }

    /// The address to bind.
    pub fn bind(&self) -> (bind: &'static str)
        ensures
            bind == self@.bind,
    {
        self.bind
    }

    /// The number of workers, which is positive.
    pub fn threadpool_size(&self) -> (size: usize)
        ensures
            size == self@.threadpool_size,
            size > 0,
    {
        proof {
            use_type_invariant(self);
        }
        self.threadpool_size
    }

    /// Decides what is to be done for the bytes read off one connection.
    ///
    /// Bytes that parse go to the view that the route function picks for the
    /// request; bytes that do not go to the view that the error route picks
    /// for the error.
    pub fn dispatch<V>(&self, raw: &[u8]) -> (d: Dispatch<V>) where R: Fn(&Request) -> V
        requires
            forall|request: &Request| call_requires(self@.route_fn, (request,)),
        ensures
            match parse_request(raw@) {
                Ok(parsed) => d matches Dispatch::Handle { view, request } && request@ == parsed
                    && call_ensures(self@.route_fn, (&request,), view),
                Err(refused) => d matches Dispatch::Reject { error_view, error } && error@
                    == refused && error_view == ErrorView::BadRequest,
            },
    {
        match Request::parse(raw) {
            Ok(request) => {
                assert(self.route_fn == self@.route_fn);
                let view = (self.route_fn)(&request);
                Dispatch::Handle { view, request }
            },
            Err(error) => {
                let error_view = self.route_400_fn.call(&error);
                Dispatch::Reject { error_view, error }
            },
        }
    }
}

impl<R> AppBuilder<R> {
    /// Whether the route function is set, so that the application can be built.
    pub fn has_route_fn(&self) -> (b: bool)
        ensures
            b == self@.route_fn is Some,
    {
        self.route_fn.is_some()
    }

    /// Sets the route function.
    pub fn with_route_fn(&mut self, route_fn: R) -> (builder: &mut Self)
        ensures
            *final(self) == *final(builder),
            builder@ == (AppBuilderView { route_fn: Some(route_fn), ..old(self)@ }),
    {
        self.route_fn = Some(route_fn);
        self
    }

    /// Sets the address to bind.
    pub fn bound_to(&mut self, bind: &'static str) -> (builder: &mut Self)
        ensures
            *final(self) == *final(builder),
            builder@ == (AppBuilderView { bind: Some(bind), ..old(self)@ }),
    {
        self.bind = Some(bind);
        self
    }

    /// Sets the error route, the address and the number of workers to their
    /// defaults, whatever they were set to. The route function has no
    /// default and stays as it is.
    pub fn fill_defaults(&mut self) -> (builder: &mut Self)
        ensures
            *final(self) == *final(builder),
            builder@ == (AppBuilderView {
                route_fn: old(self)@.route_fn,
                route_400_fn: Some(ErrorRouteFn::Default400),
                bind: Some(DEFAULT_BIND),
                threadpool_size: Some(DEFAULT_THREADPOOL_SIZE),
            }),
    {
        self.route_400_fn = Some(ErrorRouteFn::Default400);
        self.bind = Some(DEFAULT_BIND);
        self.threadpool_size = Some(DEFAULT_THREADPOOL_SIZE);
        self
    }

    /// Fills in the defaults and makes the application, which leaves the
    /// builder with nothing set. The route function must have been set.
    pub fn build(&mut self) -> (app: App<R>)
        requires
            old(self)@.route_fn is Some,
        ensures
            app@ == (AppView {
                route_fn: old(self)@.route_fn->Some_0,
                route_400_fn: ErrorRouteFn::Default400,
                bind: DEFAULT_BIND,
                threadpool_size: DEFAULT_THREADPOOL_SIZE,
            }),
            final(self)@ == (AppBuilderView::<R> {
                route_fn: None,
                route_400_fn: None,
                bind: None,
                threadpool_size: None,
            }),
    {
        self.fill_defaults();
        let route_fn = self.route_fn.take();
        let route_400_fn = self.route_400_fn.take();
        let bind = self.bind.take();
        let threadpool_size = self.threadpool_size.take();
        App {
            route_fn: route_fn.unwrap(),
            route_400_fn: route_400_fn.unwrap(),
            bind: bind.unwrap(),
            threadpool_size: threadpool_size.unwrap(),
        }
    }
}

} // verus!
