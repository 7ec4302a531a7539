//! The layer that makes the headers of an inbound request available to the
//! stages: it copies them into the request's extensions, where the context
//! bag of the call is filled from.

use vstd::prelude::*;
use crate::middlewares::context::{clone_headers, header_texts, ContextBag, ContextView};

verus! {

/// An inbound request as far as the layer reads and writes it: the headers
/// that came with it, and the headers that its extensions hold.
#[derive(Debug)]
pub struct InboundRequest {
    pub headers: Vec<(String, String)>,
    pub extensions: Option<Vec<(String, String)>>,
}

/// Wraps a service into one that sets the header extensions.
#[derive(Debug, Clone, Copy, PartialEq, Eq, Structural)]
pub struct SetHeaderExtensionsLayer {}

impl SetHeaderExtensionsLayer {
    pub fn new() -> (layer: Self)
        ensures
            layer == (SetHeaderExtensionsLayer {  }),
    {
        Self {  }
    }

    /// The service `inner` behind this layer.
    pub fn layer<S>(&self, inner: S) -> (service: SetHeaderExtensions<S>)
        ensures
            service.inner() == inner,
    {
        SetHeaderExtensions::new(inner)
    }
}

/// A service that sets the header extensions of each request before its
/// inner service sees it.
#[derive(Debug, Clone)]
pub struct SetHeaderExtensions<S> {
    inner: S,
}

impl<S> SetHeaderExtensions<S> {
    /// The service that this one wraps.
    pub closed spec fn inner(self) -> S {
        self.inner
    }

    pub fn new(inner: S) -> (service: Self)
        ensures
            service.inner() == inner,
    {
        Self { inner }
    }

    /// The service that this one wraps.
    pub fn get_ref(&self) -> (inner: &S)
        ensures
            *inner == self.inner(),
    {
        &self.inner
    }

    /// The service that this one wraps, to call it.
    pub fn get_mut(&mut self) -> (inner: &mut S)
        ensures
            *inner == old(self).inner(),
            final(self).inner() == *final(inner),
    {
        &mut self.inner
    }

    /// The service that this one wraps, out of its wrapper.
    pub fn into_inner(self) -> (inner: S)
        ensures
            inner == self.inner(),
    {
        self.inner
    }

    /// What the service does to a request before it hands it on: the
    /// extensions get a copy of the headers, in place of headers that they
    /// held; the headers stay.
    pub fn prepare(&self, request: InboundRequest) -> (prepared: InboundRequest)
        ensures
            prepared.headers == request.headers,
            prepared.extensions is Some,
            header_texts(prepared.extensions->Some_0@) == header_texts(request.headers@),
    {
        let copy = clone_headers(&request.headers);
        InboundRequest { headers: request.headers, extensions: Some(copy) }
    }
}

/// Fills the context bag of a call from the extensions of its request: the
/// bag gets the headers that the extensions hold, and keeps what it has where
/// they hold none.
pub fn fill_context(request: &InboundRequest, context: &mut ContextBag)
    ensures
        final(context)@ == match request.extensions {
            Some(headers) => ContextView { headers: header_texts(headers@), ..old(context)@ },
            None => old(context)@,
        },
{
    match &request.extensions {
        Some(headers) => {
            context.set_headers(clone_headers(headers));
        },
        None => {},
    }
}

} // verus!
