//! The entry point: for each exposed method one chain, built at startup and
//! used for every call of the method, each call with a context bag of its
//! own.

use vstd::prelude::*;
use crate::error::{result_view, GatewayError};
use crate::extensions::ExtensionRegistry;
use crate::middlewares::cache::{CacheStore, EntryView};
use crate::middlewares::call::CallRequest;
use crate::middlewares::chain::{ascended, descended, planned, Chain, Descent};
use crate::middlewares::context::{header_texts, ContextBag, ContextView};
use crate::middlewares::stage::{MethodConfig, StageView};

verus! {

/// One exposed method: its chain and its cache.
#[derive(Debug)]
pub struct Route {
    method: String,
    chain: Chain,
    cache: CacheStore,
}

impl Route {
    /// The name of the method.
    pub closed spec fn method(self) -> Seq<char> {
        self.method@
    }

    /// The stages of the method's chain.
    pub closed spec fn chain(self) -> Seq<StageView> {
        self.chain@
    }

    /// The results cached for the method, oldest first.
    pub closed spec fn cached(self) -> Seq<EntryView> {
        self.cache.entries()
    }

    /// How many results the method's cache holds at most.
    pub closed spec fn capacity(self) -> nat {
        self.cache.capacity()
    }

    /// The route that a method has by its configuration, with an empty cache
    /// of the configured size, and with no room where the method has no cache.
    pub fn build(config: &MethodConfig, extensions: &ExtensionRegistry) -> (route: Route)
        ensures
            route.method() == config.method@,
            route.chain() == planned(*config),
            route.cached() == Seq::<EntryView>::empty(),
            route.capacity() == cache_size(*config),
    {
        let capacity: usize = match &config.cache {
            Some(size) => *size,
            None => 0,
        };
        Route {
            method: config.method.clone(),
            chain: Chain::build(config, extensions),
            cache: CacheStore::new(capacity),
        }
    }

    fn serves(&self, method: &String) -> (r: bool)
        ensures
            r == (self.method() == method@),
    {
        self.method == *method
    }

    fn descend(&self, request: CallRequest, context: &mut ContextBag) -> (descent: Descent)
        ensures
            (descent@, final(context)@) == descended(
                self.chain(),
                0,
                request@,
                old(context)@,
                self.cached(),
                0,
            ),
    {
        self.chain.descend(request, context, &self.cache)
    }

    fn ascend(
        &mut self,
        entered: usize,
        request: &CallRequest,
        context: &ContextBag,
        result: Result<String, GatewayError>,
    ) -> (shaped: Result<String, GatewayError>)
        ensures
            final(self).method() == old(self).method(),
            final(self).chain() == old(self).chain(),
            final(self).capacity() == old(self).capacity(),
            (result_view(shaped), final(self).cached()) == ascended(
                old(self).chain(),
                entered as nat,
                request@,
                context@,
                result_view(result),
                old(self).cached(),
                old(self).capacity(),
            ),
    {
        self.chain.ascend(entered, request, context, result, &mut self.cache)
    }
}

/// The size of the cache that a method is configured with.
pub open spec fn cache_size(config: MethodConfig) -> nat {
    match config.cache {
        Some(size) => size as nat,
        None => 0,
    }
}

/// The context bag that a call starts with: nothing in it but the headers of
/// the inbound connection.
pub open spec fn fresh_context(headers: Seq<(String, String)>) -> ContextView {
    ContextView {
        trace_span: None,
        bypass_cache: false,
        chain_head: None,
        headers: header_texts(headers),
    }
}

/// The place of the route that serves `method`: the first with that name. -1
/// where no route serves it.
pub open spec fn route_of(routes: Seq<Route>, method: Seq<char>) -> int
    decreases routes.len(),
{
    if routes.len() == 0 {
        -1
    } else if route_of(routes.drop_last(), method) >= 0 {
        route_of(routes.drop_last(), method)
    } else if routes.last().method() == method {
        routes.len() - 1
    } else {
        -1
    }
}

/// A call that a route took, on its way down the chain.
#[derive(Debug)]
pub struct Accepted {
    /// The place of the route that serves the call's method.
    pub route: usize,
    /// Where the way down the chain ended.
    pub descent: Descent,
    /// The context bag of the call.
    pub context: ContextBag,
}

/// The exposed methods of a gateway.
#[derive(Debug)]
pub struct Gateway {
    routes: Vec<Route>,
}

impl Gateway {
    /// The routes, in the order of the configuration.
    pub closed spec fn routes(self) -> Seq<Route> {
        self.routes@
    }

    /// Builds the chain of every configured method, in the order of the
    /// configuration.
    pub fn build(configs: &Vec<MethodConfig>, extensions: &ExtensionRegistry) -> (gateway: Gateway)
        ensures
            gateway.routes().len() == configs@.len(),
            forall|i: int|
                0 <= i < configs@.len() ==> {
                    &&& (#[trigger] gateway.routes()[i]).method() == configs@[i].method@
                    &&& gateway.routes()[i].chain() == planned(configs@[i])
                    &&& gateway.routes()[i].cached() == Seq::<EntryView>::empty()
                    &&& gateway.routes()[i].capacity() == cache_size(configs@[i])
                },
    {
        let mut routes: Vec<Route> = Vec::new();
        let mut i: usize = 0;
        while i < configs.len()
            invariant
                i <= configs@.len(),
                routes@.len() == i,
                forall|j: int|
                    0 <= j < i ==> {
                        &&& (#[trigger] routes@[j]).method() == configs@[j].method@
                        &&& routes@[j].chain() == planned(configs@[j])
                        &&& routes@[j].cached() == Seq::<EntryView>::empty()
                        &&& routes@[j].capacity() == cache_size(configs@[j])
                    },
            decreases configs@.len() - i,
        {
            routes.push(Route::build(&configs[i], extensions));
            i += 1;
        }
        Gateway { routes }
    }

    /// The number of exposed methods.
    pub fn len(&self) -> (n: usize)
        ensures
            n == self.routes().len(),
    {
        self.routes.len()
    }

    /// The place of the route that serves `method`, if one does.
    pub fn find(&self, method: &String) -> (place: Option<usize>)
        ensures
            match place {
                Some(k) => k == route_of(self.routes(), method@),
                None => route_of(self.routes(), method@) < 0,
            },
            route_of(self.routes(), method@) < self.routes().len(),
    {
        let mut k: usize = 0;
        assert(self.routes@.take(0) =~= Seq::<Route>::empty());
        while k < self.routes.len()
            invariant
                k <= self.routes@.len(),
                route_of(self.routes@.take(k as int), method@) < 0,
            decreases self.routes@.len() - k,
        {
            assert(self.routes@.take(k + 1).drop_last() =~= self.routes@.take(k as int));
            if self.routes[k].serves(method) {
                proof {
                    lemma_route_found(self.routes@, method@, k as int);
                }
                return Some(k);
            }
            k += 1;
        }
        assert(self.routes@.take(k as int) =~= self.routes@);
        None
    }

    /// Takes an inbound call: looks up the chain of its method and takes the
    /// call down that chain, with a fresh context bag that holds the headers
    /// of the inbound connection. A method that is not exposed is not taken.
    pub fn accept(&self, request: CallRequest, headers: Vec<(String, String)>) -> (accepted: Option<
        Accepted,
    >)
        ensures
            accepted is Some <==> route_of(self.routes(), request.method@) >= 0,
            accepted matches Some(taken) ==> {
                &&& taken.route == route_of(self.routes(), request.method@)
                &&& (taken.descent@, taken.context@) == descended(
                    self.routes()[taken.route as int].chain(),
                    0,
                    request@,
                    fresh_context(headers@),
                    self.routes()[taken.route as int].cached(),
                    0,
                )
            },
    {
        match self.find(&request.method) {
            Some(route) => {
                let mut context = ContextBag::new();
                context.set_headers(headers);
                let descent = self.routes[route].descend(request, &mut context);
                Some(Accepted { route, descent, context })
            },
            None => None,
        }
    }

    /// Takes the result of a call back up the chain of its route: what the
    /// pool returned for a call that was forwarded, or what the stage that
    /// ended the call gave. A place that is no route's leaves the result as
    /// it is.
    pub fn complete(
        &mut self,
        route: usize,
        entered: usize,
        request: &CallRequest,
        context: &ContextBag,
        result: Result<String, GatewayError>,
    ) -> (shaped: Result<String, GatewayError>)
        ensures
            final(self).routes().len() == old(self).routes().len(),
            forall|j: int|
                0 <= j < old(self).routes().len() && j != route ==> final(self).routes()[j] == old(
                    self,
                ).routes()[j],
            route >= old(self).routes().len() ==> shaped == result,
            route < old(self).routes().len() ==> {
                let before = old(self).routes()[route as int];
                let after = final(self).routes()[route as int];
                &&& after.method() == before.method()
                &&& after.chain() == before.chain()
                &&& after.capacity() == before.capacity()
                &&& (result_view(shaped), after.cached()) == ascended(
                    before.chain(),
                    entered as nat,
                    request@,
                    context@,
                    result_view(result),
                    before.cached(),
                    before.capacity(),
                )
            },
    {
        if route >= self.routes.len() {
            return result;
        }
        self.routes[route].ascend(entered, request, context, result)
    }
}

proof fn lemma_route_found(routes: Seq<Route>, method: Seq<char>, place: int)
    requires
        0 <= place < routes.len(),
        routes[place].method() == method,
        route_of(routes.take(place), method) < 0,
    ensures
        route_of(routes, method) == place,
    decreases routes.len(),
{
    if place == routes.len() - 1 {
        assert(routes.drop_last() =~= routes.take(place));
    } else {
        assert(routes.drop_last().take(place) =~= routes.take(place));
        lemma_route_found(routes.drop_last(), method, place);
    }
}

} // verus!
