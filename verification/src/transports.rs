//! The registry of transports and the resolution of routes.
//!
//! A route may name hops that only a transport can reach. Resolving the
//! route asks each registered transport, in the order of registration, to
//! replace the hops of its own type by process-local workers, until every
//! hop is local.

use crate::error::{Error, ErrorView, Kind};
use crate::route::{
    is_local_route,
    route_text,
    Address,
    AddressView,
    Route,
    TransportType,
    LOCAL,
};
use crate::text::concat3;
use vstd::prelude::*;

verus! {

/// The view of the result of a resolution.
pub open spec fn resolved_view(r: Result<Route, Error>) -> Result<Seq<AddressView>, ErrorView> {
    match r {
        Ok(route) => Ok(route@),
        Err(e) => Err(e@),
    }
}

/// An adapter that reaches the hops of one transport type.
///
/// Nothing is assumed of an implementation but what it says itself, in
/// `resolves`, of what it may return. An implementation that says nothing
/// may return anything.
pub trait Transport {
    /// Whether the transport may return `result` when it is asked to resolve
    /// `route`.
    open spec fn resolves(
        &self,
        route: Seq<AddressView>,
        result: Result<Seq<AddressView>, ErrorView>,
    ) -> bool {
        true
    }

    /// Whether the transport may declare `transport_type` as its type.
    open spec fn declares(&self, transport_type: TransportType) -> bool {
        true
    }

    /// The type of the hops that this transport resolves.
    fn transport_type(&self) -> (t: TransportType)
        ensures
            self.declares(t),
    ;

    /// Replaces the hops of this transport's type in `route` by local
    /// workers that forward to them.
    fn resolve_route(&self, route: Route) -> (r: Result<Route, Error>)
        ensures
            self.resolves(route@, resolved_view(r)),
    ;
}

/// What a loopback transport of the type `t` makes of `route`: each hop of
/// the type `t` becomes the local worker with the same address, and every
/// other hop stays.
pub open spec fn looped(route: Seq<AddressView>, t: TransportType) -> Seq<AddressView> {
    Seq::new(
        route.len(),
        |i: int|
            if route[i].transport_type == t {
                AddressView { transport_type: TransportType { value: LOCAL }, value: route[i].value }
            } else {
                route[i]
            },
    )
}

/// The transport of the hops that are workers of this process under a type
/// of their own.
#[derive(Clone, Copy, Debug, PartialEq, Eq, Structural)]
pub struct Loopback {
    pub transport_type: TransportType,
}

impl Transport for Loopback {
    /// A loopback transport never fails, and returns what [`looped`] says.
    open spec fn resolves(
        &self,
        route: Seq<AddressView>,
        result: Result<Seq<AddressView>, ErrorView>,
    ) -> bool {
        result == Ok::<Seq<AddressView>, ErrorView>(looped(route, self.transport_type))
    }

    open spec fn declares(&self, transport_type: TransportType) -> bool {
        transport_type == self.transport_type
    }

    fn transport_type(&self) -> (t: TransportType) {
        self.transport_type
    }

    fn resolve_route(&self, route: Route) -> (r: Result<Route, Error>) {
        let mut resolved = Route::new();
        let mut i: usize = 0;
        while i < route.len()
            invariant
                i <= route@.len(),
                resolved@ == looped(route@, self.transport_type).take(i as int),
            decreases route@.len() - i,
        {
            let hop = route.get(i);
            let ghost before = resolved@;
            if hop.transport_type() == self.transport_type {
                resolved = resolved.append(Address::new(TransportType::new(LOCAL), hop.address()));
            } else {
                resolved = resolved.append(hop.clone());
            }
            assert(resolved@ =~= looped(route@, self.transport_type).take(i + 1));
            i = i + 1;
        }
        assert(resolved@ =~= looped(route@, self.transport_type));
        Ok(resolved)
    }
}

/// A route whose hops are all local or of the type of a loopback transport
/// resolves to the local route that the transport makes of it, and to
/// nothing else, where that transport is the first one registered.
pub proof fn lemma_loopback_resolves(
    transports: Seq<Loopback>,
    route: Seq<AddressView>,
    result: Result<Seq<AddressView>, ErrorView>,
)
    requires
        transports.len() > 0,
        !is_local_route(route),
        forall|i: int|
            0 <= i < route.len() ==> (#[trigger] route[i]).transport_type.is_local()
                || route[i].transport_type == transports[0].transport_type,
    ensures
        is_local_route(looped(route, transports[0].transport_type)),
        resolution(transports, route, result) <==> result == Ok::<Seq<AddressView>, ErrorView>(
            looped(route, transports[0].transport_type),
        ),
{
    let made = looped(route, transports[0].transport_type);
    assert(is_local_route(made)) by {
        assert forall|i: int| 0 <= i < made.len() implies (
        #[trigger] made[i]).transport_type.is_local() by {
            assert(route[i].transport_type.is_local() || route[i].transport_type
                == transports[0].transport_type);
        }
    }
    assert(is_trace(transports, route, seq![route, made], Ok(made)));
    if resolution(transports, route, result) {
        let trace = choose|trace: Seq<Seq<AddressView>>|
            #[trigger] is_trace(transports, route, trace, result);
        if trace.len() == 1 {
            assert(transports[0].resolves(route, result));
        } else {
            assert(!is_local_route(trace[0]));
            assert(transports[0].resolves(trace[0], Ok(trace[1])));
            if trace.len() > 2 {
                assert(!is_local_route(trace[1]));
            }
        }
    }
}

/// The registered types after a transport of type `t` was registered: one
/// transport per type, in the order of first registration.
pub open spec fn spec_register(types: Seq<TransportType>, t: TransportType) -> Seq<TransportType> {
    if types.contains(t) {
        types
    } else {
        types.push(t)
    }
}

/// The registered transports after `transport` was registered for the type
/// `t`: it takes the place of the transport of that type, or comes last.
pub open spec fn spec_register_adapter<T>(
    types: Seq<TransportType>,
    adapters: Seq<T>,
    t: TransportType,
    transport: T,
) -> Seq<T> {
    if types.contains(t) {
        adapters.update(types.index_of(t), transport)
    } else {
        adapters.push(transport)
    }
}

/// The message of the failure for a route that stays unresolved.
pub open spec fn unresolved_message(route: Seq<AddressView>) -> Seq<char> {
    "the route "@ + route_text(route) + " could not be fully resolved to local addresses"@
}

/// What resolution does next.
#[derive(Debug, PartialEq, Eq)]
pub enum ResolveStep {
    /// Every hop is local: this is the resolved route.
    Done(Route),
    /// Hand `route` to the transport that was registered as number `index`.
    Ask { index: usize, route: Route },
    /// Give up.
    Fail(Error),
}

pub enum ResolveStepView {
    Done(Seq<AddressView>),
    Ask { index: usize, route: Seq<AddressView> },
    Fail(ErrorView),
}

impl View for ResolveStep {
    type V = ResolveStepView;

    open spec fn view(&self) -> ResolveStepView {
        match self {
            ResolveStep::Done(r) => ResolveStepView::Done(r@),
            ResolveStep::Ask { index, route } => ResolveStepView::Ask {
                index: *index,
                route: route@,
            },
            ResolveStep::Fail(e) => ResolveStepView::Fail(e@),
        }
    }
}

/// What resolution does with `route` once the first `asked` of `total`
/// transports had their turn: a local route is the result; any other route
/// goes to the next transport, and fails with `NotFound` where none is left.
pub open spec fn spec_next_step(route: Seq<AddressView>, asked: usize, total: usize)
    -> ResolveStepView {
    if is_local_route(route) {
        ResolveStepView::Done(route)
    } else if asked < total {
        ResolveStepView::Ask { index: asked, route }
    } else {
        ResolveStepView::Fail(not_found(route))
    }
}

/// See [`spec_next_step`].
pub fn next_step(route: Route, asked: usize, total: usize) -> (step: ResolveStep)
    ensures
        step@ == spec_next_step(route@, asked, total),
{
    if route.is_local() {
        ResolveStep::Done(route)
    } else if asked < total {
        ResolveStep::Ask { index: asked, route }
    } else {
        let text = route.to_string();
        let message = concat3(
            "the route ",
            text.as_str(),
            " could not be fully resolved to local addresses",
        );
        ResolveStep::Fail(Error { kind: Kind::NotFound, message })
    }
}

/// A route that is already local is its own resolution, whatever is
/// registered: resolving twice gives what resolving once gave.
pub proof fn lemma_local_route_is_resolved(route: Seq<AddressView>, asked: usize, total: usize)
    requires
        is_local_route(route),
    ensures
        spec_next_step(route, asked, total) == ResolveStepView::Done(route),
{
}

/// A route that is not local after every transport had its turn is not
/// found, and one with no transport to ask is not found at once.
pub proof fn lemma_unresolved_is_not_found(route: Seq<AddressView>, asked: usize, total: usize)
    requires
        !is_local_route(route),
        asked >= total,
    ensures
        spec_next_step(route, asked, total) matches ResolveStepView::Fail(e) && e.kind
            == Kind::NotFound,
{
}

/// The failure for a route that stays unresolved.
pub open spec fn not_found(route: Seq<AddressView>) -> ErrorView {
    ErrorView { kind: Kind::NotFound, message: unresolved_message(route) }
}

/// Whether `trace` is a run of the resolution of `route` over `transports`
/// that ends with `result`: the routes that the transports were handed, one
/// after the other, and the route or failure at the end.
///
/// A route that is not local goes to the next transport, and what that
/// transport returns comes next. The run ends with the first local route,
/// which is the result; with the failure of a transport, which is the
/// result; or, where no transport is left, with the failure `NotFound`.
pub open spec fn is_trace<T: Transport>(
    transports: Seq<T>,
    route: Seq<AddressView>,
    trace: Seq<Seq<AddressView>>,
    result: Result<Seq<AddressView>, ErrorView>,
) -> bool {
    let k = trace.len() - 1;
    &&& trace.len() >= 1
    &&& trace[0] == route
    &&& k <= transports.len()
    &&& forall|i: int|
        0 <= i < k ==> !is_local_route(#[trigger] trace[i]) && transports[i].resolves(
            trace[i],
            Ok(trace[i + 1]),
        )
    &&& if is_local_route(trace[k]) {
        result == Ok::<Seq<AddressView>, ErrorView>(trace[k])
    } else if k == transports.len() {
        result == Err::<Seq<AddressView>, ErrorView>(not_found(trace[k]))
    } else {
        result is Err && transports[k].resolves(trace[k], result)
    }
}

/// Whether resolving `route` over `transports`, in their order, may give
/// `result`.
pub open spec fn resolution<T: Transport>(
    transports: Seq<T>,
    route: Seq<AddressView>,
    result: Result<Seq<AddressView>, ErrorView>,
) -> bool {
    exists|trace: Seq<Seq<AddressView>>| #[trigger] is_trace(transports, route, trace, result)
}

/// A resolution that succeeds gives a local route.
pub proof fn lemma_resolution_is_local<T: Transport>(
    transports: Seq<T>,
    route: Seq<AddressView>,
    resolved: Seq<AddressView>,
)
    requires
        resolution(transports, route, Ok(resolved)),
    ensures
        is_local_route(resolved),
{
}

/// A local route resolves to itself and to nothing else, whatever is
/// registered.
pub proof fn lemma_local_resolves_to_itself<T: Transport>(
    transports: Seq<T>,
    route: Seq<AddressView>,
    result: Result<Seq<AddressView>, ErrorView>,
)
    requires
        is_local_route(route),
    ensures
        resolution(transports, route, result) <==> result == Ok::<Seq<AddressView>, ErrorView>(
            route,
        ),
{
    assert(is_trace(transports, route, seq![route], Ok(route)));
    if resolution(transports, route, result) {
        let trace = choose|trace: Seq<Seq<AddressView>>|
            #[trigger] is_trace(transports, route, trace, result);
        if trace.len() > 1 {
            assert(!is_local_route(trace[0]));
        }
    }
}

/// Resolving is idempotent: what a resolution gave resolves to itself and
/// to nothing else, whatever is registered then.
pub proof fn lemma_resolve_idempotent<T: Transport>(
    transports: Seq<T>,
    route: Seq<AddressView>,
    resolved: Seq<AddressView>,
    later: Seq<T>,
    again: Result<Seq<AddressView>, ErrorView>,
)
    requires
        resolution(transports, route, Ok(resolved)),
    ensures
        resolution(later, resolved, again) <==> again == Ok::<Seq<AddressView>, ErrorView>(
            resolved,
        ),
{
    lemma_resolution_is_local(transports, route, resolved);
    lemma_local_resolves_to_itself(later, resolved, again);
}

proof fn lemma_unhandled_stays<T: Transport>(
    transports: Seq<T>,
    route: Seq<AddressView>,
    trace: Seq<Seq<AddressView>>,
    result: Result<Seq<AddressView>, ErrorView>,
    i: int,
)
    requires
        forall|j: int, r: Result<Seq<AddressView>, ErrorView>|
            0 <= j < transports.len() && #[trigger] transports[j].resolves(route, r) ==> r
                == Ok::<Seq<AddressView>, ErrorView>(route),
        is_trace(transports, route, trace, result),
        0 <= i < trace.len(),
    ensures
        trace[i] == route,
    decreases i,
{
    if i > 0 {
        lemma_unhandled_stays(transports, route, trace, result, i - 1);
        assert(!is_local_route(trace[i - 1]));
        assert(transports[i - 1].resolves(route, Ok(trace[i])));
    }
}

/// A route that is not local and that every registered transport hands back
/// as it is resolves to the failure `NotFound`, and to nothing else.
pub proof fn lemma_unhandled_is_not_found<T: Transport>(
    transports: Seq<T>,
    route: Seq<AddressView>,
    result: Result<Seq<AddressView>, ErrorView>,
)
    requires
        !is_local_route(route),
        forall|j: int, r: Result<Seq<AddressView>, ErrorView>|
            0 <= j < transports.len() && #[trigger] transports[j].resolves(route, r) ==> r
                == Ok::<Seq<AddressView>, ErrorView>(route),
        resolution(transports, route, result),
    ensures
        result == Err::<Seq<AddressView>, ErrorView>(not_found(route)),
{
    let trace = choose|trace: Seq<Seq<AddressView>>|
        #[trigger] is_trace(transports, route, trace, result);
    let k = trace.len() - 1;
    lemma_unhandled_stays(transports, route, trace, result, k);
    if k < transports.len() {
        assert(transports[k].resolves(route, result));
    }
}

/// After a transport of type `t` is registered, `t` is registered, what was
/// registered before still is, nothing else is, and no type is there twice.
pub proof fn lemma_register(types: Seq<TransportType>, t: TransportType)
    requires
        types.no_duplicates(),
    ensures
        spec_register(types, t).contains(t),
        spec_register(types, t).no_duplicates(),
        forall|u: TransportType|
            spec_register(types, t).contains(u) <==> (u == t || types.contains(u)),
        types.contains(t) ==> spec_register(types, t) == types,
{
    let after = spec_register(types, t);
    if !types.contains(t) {
        assert(after[types.len() as int] == t);
        assert forall|u: TransportType| after.contains(u) <==> (u == t || types.contains(u)) by {
            if types.contains(u) {
                let i = choose|i: int| 0 <= i < types.len() && types[i] == u;
                assert(after[i] == u);
            }
            if after.contains(u) {
                let i = choose|i: int| 0 <= i < after.len() && after[i] == u;
                if i < types.len() {
                    assert(types[i] == u);
                }
            }
        }
    }
}

/// After `transport` is registered for the type `t`, it is the transport
/// of `t`: the last registration counts. Every other type keeps its
/// transport, and each type still has its transport at its own place.
pub proof fn lemma_register_adapter<T>(
    types: Seq<TransportType>,
    adapters: Seq<T>,
    t: TransportType,
    transport: T,
    other: TransportType,
)
    requires
        types.no_duplicates(),
        adapters.len() == types.len(),
    ensures
        ({
            let types_after = spec_register(types, t);
            let adapters_after = spec_register_adapter(types, adapters, t, transport);
            &&& adapters_after.len() == types_after.len()
            &&& adapters_after[types_after.index_of(t)] == transport
            &&& other != t && types.contains(other) ==> adapters_after[types_after.index_of(other)]
                == adapters[types.index_of(other)]
        }),
{
    lemma_register(types, t);
    let types_after = spec_register(types, t);
    let adapters_after = spec_register_adapter(types, adapters, t, transport);
    let at = types_after.index_of(t);
    assert(types_after.contains(t));
    assert(0 <= at < types_after.len() && types_after[at] == t);
    if types.contains(t) {
        let before = types.index_of(t);
        assert(types[before] == t);
        assert(at == before);
    } else {
        assert(types_after[types.len() as int] == t);
        assert(at == types.len());
    }
    if other != t && types.contains(other) {
        let i = types.index_of(other);
        assert(types[i] == other);
        assert(types_after[i] == other);
        let j = types_after.index_of(other);
        assert(types_after.contains(other));
        assert(types_after[j] == other);
        assert(i == j);
    }
}

/// The registry of transports of one node. A node that uses transports of
/// several kinds registers a type that holds any of them.
pub struct Context<T: Transport> {
    transports: Vec<(TransportType, T)>,
}

impl<T: Transport> Context<T> {
    /// The registered transport types, in the order of first registration.
    pub closed spec fn registered(&self) -> Seq<TransportType> {
        self.transports@.map_values(|e: (TransportType, T)| e.0)
    }

    /// The registered transports, in the order of first registration.
    pub closed spec fn adapters(&self) -> Seq<T> {
        self.transports@.map_values(|e: (TransportType, T)| e.1)
    }

    /// The invariant of the registry: one transport for each type, and for
    /// each registered type its transport at the same place in the order.
    pub open spec fn wf(&self) -> bool {
        self.registered().no_duplicates() && self.adapters().len() == self.registered().len()
    }

    /// The transport that is registered for `transport_type`, where one is.
    pub open spec fn adapter_of(&self, transport_type: TransportType) -> T
        recommends
            self.registered().contains(transport_type),
    {
        self.adapters()[self.registered().index_of(transport_type)]
    }

    /// A registry without transports.
    pub fn new() -> (ctx: Context<T>)
        ensures
            ctx.wf(),
            ctx.registered() == Seq::<TransportType>::empty(),
            ctx.adapters() == Seq::<T>::empty(),
    {
        let ctx = Context { transports: Vec::new() };
        assert(ctx.registered() =~= Seq::<TransportType>::empty());
        assert(ctx.adapters() =~= Seq::<T>::empty());
        ctx
    }

    /// The number of registered transports.
    pub fn transport_count(&self) -> (n: usize)
        ensures
            n == self.registered().len(),
    {
        self.transports.len()
    }

    /// Registers `transport` for the hops of type `transport_type`. A
    /// transport that was registered for that type before is replaced, and
    /// keeps its place in the order.
    pub fn register_transport_as(
        &mut self,
        transport_type: TransportType,
        transport: T,
    )
        requires
            old(self).wf(),
        ensures
            final(self).wf(),
            final(self).registered() == spec_register(old(self).registered(), transport_type),
            final(self).adapters() == spec_register_adapter(
                old(self).registered(),
                old(self).adapters(),
                transport_type,
                transport,
            ),
    {
        proof {
            lemma_register(self.registered(), transport_type);
        }
        let mut i: usize = 0;
        while i < self.transports.len()
            invariant
                i <= self.transports@.len(),
                self.registered().len() == self.transports@.len(),
                *self == *old(self),
                self.wf(),
                forall|j: int| 0 <= j < i ==> self.registered()[j] != transport_type,
            decreases self.transports.len() - i,
        {
            if self.transports[i].0 == transport_type {
                let ghost before = self.registered();
                let ghost adapters = self.adapters();
                assert(before[i as int] == transport_type);
                self.transports.set(i, (transport_type, transport));
                assert(self.registered() =~= before);
                assert(self.adapters() =~= adapters.update(i as int, transport));
                assert(before.index_of(transport_type) == i);
                return ;
            }
            i = i + 1;
        }
        let ghost before = self.registered();
        let ghost adapters = self.adapters();
        self.transports.push((transport_type, transport));
        assert(self.registered() =~= before.push(transport_type));
        assert(self.adapters() =~= adapters.push(transport));
    }

    /// Registers a transport for the hops of the type that it declares.
    pub fn register_transport(&mut self, transport: T)
        requires
            old(self).wf(),
        ensures
            final(self).wf(),
            exists|t: TransportType|
                transport.declares(t) && final(self).registered() == #[trigger] spec_register(
                    old(self).registered(),
                    t,
                ) && final(self).adapters() == spec_register_adapter(
                    old(self).registered(),
                    old(self).adapters(),
                    t,
                    transport,
                ),
    {
        let transport_type = transport.transport_type();
        self.register_transport_as(transport_type, transport);
    }

    /// Whether a transport is registered for the hops of type
    /// `transport_type`.
    pub fn is_transport_registered(&self, transport_type: TransportType) -> (b: bool)
        ensures
            b == self.registered().contains(transport_type),
    {
        let mut i: usize = 0;
        while i < self.transports.len()
            invariant
                i <= self.transports@.len(),
                self.registered().len() == self.transports@.len(),
                forall|j: int| 0 <= j < i ==> self.registered()[j] != transport_type,
            decreases self.transports.len() - i,
        {
            if self.transports[i].0 == transport_type {
                assert(self.registered()[i as int] == transport_type);
                return true;
            }
            i = i + 1;
        }
        false
    }

    /// Resolves `route` to a route of local hops.
    ///
    /// A route that is local already comes back unchanged, and no transport
    /// is asked. Any other route goes through the registered transports in
    /// the order of registration, each getting what the one before returned,
    /// until the route is local. The failure of a transport ends the
    /// resolution with that failure; a route that is not local after the
    /// last transport ends it with `NotFound`.
    pub fn resolve_transport_route(&self, route: Route) -> (r: Result<Route, Error>)
        ensures
            resolution(self.adapters(), route@, resolved_view(r)),
            is_local_route(route@) ==> (r matches Ok(resolved) && resolved@ == route@),
            r matches Ok(resolved) ==> is_local_route(resolved@),
            !is_local_route(route@) && self.registered().len() == 0 ==> (r matches Err(e) && e@
                == not_found(route@)),
    {
        let total = self.transports.len();
        let ghost adapters = self.adapters();
        let ghost mut trace: Seq<Seq<AddressView>> = seq![route@];
        let mut current = route;
        let mut index: usize = 0;
        loop
            invariant
                total == self.transports@.len(),
                total == self.registered().len(),
                adapters == self.adapters(),
                adapters.len() == total,
                index <= total,
                trace.len() == index + 1,
                trace[0] == route@,
                trace[index as int] == current@,
                forall|i: int|
                    0 <= i < index ==> !is_local_route(#[trigger] trace[i])
                        && adapters[i].resolves(trace[i], Ok(trace[i + 1])),
            decreases total - index,
        {
            match next_step(current, index, total) {
                ResolveStep::Done(resolved) => {
                    assert(is_trace(adapters, route@, trace, Ok(resolved@)));
                    assert(index > 0 ==> !is_local_route(trace[0]));
                    return Ok(resolved);
                },
                ResolveStep::Fail(e) => {
                    assert(is_trace(adapters, route@, trace, Err(e@)));
                    return Err(e);
                },
                ResolveStep::Ask { index: asked, route: handed } => {
                    assert(adapters[index as int] == self.transports@[index as int].1);
                    match self.transports[asked].1.resolve_route(handed) {
                        Err(e) => {
                            assert(is_trace(adapters, route@, trace, Err(e@)));
                            return Err(e);
                        },
                        Ok(next) => {
                            proof {
                                trace = trace.push(next@);
                            }
                            current = next;
                            index = index + 1;
                        },
                    }
                },
            }
        }
    }
}

} // verus!
