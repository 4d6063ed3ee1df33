use tunnel_core::error::{Error, Kind};
use tunnel_core::route::{Address, Route, TransportType, LOCAL};
use tunnel_core::transports::{next_step, Context, Loopback, ResolveStep, Transport};

struct SomeTransport();

impl Transport for SomeTransport {
    fn transport_type(&self) -> TransportType {
        TransportType::new(10)
    }

    /// This implementation simply marks each address as a local address
    fn resolve_route(&self, route: Route) -> Result<Route, Error> {
        let mut result = Route::new();
        for i in 0..route.len() {
            let address = route.get(i);
            if address.transport_type() == self.transport_type() {
                result = result.append(Address::new(TransportType::new(LOCAL), address.address()));
            } else {
                result = result.append(address.clone());
            }
        }
        Ok(result)
    }
}

fn one_hop(transport_type: TransportType, value: &str) -> Route {
    Route::new().append(Address::new(transport_type, value))
}

#[test]
fn test_transports() {
    let mut ctx: Context<SomeTransport> = Context::new();
    let transport = SomeTransport();
    let transport_type = transport.transport_type();
    ctx.register_transport(transport);
    assert!(ctx.is_transport_registered(transport_type));
}

#[test]
fn test_resolve_route() {
    let mut ctx: Context<SomeTransport> = Context::new();
    let transport = SomeTransport();
    let transport_type = transport.transport_type();
    ctx.register_transport(transport);

    // resolve a route with known transports
    let result = ctx.resolve_transport_route(one_hop(transport_type, "address"));
    assert!(result.is_ok());

    // resolve a route with unknown transports
    let result = ctx.resolve_transport_route(one_hop(TransportType::new(1), "address"));
    assert!(result.is_err());
}

#[test]
fn resolved_route_is_local_and_keeps_the_values() {
    let mut ctx: Context<SomeTransport> = Context::new();
    ctx.register_transport(SomeTransport());
    let route = Route::new()
        .append(Address::new(TransportType::new(10), "a"))
        .append(Address::new(TransportType::new(LOCAL), "b"));
    let resolved = ctx.resolve_transport_route(route).unwrap();
    assert!(resolved.is_local());
    assert_eq!(resolved.len(), 2);
    assert_eq!(resolved.get(0).address(), "a");
    assert_eq!(resolved.get(1).address(), "b");
}

#[test]
fn resolve_is_idempotent_on_local_routes() {
    let mut ctx: Context<SomeTransport> = Context::new();
    ctx.register_transport(SomeTransport());
    let once = ctx.resolve_transport_route(one_hop(TransportType::new(10), "address")).unwrap();
    let twice = ctx.resolve_transport_route(once.clone()).unwrap();
    assert_eq!(once, twice);
}

#[test]
fn local_route_resolves_unchanged_without_transports() {
    let ctx: Context<SomeTransport> = Context::new();
    let route = one_hop(TransportType::new(LOCAL), "worker");
    let resolved = ctx.resolve_transport_route(route.clone()).unwrap();
    assert_eq!(resolved, route);
}

#[test]
fn unresolved_route_is_not_found_and_named() {
    let ctx: Context<SomeTransport> = Context::new();
    let err = ctx.resolve_transport_route(one_hop(TransportType::new(1), "address")).unwrap_err();
    assert_eq!(err.kind(), Kind::NotFound);
    assert_eq!(
        err.message(),
        "the route 1#address could not be fully resolved to local addresses"
    );
}

#[test]
fn registering_twice_keeps_one_transport_per_type() {
    let mut ctx: Context<SomeTransport> = Context::new();
    ctx.register_transport(SomeTransport());
    ctx.register_transport(SomeTransport());
    assert_eq!(ctx.transport_count(), 1);
    assert!(!ctx.is_transport_registered(TransportType::new(11)));
}

#[test]
fn next_step_asks_transports_in_order() {
    let route = one_hop(TransportType::new(7), "x");
    match next_step(route.clone(), 1, 3) {
        ResolveStep::Ask { index, route: asked } => {
            assert_eq!(index, 1);
            assert_eq!(asked, route);
        }
        other => panic!("unexpected step {:?}", other),
    }
    assert!(matches!(next_step(route, 3, 3), ResolveStep::Fail(_)));
}

#[test]
fn route_text_writes_the_transport_type_in_decimal() {
    let route = Route::new()
        .append(Address::new(TransportType::new(255), "a"))
        .append(Address::new(TransportType::new(0), "b"));
    assert_eq!(route.to_string(), "255#a => 0#b");
    assert_eq!(Route::new().to_string(), "");
}

#[test]
fn loopback_turns_its_hops_into_local_workers() {
    let mut ctx: Context<Loopback> = Context::new();
    ctx.register_transport(Loopback { transport_type: TransportType::new(5) });
    ctx.register_transport(Loopback { transport_type: TransportType::new(6) });
    assert!(ctx.is_transport_registered(TransportType::new(5)));
    assert!(ctx.is_transport_registered(TransportType::new(6)));
    let route = Route::new()
        .append(Address::new(TransportType::new(6), "a"))
        .append(Address::new(TransportType::new(LOCAL), "b"))
        .append(Address::new(TransportType::new(5), "c"));
    let resolved = ctx.resolve_transport_route(route).unwrap();
    let expected = Route::new()
        .append(Address::new(TransportType::new(LOCAL), "a"))
        .append(Address::new(TransportType::new(LOCAL), "b"))
        .append(Address::new(TransportType::new(LOCAL), "c"));
    assert_eq!(resolved, expected);
    let unknown = one_hop(TransportType::new(7), "d");
    let err = ctx.resolve_transport_route(unknown).unwrap_err();
    assert_eq!(err.kind(), Kind::NotFound);
    assert_eq!(err.message(), "the route 7#d could not be fully resolved to local addresses");
}
