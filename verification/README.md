# gateway_routing

Routing core of a reverse proxy whose routing table is pushed by a
controller, written in Verus and verified.

- `src/api.rs`: routing configuration types (routes, rules, matches,
  backends) and the wire codes of their enumerations.
- `src/store.rs`: the route store; a full sync replaces the table in place
  and records its version.
- `src/router.rs`: request matching with Gateway API priorities (exact
  hostname over wildcard over match-all; exact path over longer prefix over
  shorter prefix over regex) and weighted random choice among the backends
  of the winning rule.
- `src/upstream.rs`: health tracking (unhealthy after a threshold of
  consecutive failures, healthy after one success) and weighted round-robin
  over healthy backends.
- `src/gateway.rs`: host and server-name extraction, TLS choice, backend
  selection for a request and recording of connection outcomes.
- `src/routing_service.rs`, `src/health.rs`: the route management service,
  which owns the store and syncs it in place, and the health probe answers.
  A router borrows that store, so each lookup answers from the latest sync.
- `src/text.rs`, `src/shared_map.rs`: string helpers and the concurrent map
  type used for storage.
- `app/`: the process around the library: logging, the proxy framework glue
  (which shares the management service behind a lock and routes each request
  over its store) and the probe HTTP server.

Each module states its contracts over mathematical views (sequences, maps)
and proves laws about them, such as the ranking of matches, the layout of
the round-robin cycle and the effect of a full sync.
