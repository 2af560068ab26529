# fluvius

A real-time stream processor for geospatial events (GPS tracks, IoT
sensors, vehicle telemetry), whose core is verified with Verus.

## Layout

- `src/` — the verified library: event time (`time`), events and outputs
  (`event`), windows and watermarks, temporal joins, operators and the
  pipeline chain, the edge runtime with its bounded buffer and
  store-and-forward queue, state store and checkpoint numbering/retention,
  metrics and their Prometheus text, multi-tenant authentication and token
  buckets, geofence transitions, proximity bookkeeping, spatial-grid tallies,
  trajectories, replay timing, connector configuration. Every public
  function carries a contract; laws that relate several functions are
  public proof functions named `law_*`.
- `app/` — ordinary Rust around the library: JSON and TOML forms, files and
  WebSocket connections, the async pipeline and replay loops, shared
  handles, and the operators that compute with floating-point coordinates
  (polygon containment, haversine distances, map matching, grid cells,
  R-tree queries, trajectory forecasts).
- `tests/` — tests of the library.

Coordinates, speeds and headings are carried by the library as the bit
patterns of their `f64` values; the library moves them and never computes
with them.
