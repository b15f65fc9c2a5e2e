# mev_share

A bounded pool of MEV Share bundles, verified with Verus, and the `mev_sendBundle` call over it.

- `src/bundle.rs`: bundles, and the hash that identifies them
- `src/pending.rs`: the pending bundles: admission and removal
- `src/lock.rs`: the reader-writer lock that the pool's threads share them through
- `src/pool.rs`: the shared pool
- `src/share.rs`: a transaction pool with a bundle pool beside it
- `src/mev.rs`: the API and its errors
- `src/laws.rs`: what holds across operations
- `app/`: the JSON-RPC server
