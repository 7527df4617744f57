# fula_pool

Pools of nodes that share resources with each other. Anyone can create a
pool and becomes its owner and first participant. Anyone who is neither in a
pool nor waiting to join one can ask to join a pool that has room; the
current participants vote on the request, and it is accepted once more than
half of them voted for it, or denied once more than half voted against it.
Requests can be withdrawn and participants can leave.

Layout:

- `src/bounded.rs`: the bounded vectors of `bounded-collections` that hold
  names, peer ids and account lists, and the trusted contracts of the calls
  made on them.
- `src/types.rs`: the configured limits (`Config`: the string limit and the
  participant limit, at most 255), pools, users and join requests, and the
  vote count.
- `src/dispatch.rs`: origins, errors and events.
- `src/search.rs`: increasing account lists and binary search.
- `src/model.rs`: the storage as plain values, what every call does to it,
  and its consistency invariant.
- `src/pallet.rs`: the calls, each proved to do what `model.rs` says and to
  leave the storage unchanged when it fails.
- `src/laws.rs`: every call keeps the storage consistent, and other
  properties of the calls and of sequences of them.
- `app/lib.rs`: the SCALE encodings of records, calls and events, and a
  dispatcher that decodes calls, runs them and keeps the deposited events.
