# vpp_plugin

Building blocks for VPP plugins, written in Verus and proved against their contracts.

- `src/vppinfra/`: the hierarchical timer wheel (`tw_timer.rs`), its abstract model and the
  laws proved of it (`tw_timer_laws.rs`; when each slot takes its turn, `tw_timer_turns.rs`;
  every timer firing exactly when it is due, `tw_timer_on_time.rs`), and the slab pool it
  keeps its entries in.
- `src/vlib/`: per-thread counters, the barrier read-write lock, buffer flags, and the timers
  of async process nodes.
- `src/vnet/`: the vnet view of a buffer's opaque data (interface indexes, feature arc).
- `src/vlibapi/`: unaligned integers as they appear in API messages, with byte-order
  conversions.
- `src/test_plugin.rs`: the decisions of the test plugin: how its nodes dispatch packets, its
  deny policy, its command arguments and its counter self-test.
- `app/`: what cannot be verified: the channel and timer futures of process nodes, the lock's
  panicking entry points, and the unaligned `f64`.

Run the tests with the real `slab` crate linked; the library's contracts are checked by Verus.
