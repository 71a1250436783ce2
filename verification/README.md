# sendspin

The realtime core of a synchronized audio player: one owner of the source, one
worker that prepares windows of PCM, and one device callback that never waits
for either.

- `src/` is the library. Its behaviour is stated in contracts and checked by
  Verus.
  - `audio/owner.rs`: the accounts of a scope and how it ends.
  - `audio/sync_correction.rs`: the cadence by which frames are dropped or
    repeated.
  - `audio/synced_player/ingress.rs` and below: the control gate between owner,
    worker and device, and the positions that the device publishes.
    `ingress/protocol.rs` is a model of the control gate's memory; its laws hold of every
    interleaving in the model.
  - `audio/synced_player/queue.rs`, `preparation.rs`, `source.rs`: the queue, views
    of it, and what the device has actually played of it.
  - `audio/synced_player/ring.rs`, `transport.rs`, `reader.rs`: windows on their way
    to the device and back, and the frames that the device takes from them.
  - `audio/synced_player/worker.rs`, `device.rs`, `player.rs`, `runtime.rs`,
    `allocation.rs`: the two sides of a player.
  - `audio/synced_player/handoff_probe.rs` and below: candidate parts of the
    handoff. The laws of `timeline/checkpoint.rs` are laws of a model of its cells.
  - `audio/synced_player/shared.rs`: the words in which contracts speak of shared
    memory, which is of the operations that were made and of what they gave. What a
    cell holds between two operations is not spoken of.
  - `sync/raw_clock.rs`: clock times and instants.
- `tests/` runs the library with the real ring buffers and atomics.
- `app/` is ordinary Rust around it: the system's raw clock, the preparing thread,
  and floating-point output.
