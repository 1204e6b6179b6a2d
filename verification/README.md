# kayfabe GSP transport and forwarding plane, verified

A faked GSP's message transport and the forwarding plane's decisions, written in Verus and
proved against their contracts.

GSP transport:

- `wire` — little-endian words over byte sequences.
- `fault` — every refusal, named.
- `ram` — the guest-RAM interface (which addresses are readable and which writable, and
  that accesses there succeed) and the self-describing region the queues live in.
- `ring` — the `msgq` ring algebra: counts, slots, free/available space, the published
  header, the guest's own acceptance predicate, the bound geometry.
- `element` — the element codec: layouts, bounds, the checksum, encode and decode.
- `fold`, `roundtrip` — why an encoded element's checksum cancels, and what a receive
  reads back out of what a send built.
- `replay` — the forward projection that decodes what we write into observations, the log
  that counts them, and a guest RAM that records through it.
- `boot` — the boot state machine: publish, post, and the service pass over the command
  queue, which answers each command before consuming it and publishes what it consumed
  even when it is refused; the ABI's function table and the command policy are traits
  the device shell implements.

Forwarding plane:

- `forwarding` — the plane's refusals and staleness vocabulary.
- `table` — an address space's binding table: lookup, bind and unbind, the cut of a range
  at the table's boundaries, and the walk that says which store each byte is read from.
  This is the library's own model of the per-address-space table that the device's
  memory-management layer keeps.
- `plans` — the plan phase: a process's state as plain facts, and the plan of each
  host-visible operation (publication, guest-RAM pin, framebuffer leaf, doorbell, ring
  and pushbuffer reads), with the commits of publications and pins.
- `engine` — engine objects and doorbells: the commits that adopt a materialized channel.
- `fbleaf` — the commit and the bind of a framebuffer leaf.
- `submit` — controls and partitioned copies.
- `operands`, `partition`, `ce` — copy-engine operands resolved in the channel's table,
  the partition of a request into sub-copies, and which engine runs each. The operand
  resolver is the library's own model of the one the device's memory-management layer
  provides.
- `ptplan` — planning page-table decodes and sweeps, and learning the levels a descent
  visited.
- `fetch` — a planned ring or pushbuffer read's bytes, run by run, from guest RAM and from
  our own framebuffer.
- `methods` — method streams decoded word by word, and how much of a GPFIFO ring is live.
- `pushbuffer` — applying a channel's decoded methods: each launch partitioned and
  classified, completions released behind their bytes, page-table writes latched onto the
  address spaces that own them.
- `spine` — routing through the device's spine.
- `aperture`, `routes` — the remaining choices: which backing a framebuffer leaf gets, and
  the named outcomes of routing.

`app/` holds what runs around the library: publishing and draining in one step, and the
ring and pushbuffer reads that alternate the library's decisions with guest memory, the
page-table ownership index and the completion queue.
