# pim_daemon

The decision-making core of the proximity-mesh daemon, written in Verus:
every function in `src/` carries a `requires`/`ensures` contract that Verus
proves, and the properties that span several calls are stated as public
proof functions (`lemma_*`).

## Layout

- `src/` — the verified library.
  - `send_buffer`, `reputation`, `reconnect`, `outbound`, `probes`,
    `identity_rate`, `auth`, `log_history`: the daemon's stateful tables
    (per-peer send buffers, blacklisting, reconnect slots and backoff,
    outbound attempts in their handshake, gateway pings, identity rate
    limiting, authorization and trust on first use, the log ring).
  - `forwarding`, `packets`, `discovery`, `cleanup`, `messaging`, `rpc`,
    `snapshot`, `config_edit`: the per-event decisions of the data plane,
    gateway, peer cleanup, messaging store and control socket, and the
    edits of the TOML configuration that the control socket makes.
  - `calendar`, `decimal`, `hex`, `node_id`, `text`, `stats`, `runtime`,
    `net_addr`, `bytes`, `frame`: formatting, parsing and path rules.
- `tests/` — tests run against the compiled library.
- `app/` — the daemon front end: argument handling, SQLite stores, the
  JSON-RPC socket, `bluetoothctl` and interface lookups, the trust-store
  file and the floating-point rate limiter.

Times enter the library as plain numbers (monotonic nanoseconds or Unix
seconds/milliseconds) handed in by the caller; the only calls whose results
are not fully specified are the wall clock, the random backoff jitter and
the `toml` crate's parser and printer, whose results are named rather than
spelled out.
