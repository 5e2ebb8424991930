# iec104sim_core

An IEC 60870-5-104 master and slave simulator core, written in Verus: the
protocol logic is executable Rust whose behaviour is stated in `requires` /
`ensures` contracts and proved.

## Layout

- `src/` — the verified library.
  - `types.rs`, `data_point.rs`: ASDU type and cause catalogues, point
    values and the ordered point map (viewed as a map keyed by
    `(IOA, type)`).
  - `frame.rs`, `decode.rs`: APCI classification, stream reassembly and the
    full frame analyser.
  - `protocol.rs`: the master's link layer (sequence numbers, k/w windows,
    t1/t2/t3 timers) as a state machine over millisecond clock readings.
  - `master.rs`, `received.rs`: command frame builders, select-before-operate
    steps, and decoding of received ASDUs into a per-CA store.
  - `slave.rs`, `slave_link.rs`: stations, the station table, and what the
    slave answers to each client frame (confirmations, interrogation
    replies, control write-back, spontaneous and cyclic sending).
  - `master_app.rs`, `slave_app.rs`, `parse.rs`, `text.rs`, `update.rs`:
    request handling of the two front ends, text parsing and formatting,
    update throttling.
  - `laws.rs`: properties spanning several functions (round trips of point
    frames, control write-back, per-CA separation, and others).
  - `clock.rs`: the one reading of the system clock.
- `tests/` — tests on concrete values, including the scenarios of the two
  applications replayed without sockets.
- `app/` — the runtime around the library: TCP/TLS sockets, background
  tasks, the communication log, serde forms of the request types, and the
  command handlers. Floating-point rendering of measured values lives here.
