# scope_live

A verified library for a live oscilloscope link (the SCP1 protocol) and the
files it records, written in Verus.

`src/` holds the verified logic:

- framing, CRC32C and the first- and second-revision message codecs
  (`protocol`, `wire`, `codec`, `messages_v2`, `protocol_v2`,
  `protocol_v2_r2`, `metadata_r2`, `batch_r2`, `messages_r2`, `capture_v2`);
- snapshot validation of causal rows (`snapshot`, `keyed`);
- capture assembly with integrity summaries (`hardware_capture`) and the
  capture history (`capture_history`);
- the `.scope` record layer, the record scan and capture assets
  (`scope_format`, `recording_scan`, `capture_asset`);
- the rolling live buffer and its decimated snapshots (`live_buffer`);
- the session and simulator state machines (`session_v1`, `session_v2`,
  `simulator_session`) and the simulator's content (`simulator`,
  `simulator_v2`);
- stream timing, link bandwidth, machine profiles and smoke-run planning
  (`stream_timing`, `bandwidth`, `machine_profile`, `smoke`, `session`).

`app/` holds what Verus does not check: serde and JSON, thiserror error
types, reading recordings from disk, and the floating-point views of
buffers, link budgets and profiles.
`tests/` runs the library on concrete values.
