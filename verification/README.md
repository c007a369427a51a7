# adsb_demod

Output formats and aircraft tracking for an ADS-B receiver, written in Verus.

`src/` is the verified library:

- `text` — upper-case hexadecimal and decimal renderings of integers, as
  specifications and as verified string builders.
- `metadata` — the reception details of a packet, as plain values.
- `beast_output`, `avr_output`, `raw_output`, `sbs1_output`,
  `websocket_output` — the dump1090-compatible message formats: how a packet
  becomes a message and how a message is encoded.
- `output_module` — module configuration, the traits of output modules and
  their builders, the registry of builders and the manager of running
  modules.
- `tracker` — the register of aircraft and the decisions taken on each
  message: registering, CPR frame pairing, recording positions and
  velocities, pruning.

`app/` holds the networking side: the TCP and WebSocket servers, the broadcast
channels that feed them, the output modules built on them, the tracker
driver that performs floating-point CPR and velocity decoding, and the
command line.

`tests/` exercises the library on concrete values.
