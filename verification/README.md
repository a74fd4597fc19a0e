# sddc

Driver pieces for the RX-888 family of software-defined radios and a Hermes
Lite 2 protocol server on top of them, with the protocol, bookkeeping and
parsing logic proved correct by Verus.

## Layout

- `src/` — the verified library:
  - `interface.rs` — firmware register and command codes, radio models.
  - `protocol.rs` — Hermes Lite 2 wire formats: discovery replies, control
    frames, receiver configuration, IQ data packets.
  - `server.rs` — the server's decisions: client state, control frames,
    per-receiver sample buffers, choice of the next data packet.
  - `client.rs` — requests of the test client, discovery-reply parsing,
    receive statistics.
  - `channels.rs` — virtual receiver channels: validation, filter-bank
    geometry, spectrum bin mapping, FFT windowing of the sample stream.
  - `flash.rs`, `usb.rs` — firmware image checks and the boot-loader
    download through vendor control transfers.
  - `ep0.rs` — endpoint-0 transfer buffers of the CyFX3 IOCTL interface.
  - `capture.rs` — integer statistics and histogram of a raw capture.
  - `mac.rs`, `sample_rate.rs`, `scan.rs` — MAC address parsing, converter
    rate choice, tuner scan summaries and the lock-wait step.
- `tests/` — tests of the library.
- `app/` — the unverified rest: USB and UDP I/O, threads, floating-point
  DSP (FIR design, FFT channelizer, VFO), gain tables, the mock signal
  source and the server program.
