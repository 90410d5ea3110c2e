# usbra

The wire protocol of USBra (a USB second display for Linux) and the host-side
logic that produces, frames and serves display updates, written in Verus with
its behaviour stated as contracts and proved.

## Layout

- `src/` — the verified library.
  - Protocol: `msg`, `caps`, `codec`, `pixel_format`, `reason` (registries),
    `header` (16-byte framing header), `rect`, `message` (message types and
    their mathematical views), `encode` / `decode_spec` / `decode` (what the
    wire bytes are, and the readers proved to agree), `stream` (framed
    messages in a byte stream), `laws` (round trips and what every message
    sent or accepted satisfies), `error`, `clock` (`now_ns`).
  - Host: `args` (command line), `canvas` (pixel geometry of BGRX canvases),
    `damage` (tile damage detection, vertical coalescing, row packing),
    `testsource` (the animated test pattern), `session` (resumable sessions
    and the answers to client messages), `events` (what is logged about a
    connection), `stats` (JSON-lines log text and frame counters),
    `gnome` (virtual-monitor session parameters and the grabber's UBF1
    frames), `text` (string helpers).
- `tests/` — tests of the library.
- `app/` — the `usbra-host` program: sockets, threads, files, D-Bus and the
  grabber process around the library, and the floating-point statistics.
