# neo_re

Tools for the AlphaSmart NEO: the updater protocol that lists, backs up and
installs files, SmartApplets and the NEO System image over USB; a compiler
from a small SmartApplet SDK to 68000 machine code; and the memory,
keyboard, LCD and firmware-service models of a NEO emulator.

The library in `src/` is written in Verus. Every function carries a
contract over a mathematical model of its data (`Seq`, `Map`, spec
functions and views), and Verus proves each body against it.

## Layout

- `src/protocol.rs`, `src/neo_client.rs`: packets, replies and the client.
  The client keeps ghost logs of what it sent and received, so each
  operation states the exact packets it sends and its result as a function
  of the device's replies.
- `src/sdk.rs`, `src/applets.rs`, `src/compiler.rs`: SmartApplet definitions
  and their compilation; the compiler's contract fixes the dispatcher, the
  code of every handler and the trap stubs.
- `src/memory.rs`, `src/keyboard.rs`, `src/lcd.rs`, `src/text_screen.rs`,
  `src/os_shims.rs`, `src/host.rs`, `src/session.rs`, `src/headless.rs`:
  the emulator's models and the decisions around the CPU run.
- `src/checklist.rs`, `src/catalog.rs`, `src/gui_bridge.rs`,
  `src/gui_state.rs`, `src/device_backup.rs`: the applet checklist, the
  bundled catalog and the front-end logic.
- `app/`: plain Rust around the library: USB and file I/O, the 68000 core,
  and the command-line front ends.
- `tests/`: tests run against the compiled library.
