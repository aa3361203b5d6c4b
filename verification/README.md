# freedsp

The verified core of FreeDSP Studio, an EQ editor for Moondrop's DSP USB-C cables (DUSK-SP, MAY and
FreeDSP), written in Verus.

| Module | What it holds |
|---|---|
| `bytes`, `text` | little-endian words, hexadecimal text |
| `frame` | the 62-byte frame and the 24-bit gain field |
| `band` | the nine bands: what reads back, what is written, which band carries the preamp |
| `sequence` | the frames, fetches and pauses of each operation |
| `ledger` | leave to drive a cable: what is not entered cannot be done |
| `transport` | the platform's side of a cable, and the history of what was done with it |
| `dsp` | the operations on an open cable |
| `profile` | names and preset tables by product ID |
| `hid` | the operations as a user sees them, with the guard against the wrong cable |
| `discovery`, `opening` | which device to open, and what to do when that fails |

Each operation's contract says which steps it takes, in order, and what it makes of the replies,
whatever they are. Functions named `law_*` state what holds across operations, such as that a
written band record reads back.

Floating point stays in `app/`: it turns gains, frequencies and quality factors into the whole
numbers and fixed-point coefficients that the library sends. `app/` also holds the HID backends and
the window's commands.

The window's commands in `app/commands.rs` use `tauri` 2 and `tauri-plugin-dialog` 2. They are not
in the manifest: the library needs neither, and both need the desktop's web view libraries to
build. Add them where the window is built.
