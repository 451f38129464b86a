# desktopinator

A tiling Wayland compositor that can be used over RDP and VNC, with plugins in Lua and
WebAssembly. The logic is a verified library; the program around it does the input and output.

- `src/` holds the library, whose logic Verus proves against its contracts: windows,
  workspaces and outputs (`compositor`), layouts (`tiling`), keys and pointers (`input`), commands
  from the control program (`ipc`), sessions of remote clients (`session`, `gfx`, `clipboard`,
  `displaycontrol`, `audio`), video (`encode`, `adaptive`), what is drawn (`background`, `overlay`,
  `label`, `cursors`), displays (`drm`), settings (`config`, `cli`) and plugins (`plugins`).
- `tests/` runs the library on concrete values, with the crates that it calls.
- `app/` is the program: it reads events, hands them to the library and carries out what the
  library answers.

An operation on the compositor's state returns the effects that it asks for, in order, and `app/`
performs them. What a key, a client or a command leads to is decided in `src/`.

Calls into other crates go through small wrappers marked `#[verifier::external_body]`. Their
contracts are trusted; the comment above each says what it claims. What plugins and encoders answer
is not promised.

Ratios of the layouts are integers in units of 2^-57.
