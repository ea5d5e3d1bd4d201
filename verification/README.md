# gpui_sys

A C boundary for retained UI trees, verified with Verus.

A caller builds a whole tree as one buffer of commands and hands it over in a
single call. The buffer is decoded on a stack machine, the tree is committed to
the slot of a view, and a renderer draws it. A keyed text can be replaced in
place without a rebuild. Keys, clicks and typed text travel the other way as
events of five integers.

## Layout

| Module | What it holds |
| --- | --- |
| `abi` | the numbers both sides agree on |
| `text`, `reader` | bytes, UTF-8, little-endian fields |
| `node` | nodes, their props, commands and setters |
| `command`, `builder`, `decode` | from bytes to commands, the stack machine, the decoder |
| `tree` | keys, dumps and replacement of keyed text |
| `views` | the committed trees and the calls on them |
| `style`, `render`, `scroll` | what the renderer is asked for |
| `events`, `window` | keys, clicks, payloads; opening a window |
| `encode`, `stream`, `growth` | from commands and trees to bytes, and back |
| `buffers`, `sources`, `session` | changes to a buffer that make no difference, updates as rebuilds, any calls in a row |
| `laws`, `labels`, `identity` | what holds of every buffer, every update and every rendering |

Proof functions whose names start with `law_` state what the library promises
as a whole; each says so in words above it.

## What is trusted

Two functions of the standard library are called through contracts that are
not proved: `String::from_utf8_lossy` and `std::str::from_utf8`, both in
`src/text.rs`. Floats are kept as their bits and become numbers only in `app/`,
which also holds the exported functions, the shared state and the window.
