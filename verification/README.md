# herdr

The decisions of a terminal workspace client, verified with Verus.

`src/` is the library: what the client sends, draws and remembers, as functions from plain values
to plain values, each with a contract. `app/` carries the decisions out: sockets, the terminal,
files, child processes, fonts and the graphics card.

| Module | What it decides |
| --- | --- |
| `client` | the handshake, the running client, attached terminals, dropped files, terminal modes |
| `kitty_graphics` | which images are on the host terminal, and the escapes that bring them there |
| `config` | the sidebar's settings, and where in the file a complaint belongs |
| `detect` | commands and successes in an agent's transcript |
| `forge` | which repository a remote names, its credentials, its open pull requests |
| `gpu` | how a frame of cards is laid out for the graphics card and read back |
| `grid_raster` | box drawing, blocks, and the surface that text is drawn on |
| `handoff_metadata` | what one server hands to the next |
| `host_terminal_identity` | what the terminal says it is |
| `events` | how a pane's process ended |

What is assumed of the crates outside (`base64`, `serde_json`, `toml_edit`) stands beside
each call, in the contract and the comment of the function that makes it.
