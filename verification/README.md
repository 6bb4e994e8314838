# omniget

The parts of a media downloader whose behaviour is worth proving, as a Verus
library, and the ordinary Rust around them.

- `src/` is the library. `packet`, `sender`, `receiver`, `transfer`, `punch`,
  `send_session`, `receive_session` and `conversation` are the hole-punched UDP
  file transfer;
  `native_host` and `json` the browser's native messaging host; `course` and
  `files` the course archive and its file names; `webview` the channel through
  which a webview hands results back; `bytes` and `text` what they share.
- `app/` holds the sockets, files, processes and windows. It performs the
  actions that the library decides on and hands back what came of them.
- `tests/` runs the library with the real outside crates.

Where the library relies on another crate, the item that makes the call says so
in its comment, with what it takes for granted. The central statements are
proof functions named `law_*`: among them that a received file is the sent one,
whatever the network loses, repeats or reorders (`transfer`, `conversation`).
