# unidrop

The verified core of a clipboard and file relay client: a device signs in to a relay over
a control connection, offers clipboard content or files to another device, and streams the
content over a separate data connection in checksummed, optionally AES-256-GCM sealed
chunks under a sliding window.

Layout:

- `src/` — the library, verified with Verus.
  - `protocol/` — the 64-byte binary frame header (encode, decode, CRC-32) and the
    control-plane message types.
  - `engine/` — the transfer logic: offers and their encryption (`offer`, `e2ee`), framing
    and the failure breaker (`transfer`), the sender's chunk plan and the receiver's frame
    verdicts, including the completion verdict that requires every file's SHA-256 to match
    its offer (`data_plane`), the retransmission window (`sliding_window`), the offers awaiting
    their answer (`pending`), path
    confinement for received files (`path_guard`), cache retention, the clipboard lock and the clean-up choice
    (`retention`), history pruning and failure cards (`history`), the online-device list
    (`devices`), names for saved copies (`save_names`), TLS failure classification and
    trust policy (`tls_trust`), the control
    connection's signing, URLs and reconnect schedule (`connection`), clipboard previews and
    limits (`clipboard`), and small launch and tray decisions.
  - `platform/` — text formats of the desktop integration: the Linux clipboard tool output,
    the LaunchServices registry dump, the tray placement verdict.
  - `settings.rs`, `size_text.rs`, `text.rs`, `digest.rs` — settings validation, exact
    human-readable sizes, string helpers, and the hashing (one-shot and streamed SHA-256,
    HMAC) and encoding wrappers.
- `tests/` — ordinary Rust tests of the library.
- `app/` — the application around it: JSON forms, SQLite storage, rustls configuration,
  file I/O, the loops that drive the connections with the library's decisions, and the
  dispatch of incoming control messages.

Not part of this crate: the desktop shell of the client — the Tauri window, tray and menu
plumbing, its commands (including the check that a session belongs to the signed-in account
before its files are saved or put on the clipboard), notifications, the native clipboard and
macOS/Windows bindings, and the WebSocket transport that would implement `Dialer` and
`FrameLink`. The decisions those pieces take are in `src/` where they could be parted from
the platform calls (tray clicks, clipboard formats, launch checks); the rest is left to the
host.
