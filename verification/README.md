# nautilus_ovpn

A Nautilus (GNOME Files) extension that adds a "Verbinde im Terminal" entry to
the context menu of `.ovpn` files and runs OpenVPN for them in a terminal.

The project has two parts:

- `src/` is the library, with contracts and proofs for all of its logic: the
  line-oriented `.ovpn` scanners (`ovpn_parser`, `staging::parser`), the names
  and decisions of staging (`staging`: session IDs, display names, companion
  files, the root directory), the keyring payload format and the order of
  looking up, prompting and storing credentials (`credentials`), and the
  terminal launcher (`provider::terminal`: terminal selection, shell quoting,
  template variables and rendering). Laws such as the idempotence of the
  legacy provider patch, the read-back of stored credentials and the
  read-back of shell-quoted words are proved as public proof functions.
- `app/` is the extension itself: the GObject type registration and menu
  callbacks for Nautilus, the GTK options dialog, the Secret Service and
  NetworkManager D-Bus calls, and the file system work. It calls the library
  for every decision. For example, `app/credentials/mod.rs` holds the
  asynchronous `get_credentials`, which performs the keyring lookup, the
  dialog and the keyring store in the order that the library's
  `CredentialFlow` state machine decides.

Outside crates: `sha2` (session IDs) and `minijinja` (terminal templates) are
called from the library through small trusted wrappers; `toml`/`serde`,
`zbus`, `tokio`, `gio`, `gtk4`, `glib-sys`, `gobject-sys`, `gettext-rs` and
`uuid` are used by `app/`.
