# alley

The verified core of the Alley LAN sharing tool.

- `src/discovery.rs`: multicast discovery of other terminals: the registry of known
  terminals, the stop flag, which announcements are taken in, and the sending and receiving
  loops as state machines.
- `src/transfer.rs`: texts and files between two terminals: message kinds, text encoding,
  and the checksummed chunk framing of files (sender and receiver state machines).
- `src/digest.rs`: SHA-1 through the `sha1` crate, and the lowercase hexadecimal form.
- `app/`: sockets, timers, JSON, system information and user-interface events around the
  library.
