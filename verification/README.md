# wifimanager

A WiFi manager for small boards: until a board knows its network it offers an
access point with a web page, where the network is chosen, and takes firmware
updates over the same page.

- `src/` holds the rules, written in Verus with contracts that are proved:
  reading requests (`http`, `text`), answering them (`http`, `header`,
  `sender`), the life of a connection (`session`), firmware updates (`update`,
  `upload`), the non-volatile storage (`nvs`), settings and errors (`structs`,
  `error`), the network of the access point (`ap`).
- `tests/` runs them.
- `app/` is what surrounds them on a board: tasks, sockets, signals, flash and
  radio. `app/board.rs` needs a chip of the ESP family.

The rules perform no input or output. Where a conversation with a socket or
the flash takes several steps, a value of the library (`Session`, `Sender`,
`Upload`, `PartitionScan`) says what is to be done next and is told what came
of it.
