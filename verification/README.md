# netmon

A network monitor for Linux that shows which processes, threads and users send
and receive how much, and that blocks or limits them with nftables.

`src/` is the library. It holds everything that is decided or computed, and Verus
verifies it:

- `controller` makes and removes firewall rules. An operation such as
  `block_process` is a state machine (`controller::operation`): it names the next
  thing to be done (run nft, read a file under `/proc`, use the registry of
  rules) and goes on from what came of it. `scope`, `rules`, `procfs`, `nft` and
  `registry` are its parts, `laws` states what holds of it as a whole, and
  `ownership` that it deletes no rule but its own.
- `monitor` turns rows of traffic into what is shown and exported: sorting
  (`ordering`, `table`), figures (`stats`, `dashboard`, `units`), the snapshot for
  a front end (`snapshot`), files (`csv`, `export`), starting a capture
  (`capture`), the state of the window (`desktop`), and what the machine says of
  itself (`system`).
- `text`, `scan` and `decimal` are the operations on text that both rest on.

Two functions of the standard library are taken at their word:
`String::push` (in `text`) and `str::to_lowercase` (in `monitor::system`).

Limiting is done by packet rate: a bandwidth is turned into the number of packets
of 1500 bytes that it has room for. It is not exact shaping.

`app/` runs the library: it starts nft, reads files, draws the window and serves
the commands of the web view (`--web`). Capturing packets and adding them up is
done by the workers `capture` and `aggregator`, which `app/` starts.

`tests/` runs the library on concrete values.
