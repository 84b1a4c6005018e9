# charter

A Charter node collects nostr events, puts them to the vote on the Char network, and turns the
decided ones into DNS records: a signed event that holds an IPv4 address sets the address of its
author's label in the zone `nostr.`.

- `src/` is the node's logic, verified with Verus: the wire format of votes (`varint`,
  `compact_size`, `hex_text`, `referendum`), the calls of the Char server and what its answers
  mean (`char_rpc`), the PowerDNS requests and the rule for events (`dns`, `ipv4`, `nostr`), the
  node's part in the ballots (`charter`, `ballot`), and the steps by which it comes up
  (`startup`).
- `app/` is the program: arguments, files, network and logging.
- `tests/` runs the library with the crates that it calls.

## Running

```sh
PDNS_API_KEY=... charter --bitcoinrpc http://127.0.0.1:18443 --datadir ~/.bitcoin/regtest
```

The data directory holds the server's `.cookie`; the node keeps the number of the next ballot
there, in `ballot.dat`.
