# dedns

A DNS node for names published on chain. It subscribes to the DNS
program's accounts over the RPC websocket, decodes zones, leases and
records from the account data, persists A records in a local index and
serves them over DNS.

Layout:

- `src/` — the verified library (Verus):
  - `wire` — the binary layout of the program's accounts, with decoders
    and an encoder proved against it, and proofs that the layouts are
    prefix-free (what is encoded decodes back to itself);
  - `ipv4` — dotted-decimal IPv4 parsing, proved to accept exactly the
    canonical text of an address;
  - `dns_service` — the A-record store (over `dashmap`) and the resolver;
  - `solana_service` — from a notification to a zone, lease or record;
  - `record_index` — which records are indexed, and how they are written
    and read back;
  - `config`, `uptime`, `banner`, `text`, `models` — settings, proof
    bookkeeping, the start-up banner, string helpers and the data types.
- `app/` — the program around it: websocket, DNS server, database,
  channels, logging.
- `tests/` — tests of the library, cross-checked against `borsh`.
