# hns_browser

The decision core of a Handshake browser, written and proved in Verus.

- `src/` holds the library, with a contract on its functions.
  - `name`, `dns`, `nameserver`, `resolver`: names, records, referrals.
  - `dnssec`, `authoritative`, `system`: delegated DNSSEC resolution.
  - `proven`, `delegating`, `store`, `cache`: proven names and stored values.
  - `sync`: headers and name proofs from peers.
  - `transport`: requests and responses of origins, certificates, connections.
  - `gateway`: the browser's requests, the answers and the reports.
- `tests/` runs the library.
- `app/` is the native side around it: sockets, files, clocks, the Java bridge.
  What other parts of the browser provide, such as the block chain and the DNS
  wire format, stands behind `app/backend.rs`.

Laws that hold across functions are public proof functions whose names start
with `law_`.

What is believed without proof stands behind few functions: the hashes of
`hash`, reading UTF-8 in `bytes`, `String::push` in `text`, the syntax checks of
`http` and `rustls` in `transport::request`, and the certificate maker in
`gateway::local_tls`.
