# c2pa_validate

A validator for C2PA content credentials, written and proved in Verus.

`src/` decides what the manifest store of an asset comes to: claim structure,
hashed URIs, hard bindings, signer and revocation, live and fragmented streams,
and the report. Every function there states its exact result. Parsing of asset
containers, certificate-path building and signature checking are done by the
host, which reports their outcome as plain values; `readiness` tests whether
such reports fit the store that they speak of. SHA-2 digests come from `sha2`,
RFC 3339 instants from `time`.

`app/` holds the host side: contained entry points, process-wide metrics,
serialised forms. `tests/` runs the library.
