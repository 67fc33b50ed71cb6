# openpair

A verified library for an inference-cluster node: EAP-NOOB (RFC 9140) pairing
state machines and key derivation, the cluster pairing protocol carried over
HTTP, certificate pinning and signed membership statements, model routing
across pinned peers, the JSON-RPC stream framings, and GPU inventory parsing.

- `src/` is the library, written in Verus. Its own functions carry contracts
  that Verus proves. Calls into outside crates (JSON, base64, hashing, ECDH,
  X.509, Ed25519, certificate building, randomness) sit behind small trusted
  wrappers: Verus takes their contracts as given, and those contracts state
  only what the crates' sources and documentation show.
  Two laws tie the pairing together: `pairing::handshake::lemma_handshake_agrees`
  (a Server and a Peer relaying both EAP-NOOB exchanges with the same Noob end
  Registered with the same Kz) and `cluster::agreement::lemma_join_agrees` (an
  inviter and a joiner relaying both exchanges with the same PIN each pin the
  other's PairingInfo and certificate, with the same Kz).
- `tests/` exercises the library on concrete values.
- `app/` is the node daemon around it: HTTP servers and clients, mutual TLS,
  mDNS discovery, files, running the GPU tools, and turning the `amd-smi`
  numbers that the library reads (decimal megabytes, percentages) into bytes
  and integers, which takes floating point.
