# ryke

The message protection and data plane of an IKEv2 endpoint in verified Rust, for
both roles, initiator and responder.

- `ikev2::sk`: encrypted IKE messages, `SK{}` with AES-256-GCM (RFC 7296, RFC 5282).
- `ikev2::fragment`: fragments of encrypted messages, `SKF{}` (RFC 7383).
- `ikev2::rekey`: CHILD-SA rekey with `CREATE_CHILD_SA` (RFC 7296 section 2.8).
- `ikev2::natt`: NAT detection and the non-ESP marker (RFC 7296 section 2.23, RFC 3948).
- `esp`: userspace ESP in tunnel mode with AES-256-GCM (RFC 4303, RFC 4106).
- `ikev2::message`, `ikev2::payload`, `ikev2::sa`: headers, payload chains and
  payload bodies.
- `crypto`: `prf+` over HMAC-SHA256 and the keys of a CHILD SA.

Every function states its result in its contract, byte for byte, and Verus proves
it. The properties that span several functions are proof functions, or clauses of
the function that makes them true:

- what is sealed is opened by its receiver, and refused under any other tag;
- no two packets of an ESP association share a nonce, and no two fragments of one
  message share an IV;
- headers that travel in the clear are authenticated with what they announce;
- fragments reassemble in any order, and not if one is missing or forged;
- a rekey leaves both ends with matching associations, whoever starts it;
- a responder narrows the selectors to an assigned address, and echoes them
  otherwise.

AES-256-GCM, HMAC-SHA256 and SHA-1 come from `aes-gcm`, `hmac`, `sha2` and `sha1`.
The functions in `primitives` call them under contracts that are taken on trust.

`app/` holds what is not verified: conversions from the addresses of the standard
library, and tracing.
