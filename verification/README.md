# pki

Verification of TLS 1.3 server certificates, written and proved in Verus.

A client that trusts one issuer uses `server::CertVerifier` to decide whether a server
is the host that it was reached under:

1. `set_hostname_verification` sets the host.
2. `verify_certificate` walks the server's certificates to the trust anchor, checks
   that each on the way is valid at the time, and compares the names in the server's
   certificate with the host.
3. `verify_signature` checks the server's signature on the handshake under the key of
   the certificate that was accepted.

`src/` is the verified library. Its contracts speak of octet sequences, and of the names
in `crypto` for what the cryptography crates decide. `tests/` runs it with certificates
and signatures of every supported algorithm. `app/` connects it to the running hash of a
handshake.
