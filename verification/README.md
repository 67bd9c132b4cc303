# porto

The verified core of the Porto London coordinator and participant node,
written in Verus.

- `src/domain.rs`: opaque identifiers, the usage-batch replay rule, the
  submission lifecycle and the adapter and store boundaries.
- `src/services.rs`: recording and advancing submissions through any
  `SubmissionIntentStore`, the in-memory store, and the laws the store keeps.
- `src/node.rs`: the node's decisions: digest-checked cache admission,
  capability and receipt entry names, safe ids, the outbox retry rule, the
  deterministic aggregate and diagnostic redaction.
- `src/integrity.rs`: artifact integrity verdicts.
- `src/config.rs`: the coordinator's service configuration.
- `src/digest.rs`, `src/text.rs`, `src/order.rs`, `src/keyed.rs`: SHA-256 and
  hex, text handling, the key order of strings, and key-ordered listings.
- `app/`: the coordinator entry point and the node's file-backed stores, which
  perform the directory and file work around the library's decisions.
