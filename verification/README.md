# gooir

Semantically agnostic capability planning and admission, with contracts
checked by Verus.

- `src/` is the verified library: exact identities, strict JSON and content
  identities, the capability registry and planner, the neutral invocation
  protocol (offers, invocations, results, candidates), conformance
  assessments, admission policies and the admission ledger with its
  snapshots, pack manifests, attempt checkpoints with the journal's
  decisions (first creation, compare-and-swap, the canonical-bytes check
  on load, the read-back check), the failures that resolve attempts, and
  the `gooir` command grammar.
- `tests/` exercises the library through its public interface.
- `app/` is the `gooir` command: argument handling, file reads, serde
  copies of the manifest, fact and checkpoint documents, rendering, and
  the attempt journal's locking, reading, writing and renaming.
