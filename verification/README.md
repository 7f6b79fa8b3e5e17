# artifact_depot

The decisions of an artifact depot, written in Rust and proved with Verus: every
public function states what it returns, and the laws that hold across functions
are stated and proved as `law_*` functions.

- `auth`: credentials, grants, and the answers to failed checks.
- `docker`: manifests, the manifest closure of a tag, copying and moving tags
  step by step, listing tags and images page by page.
- `helm`: copying and moving charts step by step.
- `apt`: signing release files.
- `gc`: bloom filters of references, and which docker records are dead.
- `service`: copying records between stores, claiming content hashes, store
  statistics.
- `server`: what is noted of a request, and the live feed of requests.
- `audit`: tags of a group repository that an earlier member hides.
- `reorg`, `reorg_helm`: planning, reporting and executing the reorganisation of
  docker and helm repositories by rules.
- `text`, `seqs`, `ordered`, `json`, `time`, `error`: what the others are built on.

`app/` holds the reading and writing around the library: storage, registry
clients, HTTP, and the files that rules are written in.

Calls into other crates stand in small functions whose contracts are believed
rather than proved. They are marked `#[verifier::external_body]`, and each says
what it claims of the call.
