# Intent Database

A cache of AI conversations that matches a new conversation with stored ones
by intent (purpose, topics, context tags) and sentiment, builds question
funnels from clusters of stored conversations, and serves a small web UI.

## Layout

- `src/` — the library, verified with Verus:
  - `conversation` — intents, entries, conversations, expiry and metadata;
  - `database` — the store (unique ids), lookups, ranked matches, cleanup,
    with the laws relating store/get/remove/update/cleanup;
  - `text`, `matcher`, `ranking` — word and list overlap, stable ranking by score;
  - `ai`, `funnel`, `clustering`, `flow` — adapters registry, funnels and
    sessions, hash embeddings, clustering bookkeeping, and the decisions of the
    find-or-generate, short-circuit, chat-feedback and retry flows;
  - `generation` — reading generated text out of a service reply;
  - `web`, `devtools` — event framing, broadcasting, chat replies, log rules,
    the lint rules and the local generation stand-in;
  - `format`, `clock` — decimal notation and the wall clock.
- `app/` — what Verus does not check: the asynchronous traits and services,
  floating-point scoring and k-means, serialisation, sled storage, HTTP
  clients, the tiny_http server and the command-line programs.
- `tests/` — tests of the library.

Similarity scores are floating point and are computed in `app/`; the library
receives each score as an order key (a `u64` whose integer order is the order
of the scores) and does the filtering and ranking.
