# jason_os

The verified core of Jason OS, a local-first personal operating system that
links capture, planning, work, time, results, reviews, insights, mental models,
decisions and actions.

- `src/` is the library, verified with Verus: the JSON document model and its
  serializers, the record catalog, reference normalization and relationship
  integrity, timeline metadata and change events, finance rules, link capture
  (provider routing, provider replies, the fallback order), the AI assistant's
  context and replies, the action life cycle, fingerprints, the mental model
  and decision libraries, and the record store's decisions (saves, archives,
  search queries, exports).
- `app/` is the desktop side: SQLite storage and migrations, files, the
  credential file, HTTP calls and the local downloaders. It reads and sends;
  the library decides.
- `tests/` exercises the library on concrete values.
