# recall

Answers questions from a person's own memories, and only from them: an answer is drafted from
memories that passed a filter, every claim of the draft is checked against the memory it cites,
and what is not supported is not published.

## Layout

- `src/` is the library, verified with Verus.
  - `types`, `error`, `config`, `store`: what an ask carries, what can go wrong, the knobs of the
    service, and the record that is kept of an ask.
  - `pipeline`: fusion of the two searches (`retrieve`), the admission policy (`admission`), small
    talk (`kind`), verification of a draft (`verify`, `verify_run`), and the course of an ask
    (`run`).
  - `clients`: what is sent to the embedder, the scorer and the generator, and what is read from
    their replies.
  - `http`: routes, the service token, health, the index, and the events of a streamed answer.
  - `dash`: the dashboard over the service's log: what a line of the log does, what a key does, and
    what each panel shows.
  - `score`, `order`, `text`, `json`, `ids`, `when`: doubles by their bit patterns, ranking, text,
    JSON, ids and moments.
- `app/` is the program: `recall` runs the service, `recall dash [log]` the dashboard. It speaks to
  the database, the upstreams and the terminal, and writes numbers out.
- `tests/` runs the library.

## What is trusted

Lower case, the letters and digits of Unicode and `String::push` come from the standard library,
JSON from `serde_json`, ids as text from `uuid`, moments as text from `chrono`. Everything else in
`src/` is proved.

## The service

The statements of the two searches are read from `sql/search_personal.sql` and
`sql/search_mounted.sql`, the migrations from `migrations/`, both in the working directory.
