# audible_commands

The commands of a client for an Audible library: what they decide, what they
compute and what they say, as a library whose behaviour is stated in contracts
and proved with Verus.

- `src/` is the library. `api` composes raw requests, `library`, `collections`,
  `annotations` and `catalog` read what the service and the local database hold,
  `download` plans licenses, artifacts, decryption and the layout of files, `db`
  checks and prunes the records of downloads, `account`, `agent`, `hosts`,
  `config` and `completions` manage the rest. `items` resolves ids and titles.
  `text`, `lists`, `paths`, `text_map`, `tables`, `units` and `json` hold what
  the others share.
- `tests/` runs it.
- `app/` is the ordinary Rust around it: arguments, prompts, files, processes
  and requests. What it is run against, the service, the database and the
  configuration, it takes through the traits of `app/services.rs`.

What is not proved is what outside crates do: each call into one stands behind a
small function whose comment says what is believed of it.
