# josh_proxy

The decisions of a git proxy that serves filtered views of a monorepo and
takes pushes to those views back upstream, written in Verus and proved
against their contracts.

- `src/assoc.rs` — finite maps kept as lists of key-value pairs, no key
  twice, specified as `Map`s; the caches and the push options are built on
  them.
- `src/text.rs` — string operations (`split`, `join`, `replace`, `replacen`,
  `lines().next()`, `trim_matches`, `contains`) specified over `Seq<char>`.
- `src/refs.rs` — reading the reference name of a push (`<ref>%<options>`,
  review pushes to `refs/for/…`, drafts).
- `src/changes.rs` — stacked changes: one reference per Change-Id.
- `src/remote.rs` — the `git push`, `git ls-remote` and `git fetch` command
  lines and how their output is read.
- `src/namespace.rs` — temporary per-request namespaces.
- `src/options.rs` — push options stored as JSON.
- `src/update.rs` — the session that processes a push to a view: it is told
  what happened and answers with the next thing to do.
- `src/view.rs` — the caches of rewritten commits (one per branch and
  view), showing a branch through a view with its cache, and the walks
  that show a history through a view, take changes back, or move it into a
  subdirectory.
- `app/` — the repository, remote, file-system and environment work around
  the library.
- `tests/` — scenarios run against the compiled library.

The filter engine itself is not part of this crate. `app/proxy.rs` states
what the proxy needs of it as the `FilterEngine` trait, and `app/scratch.rs`
states what a view must do as the `View` trait; neither has an
implementation here, so the application code processes a push end to end
only once an engine implementing both is supplied.
