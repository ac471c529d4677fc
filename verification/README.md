# Farthinder

A speed bump in front of package managers. `fart` puts shims before `npm`,
`bun`, `pnpm`, `yarn`, `pip`, `uv`, `pipx` and `poetry`. A call that would
install something runs behind a local proxy, which takes the versions that are
younger than a number of hours (48 unless set otherwise) out of what the
registry says of a package, and in a sandbox that keeps secrets closed and lets
the tool connect to nothing but the proxy. Every other call runs as it always did.

## Settings

`min_age_hours` (48) and `sandbox_required` (true) are set, from the weakest to
the strongest, by `config.toml` in the user's configuration directory, by
`farthinder.toml` in the directory of the call, and by the variables
`FARTHINDER_MIN_AGE_HOURS` and `FARTHINDER_SANDBOX_REQUIRED`.

## Layout

- `src/` is the library, written in Verus. Everything in it is proved against
  the contract above it, except the functions marked as trusted, each of which
  does nothing but call into another crate.
  - `registry/`: which calls go through the proxy, and what becomes of the
    answers of the npm and PyPI registries
  - `instant`, `rule`, `config`: ages, cutoffs and settings
  - `proxy`, `cert`: connections, requests, answers and certificates
  - `interceptor`, `install`, `sandbox/`, `printer`: the call of a shim, the
    start-up files of the shells, the sandboxes, and what is shown
  - `json`, `headers`, `target`: documents, header fields and URLs as contracts
    see them
  - `text`, `number`, `order`, `listing`, `paths`: what the rest is built from
- `app/` is the program around it: files, sockets, processes and the terminal.
- `tests/` runs the library.

## What is proved

Beside the contract of each function, public proof functions state what holds of
the library as a whole. Among them: a version that is too new, or whose time
cannot be read, leaves no trace in an answer, and one that is old enough loses
nothing; an answer that was cleaned once passes unchanged; what uninstalling
takes out of a start-up file is what installing put in; and nothing that the rules
for Landlock open, to reading or to writing, lies above, at or below a path that a
tool must not read.
