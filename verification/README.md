# perry_container_compose

Compose-style orchestration of containers on whatever runtime a machine
has (Apple's `container`, Podman, Docker, nerdctl, Lima), as a Verus
library with a thin command-line program around it.

- `src/` — the verified library: the compose data model, `.env` parsing
  and `${VAR}` interpolation, the startup order of services, the steps of
  `up` (with rollback), `down`, `start`, `stop` and `restart` and the
  backend calls each makes, the command lines of each runtime and the
  reading of their output, workload graphs and their policies, backend
  detection plans, the install dialogue, container naming, image
  verification, handle registries, the JSON texts of the
  foreign-function interface, and a recording backend for tests whose
  checked implementation meets the backend trait's contracts.
- `app/` — the program: argument parsing, YAML and JSON (de)serialisation,
  running runtime commands, probing the machine, the interactive installer
  and the C entry points.
- `tests/` — tests of the library, including end-to-end runs of `up` and
  `down` against an in-memory backend.
