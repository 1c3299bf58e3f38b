# spatial_os

The logic of a personal operating system, written in Verus: what the user asks is classified and
delegated to the worlds of work and home, the results are composed into one answer, clashes between
the worlds become one question, and memory, consent and a personal baseline stay under the user's
control.

- `src/` is the verified library. Every function is pure or works on a plain state; its contract
  says exactly what it returns. The laws that relate several functions are proof functions whose
  names start with `law_`.
  - `text`, `ranking`, `calendar`, `clock`: text as sequences of characters, stable sorting, dates
    and moments.
  - `mother`: intake, synthesis, arbitration and the message bus.
  - `memory`: statements in chat and consents.
  - `intelligence`: daily patterns, the personal baseline and drift.
  - `orchestrator`: the scenario streams as state machines that say what to do next.
  - `agents`, `worlds`, `routes`, `voice`: family dates, personal tasks, fan-out, rosters, UI
    signals and the voice channel.
- `app/` is the service around it: streams, storage, HTTP handlers and everything that computes
  with floating point.
- `tests/` runs the library on concrete values.
