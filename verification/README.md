# pandora_launcher

The decisions of a desktop game launcher, verified with Verus, and the program
around them.

- `src/` is the library. It touches no file, socket or process: it takes plain
  values and says what to do.
  - `startup`, `request`, `listener`, `cli`: the first launcher process serves,
    and every later one hands its command line to it.
  - `spawn`, `environment`, `stdio`, `exec`: how a child process is put together
    and what it does before it becomes the program.
  - `paths`, `portable`: where the launcher keeps its files.
  - `deadlock`: the watch for threads that wait for each other.
  - `logging`, `exit_status`, `text`: what users and developers read.
- `app/` is the program. It also needs the launcher's `bridge`, `backend` and
  `frontend` crates, which are not part of this repository.
- `tests/` runs the library with the real outside crates.

Each multi-step operation is a state machine: `step` takes what happened and
returns the next state and the next action, and a `leads_to` relation says
exactly which. The proof functions whose names begin with `law_` state what
holds of the library as a whole.
