# sara — a folder-aware task manager, verified

`sara` keeps tasks in a SQLite database, scoped to the Git project (or folder)
you are standing in: it ranks them, tracks time, wires dependencies between
them, groups them into features on a board, and can ask a language model to
enrich a new task.

The crate is in two parts.

- `src/` is the library, written in Verus: its functions carry contracts
  (`requires` / `ensures`) that Verus proves. It holds the rules of
  the program — the inline `add` tokens, the due-date grammar, recurrence,
  dependency cycles and feature chains, display-id repacking, the change
  history, the review form and the detail view as state machines, the board
  and heatmap layouts, the prompts sent to models, the strict JSON schema
  they are given, and the shorthand of the command line. Calls into chrono,
  uuid, interim and the standard library stand behind small trusted wrappers
  whose contracts say what those crates document and Verus takes on trust;
  the three that read the clock or the local time zone (`utc_now`,
  `natural_date`, `local_date_string`) promise nothing of their result.
- `app/` is the program around it: `main`, the SQLite store, the terminal
  screens, the HTTP calls to the model providers, the clock and the file
  system. It hands the library plain values and shows what comes back.

`tests/` runs the library on concrete values.
