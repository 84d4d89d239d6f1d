# task_tracker

A command-line task tracker whose logic is verified with Verus.

- `src/` is the verified library:
  - `text.rs`: character-level helpers (decimal rendering, `u32` parsing as `str::parse` does it);
  - `task.rs`: `Status`, `Task`, and the calls into `jiff` for time stamps;
  - `config.rs`: reading the command line, the operations on the task list, and the texts
    that the program prints;
  - `persistence.rs`: the JSON file format of the task list, written and read back line by line.
- `app/` holds `main`, the file I/O and the clock.
- `tests/` runs the library on concrete inputs.

The proof of `lemma_read_after_write` in `persistence.rs` shows that reading a written task
list gives the same records back, for descriptions and time stamps without line breaks.
