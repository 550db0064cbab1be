# gtpsp

A verified library for a native Gran Turismo PSP runtime: it reads the game's asset
formats and runs the state machines around its script engine. Every function in `src/`
carries a contract that Verus proves.

- `src/` — the library, one module per concern:
  - formats: `bytes`, `texture` (PSP texture formats, DXT, unswizzling), `sprite`
    (TXS3 sprite files and their cache), `model` and `index_scan` (3LDM models),
    `track` (track files and their textures), `course` (course metadata),
    `specdb` and `gtengine` (the spec database and the car, course and race values
    read from it), `loader` (bytecode file heads and symbol tables), `decode` (the
    bytecode instruction set and its code frames), `project` (menu project files);
  - state machines: `input`, `camera`, `ui`, `main_loop`;
  - the bytecode machine: `value`, `ops` (operators and equality), `storage`,
    `frame`, `native` (the native-function registry), `vm` (modules), `engine` (the
    interpreter step and run loop), and `natives` (what the native functions compute
    from their arguments);
  - helpers: `text`, `grid`, `assets`, `graphics`, `platform`.
- `tests/` — tests run against the compiled library.
- `app/` — a command-line front end that reads files from disk and calls the library.

`engine` runs decoded instructions: `exec_insn` is one step of a call frame, stated
over the machine's state (`step_ok`); `exec_frame` fetches and runs the next
instruction of a frame; one round of the run loop is `round_ok`. `execute_frame` runs
the innermost frames for a budget of instructions, and `execute` and `exec_root` run a
call, or a program's root frame, to its end; their contracts give the whole run as a
sequence of rounds (`run_from`, `blocking_run`) and how it ends (`run_end`,
`blocking_end`). Calling script functions by name, calling native functions, loading
modules from disk and the debugging dumps stay outside the library. `decode` takes the table from opcode bytes to
operations as an argument: the numbering of the operations is the caller's to supply.

Floating-point values are held as their bit patterns; where a result needs float
arithmetic or float formatting, the library says so in its return value rather than
computing it.
