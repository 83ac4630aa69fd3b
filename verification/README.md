# app-kernel

An application kernel: modules register as handlers of notifies and as
hooks around events; the kernel loads and unloads them in dependency
order and dispatches events to them, pre hooks first, then the handlers,
then post hooks. Its own modules handle the command line, help and
version, settings, dynamic libraries and the asynchronous runtime.

- `src/` is the library, verified with Verus: the registry of modules and
  handlers (`app`, `handlers`), the dispatch as a state machine that the
  caller drives (`dispatch`), a module's life cycle (`app_module`), the
  settings and decisions of the kernel's modules and the built-in help
  text (`modules`), the PID
  file's state (`pid_file`), the application settings (`app_config`), the
  sample modules (`main_mod`, `ping_mods`) and the text functions they
  rest on (`text`). Laws of the library are public proof functions named
  `law_*`.
- `app/` is the runtime around it: module functions and instances, the
  driver that performs each action a dispatch asks for, and the work on
  files, libraries, signals and threads.
- `tests/` runs the library on concrete values.
