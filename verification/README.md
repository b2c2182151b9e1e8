# piccolo_stdlib

Verified logic of the `string` and `coroutine` standard libraries of a Lua
runtime, written in Verus.

- `src/string.rs`: Lua offsets (`convert_index`, `convert_index_end`),
  `sub`, `string.len/byte/char/lower/upper/reverse/rep`, the start of
  `string.gmatch`, `call_string` (what each registered string callback does
  with the arguments on the stack), `call_searching` (what the registered
  `gmatch` and `gsub` do, against the results of their searches), the
  registration of the `string`
  library, and laws on them.
- `src/matching.rs`: matches and captures, the values a match stands for,
  the `string.gmatch` iterator step, and `gmatch_run`, a whole iteration.
- `src/gsub.rs`: the `string.gsub` state (skipping repeated empty matches,
  building the output, the match limit), how a replacement is found, and
  `gsub_run`, a whole call, with laws on its output and count.
- `src/coroutine.rs`: `coroutine.status` names, the control transfers,
  `call_coroutine` (what each registered coroutine callback does), and the
  registration of the `coroutine` library.
- `src/registry.rs`: tables from names to values and the globals of a state.
- `src/value.rs`: the Lua values the callbacks take and hand back, and the
  reading of arguments.

What only the runtime can answer is an argument of these functions: the
result of each pattern search (`found`), the replacement text produced for
each handled match (`texts`), and, for the coroutine callbacks, whether a
value can be called, the new thread, the state of a thread and the running
thread (`CoroutineRuntime`).
