# paneru

The logic of a sliding, tiling window manager: windows stand in columns on an
endless strip, and the strip slides under the display. Every function of the
library has a contract, and Verus proves it.

- `src/` is the library. `layout` holds the strip and the places of windows on it,
  `windowset` the layout that scripts transform, `layout_ops` what becomes of such a
  transform. `scroll` moves a strip, `triggers`, `systems`, `workspace` and
  `reconcile` react to windows, spaces and displays that come and go, `runtime`
  decides how long to sleep. `config` reads bindings, writes window rules and
  says how a written rule reads. `state`, `wire`, `client` and `ipc` are the protocol
  between the daemon and its clients; `script_value` and `script_state` keep what
  scripts store.
- Public proof functions whose names begin with `law_` state what holds across
  functions, such as that opening a window resizes no other.
- `tests/` runs the library on values.
- `app/` is what surrounds it: files, encodings, the channel of events, the system's
  displays, the user's script and floating point arithmetic. It is not verified.

Floating point numbers are kept as their bits (`number`). The library orders,
clamps, negates and truncates them; arithmetic comes from `app/`.
