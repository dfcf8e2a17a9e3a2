# clicker_core

The verified core of an auto-clicker, with the input and output around it.

- `src/` is the library, verified with Verus:
  - `text`: trimming, lower case, replacing, splitting and integer reading on
    `Seq<char>`, each stated and implemented on `&str` / `String`;
  - `hotkeys`: normalizing and parsing hotkey strings such as `ctrl+shift+f5`
    into a binding, writing a binding back, registering a hotkey, and whether
    a binding is held given the keys that are down;
  - `hotkey_laws`: that a written binding reads back as itself, that only the
    normal form of a hotkey string matters, that normalizing twice changes
    nothing, that the order of the tokens does not matter (also as
    written, before normalizing), that the main-key
    parse ignores case and surrounding white space and gives back names that
    read as themselves, and that parsed keys have a physical key;
  - `keys`: virtual-key codes and the physical keys that stand for them;
  - `listener`: one step of the hotkey listener, that a run of steps after a
    registration reports no press before the hotkey is let go, and what a
    press or release asks of the clicker;
  - `mouse`: button flags, the input event they stand for, the steps of a run
    of clicks and of a smooth move;
  - `wayland`: what is kept of the outputs a Wayland compositor announces.
- `app/` holds what talks to the system: keyboard polling (device_query),
  mouse events and the screen size (enigo, winit), the Wayland connection
  (wayland-client), and the floating-point paths and densities.
- `tests/` runs the library on concrete values.
