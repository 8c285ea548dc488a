# CopyCat

A clipboard history manager for the system tray. It catches what you copy,
text and images, keeps it as files next to the executable, and gives it back
on request.

- `src/` is the library, verified with Verus: the history index (adding,
  de-duplicating by FNV-1a hash, deleting, pinning, trimming to a limit), the
  watcher's decisions, payload file names, the settings and their defaults,
  the titles and selection logic of the window, the global shortcut's state,
  and the key sequence of automatic pasting. PNG encoding and decoding and
  hotkey parsing are done by the `image` and `global-hotkey` crates.
- `app/` is the program around it: the window (`eframe`), the tray icon,
  clipboard access (`arboard`), files, JSON (`serde_json`), the watcher thread,
  and the Windows-only parts (registry, focus and key input).
- `tests/` runs the library on concrete values.
