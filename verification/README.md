# WhatsApp Lite

A small desktop client for Windows and Linux: it shows WhatsApp Web in a window of
its own, lives in the tray, and keeps several sessions apart by profiles.

- `src/` is the library. It holds the rules of the app, each with a contract that
  Verus proves: profiles and their directories, the hand-over of a session, when
  the page is reloaded, where the window may go, what a notification looks like,
  how downloads and saved files get their names.
- `app/` is the program around it: windows, tray, files, the registry, and the
  script that runs in the page. It expects `icons/icon.png` and
  `WhatsApp Lite Logo.png` beside it.
- `tests/` runs the library on concrete values.

Proof functions whose names begin with `law_` state what holds of the library as a
whole.
