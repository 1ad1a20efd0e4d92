# alt_ime_rs

A Windows tray tool that switches the IME off with a lone tap of the left Alt
key and on with a lone tap of the right Alt key (a key combination such as
Alt+Tab switches nothing), with a tray menu for start-up registration and an
update check against the project's GitHub releases.

- `src/` is the verified library (Verus): the Alt-tap state machine and its
  laws (`hook`), the IME window choice and open-status request (`ime`), the
  `Run`-key value and registry return-code decisions (`startup`), the tray
  window's message dispatch, menu, dialogs and tooltip (`tray`), the release
  tag parser, version comparison and response handling (`update`), and the
  UTF-16 and character-search helpers they share (`text`).
- `app/` is the Windows program around it: the hook, the window, the registry,
  WinHTTP and the threads, all through `windows-sys`.
- `tests/` run the library on concrete inputs, and check that its Win32
  constants equal those of `windows-sys`.
