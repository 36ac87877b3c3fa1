# Meeting Agent

An agent that runs beside Microsoft Teams on Windows. It detects meetings, asks
whether to record them, and writes picture, sound and captions into a folder for
each session.

- `src/` is the library. It holds the rules of the agent: how a meeting and a
  share are recognised, how captions are told apart, how sound is mixed and
  pictures are scaled, how the timeline becomes a transcript and a summary, and
  the state machines of the tray, of a session and of a capture. What a function
  returns or changes is stated in its contract, which Verus proves; a few short helpers
  have none. Calls into `chrono`, `image` and the standard library that Verus
  does not know stand behind small wrappers and declarations. Their contracts
  are believed, not proved, and a comment above each says what is claimed.
- `tests/` runs the library on concrete values.
- `app/` is the program around the library: windows, devices, files and
  threads. It needs Windows 10 2004 or later; on other systems it can
  be built, and tells so. The tray and the windows are drawn with tao, wry, muda
  and tray-icon, which a Windows build adds to its dependencies.

Beside the program lies a directory `assets` with `icon-32.png`, `icon-128.png`,
`popup.html` and `welcome.html`.
