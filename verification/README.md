# voice_input

Verified core of a push-to-talk voice input tool: hold Ctrl+Win to record,
release to transcribe with an OpenAI-compatible server, and the text is
pasted into the active window.

- `src/` — the library, verified with Verus:
  - `recorder`, `ready`: recorder state, resampling to 16 kHz, and the "first samples arrived" signal;
  - `trim`: silence trimming on 16-bit samples (voiced frames in, kept samples out);
  - `files`: recording file names, access checks, cleanup of old recordings;
  - `devices`: device labels and choice, stream configuration, WAV format;
  - `config`: settings and defaults;
  - `ai`, `text`: request addresses and fields, reply handling, trimming and decimals;
  - `shortcut`: keyboard hook decisions and hook registry;
  - `input`: the paste sequence;
  - `window`: overlay placement and window behaviour.
- `app/` — the Tauri application around it: audio devices, files, HTTP,
  clipboard, keyboard, windows, and the floating-point loudness measure.
- `tests/` — tests of the library.
