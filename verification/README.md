# riamify

Text front end of a speech application built on the AquesTalk engine:
it normalises a message with a replacement dictionary and turns the
morphemes that MeCab (with UniDic) finds in it into the engine's reading
notation.

- `src/` is the library, verified with Verus:
  - `yomi` builds readings morpheme by morpheme (`YomiBuilder`), with the
    accent rules in `yomi::accent_rule`;
  - `dictionary` holds the replacement rules and the Aho-Corasick automaton;
    `rules` reads the lines of dictionary files;
  - `settings` and `app` hold the settings, the voice presets and the
    numbers derived from them; `wav` decodes and encodes the engine's WAV
    data; `ffi` prepares what the speech DLL is given and reads its error
    codes; `text` holds character-sequence helpers.
- `app/` is the application around it: the speech DLL, MeCab and the kana
  conversion, the settings files, resampling, audio output and the C
  interface.
- `tests/` runs the library on concrete inputs.
