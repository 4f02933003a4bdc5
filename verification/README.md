# ssredirector

A library injected into an IL2CPP game (as a stand-in `version.dll`) that
redirects the game's service URLs to a private server.

- `src/` is the verified core, checked by Verus:
  - `redirect` — which URLs are redirected and how they are rewritten;
  - `il2cpp` — the runtime's string object as a value, reading its text,
    rewriting it in place or building a new one, and the redirect applied to
    a hooked call's URL argument;
  - `utf16` — UTF-16 encoding and lossy decoding, and their round trip;
  - `scan` — byte-pattern texts, the search of a module image, and the PE
    header field that gives the image size;
  - `codepage` — the decisions around the system's code-page conversions
    (empty input, the measured size, the converting call's result);
  - `document` — the contents of a settings document (sections and their
    key/value pairs, in order), lookups and sets over them;
  - `config` — the settings file (through `rust-ini`), its defaults and the
    list of extra libraries;
  - `host` — recognising Unity's crash handler, and the path of the system
    `version.dll`;
  - `text` — character-level helpers: search, white space, trimming,
    splitting, ASCII case folding.
- `app/` is the Windows side: `DllMain`, the Detours hooks, raw memory,
  console output, the `version.dll` forwarders and the Win32 calls.
- `tests/` runs the library on concrete values.
