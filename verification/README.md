# live_reload

A development server with live reload for the Zed editor: a static file server
that injects a small client into pages, a file watcher that tells open pages
what to reload, a language server front end, and a control channel for the
command line.

- `src/` is the library. It decides everything and does no I/O: what a request
  is answered with, which file a URL leads to, what a changed file does to the
  page, what a frame or a request line says, what to tell the editor. Every
  function states what it gives, and the modules ending in `_laws` state what
  holds across functions.
- `app/` is the program around it: sockets, files, the watcher, the LSP
  transport and the Zed extension shim. Where a decision needs to know
  something about the outside world, the library asks for it as a value
  (`Stage`, `Binding`, `Sending`, `FrameReader`), and the program finds it out
  and hands it back.
- `tests/` runs the library on concrete values.

Paths are handled as text with `/` between their components; the program brings
the paths of a system with other separators into that form first. A path that is not
valid UTF-8 is handled by its lossy text.
