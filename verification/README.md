# Spielab

An AirPlay sender for Linux desktops: it finds an Apple TV, pairs with its on-screen code, and
streams a screen, a window or a virtual monitor with system audio.

`src/` is the verified library: the rules, formats and state machines of the sender, with contracts
that Verus proves:

- `settings`, `options`, `failure`, `text`, `bytes`, `identity`, `crypto`: presets, command-line
  options, messages, number and text formats, made-up identifiers, keys and sealed packets.
- `property_list`, `late_dates`: property lists, and the dates in them that cannot be read.
- `media`, `pipeline`, `alac`, `packets`: encoder packets, process arguments, audio encoding and the
  wire layout of a stream.
- `clock`, `negotiation`, `requests`, `events`, `mirror`, `mirror_laws`: the receiver's clock, stream
  setup, the event channel, the running stream, and what holds of it over many turns.
- `pairing`, `capture`, `devices`, `backend`: pairing steps, screen selection, the list of receivers
  and the session worker.
- `interface`, `display`: the state of the window and what it shows.

What comes from other crates (ChaCha20-Poly1305, HKDF, property lists, random numbers, UUIDs) is
called behind small trusted functions, each with a comment that says what is believed of it.

`app/` is the program around it: the window, the worker thread, sockets and their timeouts,
processes, the desktop portal, saved files and where they lie, two computations in floating point,
and the command-line tools `discover`, `pair` and `mirror`. `tests/` runs the library on concrete values.
