# fixdecoder

Decodes, validates, obfuscates and summarises FIX messages in logs, answers questions about FIX
dictionaries, and reassembles FIX messages from packet captures.

- `src/` is the library. Every function states in its contract what it returns; Verus proves it.
  Rendering functions return text. The width of the terminal, the palette and what the
  environment says come in as arguments.
- `app/` is the programs `fixdecoder` and `pcap2fix`: the command line, files, pagers, threads
  and the terminal.
- `tests/` runs the library on concrete inputs.

Calls into other crates stand in a few small functions, each with a doc comment that names the
call and says what is taken for granted of it: `outside.rs` (dates, patterns), `words.rs` (shell
words), `xml.rs` (documents), `packets.rs` (frames), `capture.rs` (resolutions of timestamps), and
in `text.rs` and `collections.rs` two or three of the standard library.

Laws that relate several functions are proof functions whose names begin with `law_`.

The dictionaries in `embedded.rs` hold the session layer and the messages, components and fields
that are most used of each FIX version, and `sensitive.rs` the tags that name parties and
accounts. They are cut down from the full lists; `--xml` takes a full dictionary.
