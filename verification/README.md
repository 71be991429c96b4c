# mdbook-lang

An mdBook preprocessor that turns fenced code blocks of C/C++, Go, Python,
Java, JavaScript, TypeScript, Scheme and Pkl into editable playgrounds, an
installer that registers it in `book.toml`, and a build server that compiles
and runs the playgrounds' code.

## Layout

- `src/` — the verified library.
  - `text.rs`: trimming, splitting, searching, replacing and number
    formatting over characters, each stated over `Seq<char>`.
  - `config.rs`: the settings of the `[preprocessor.lang]` table.
  - `lang.rs`: recognising the fenced code blocks of a chapter (through the
    `regex` crate) and rendering each block into the playground template,
    with the proof that a chapter without playgrounds renders the same way
    every time.
  - `install.rs`: the edits of `book.toml` (through `toml_edit`) that
    register the preprocessor and the playground's files, and the proof that
    a second installation changes nothing.
  - `server.rs`: which toolchain builds a request, the sandbox command line,
    the JSON reply, the Pkl command line, taking the build directory out of
    a compiler's messages, and the steps of starting the
    server as a daemon, with the proof that the process-id file is removed
    before the server ends.
- `tests/` — tests of the library on concrete values.
- `app/` — the program: command line, reading and writing the book through
  mdBook, file and process work, the HTTP server and the daemon.

The playground's page fragment, scripts and style sheet (`lang.html`,
`lang.js`, `lang.css`, `jquery.js`, `disable-devtool.js`) are read by the
program from the directory named by `MDBOOK_LANG_ASSETS`, or from `assets`
beside the program.
