# typo_compiler

Checks English sentences the way a compiler checks code: a model service
reports the mistakes of each sentence, and they are printed as compiler
diagnostics.

- `src/` is the library, verified with Verus:
  - `text.rs`: trimming, searching, lines and decimal numbers over `Seq<char>`;
  - `patterns.rs`: the regular-expression engine (`regex`) behind trusted items;
  - `sentences.rs`: dividing a text into sentences, with its laws;
  - `cli.rs`: where the text to check comes from;
  - `answer.rs`: reading the model's `Error<..>`, `Fix<..>`, `Explain<..>` lines;
  - `render.rs`: the compiler-style diagnostics;
  - `provider.rs`, `service.rs`: the configuration, the requests and the replies.
- `app/` is the program around it: argument parsing, files, HTTP and the main loop.
- `tests/` runs the library on concrete inputs.
