# localai

A shell for a local language model, built from plugins: the kernel only plugs them
in and out, and everything else is a plugin. The library is written in Verus; what
each function does is stated in its contract and proved. The program around it is
ordinary Rust.

- `src/cordis/` is the kernel: scopes, events, hooks, services, commands, effects,
  and the loader. Unloading a plugin undoes everything that it registered.
- `src/llm/` is the model layer: the request and the reply of a chat call, the
  micro-call protocol with its retries, and the compression of a conversation.
- `src/plugins/` are the plugins: chat, memory, microtask, subagent, tools, tui.
- `src/fs/` and `src/subprocess.rs` decide on the access to files and on running
  programs, under a mode, borders, names that are never touched, and guards.
- `src/tui/` is what the terminal shows, with a light Markdown.
- `src/json.rs` and `src/text/` are the vocabulary of the contracts.
- `app/` is the program: threads, HTTP, the disk, processes and the terminal. It
  asks the library what to do, does it, and hands back what came of it.

Handlers, services and effects are numbers in the library; the program knows what
each number does. What holds of several functions at once is proved in `laws.rs`
beside them, or next to the functions that it is about.

What the library trusts without proof is marked and described where it stands: the
JSON parser (`src/json.rs`), and the parts of the standard library on text
(`src/text/mod.rs`, `src/text/outside.rs`).
