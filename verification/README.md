# me

The parts of the `me` agent that decide and compute, as a Verus library.

- `src/` is the library. Every function in it is verified; what it takes from other crates stands
  behind small functions whose contracts say what is relied on.
  - `agent_markdown_renderer`: Markdown as styled lines of a given width, with tables, code in the
    colours of its language, links and alerts.
  - `markdown`: strong emphasis next to text without spaces between words, and the parser's
    extensions.
  - `context_usage`, `compact`, `turn_history`: how the tokens of a context are shared out, when a
    context is compacted and how its summary is put to use, and what the user has said so far.
  - `updater`, `python_runtime`, `diag`: the course of an update, of an installation of the bundled
    Python and of a diagnostic upload, each as a machine that is handed what has happened and
    answers what comes next.
  - `event`, `model`, `toolbox`, `json`, `random`, `text`, `parts`: what the others share.
- `tests/` runs the library with the crates that it calls.
- `app/` is ordinary Rust around the library: files, processes and the network.

Laws that span several functions are public proof functions; their names begin with `law_`.
