# aion_tui

The verified core of a terminal chat front end.

- `src/` holds the logic, each function with a contract proved by Verus:
  markdown layout (`markdown`, `render`, `wrap`, `style`, `text`), the
  conversation state and how agent events change it (`state`,
  `transcript`), what the screen shows (`ui`), the decisions of the
  interactive loop (`runtime`), command-line flow choices (`cli`), the
  reasoning-replay retry rule (`provider`) and the tool search
  (`tool_search`, `read_image`). Laws that span several functions are
  public proof functions whose names start with `law_`.
- `tests/` runs the library on concrete inputs.
- `app/` is ordinary Rust around the library: conversions to and from
  `ratatui` and `crossterm`, drawing, and a JSON adapter for the tool search.

Not here: the interactive loop that drives the agent engine and the
command-line flows that wire configuration, sessions and the engine. They
call into the agent, configuration and protocol crates and into the composer
and command-popup modules, whose sources are not part of this project; the
decisions those loops take are in `runtime` and `cli`.
