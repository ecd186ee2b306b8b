# skim_integration

Fuzzy selection of commands, files, context paths, tools and prompts for a chat prompt.

The library under `src/` decides and is verified with Verus; `app/` performs what it decides, in a
terminal, with `skim`.

- `command_flow`, `prompt_flow`: the two selections as step functions, from where a selection
  stands to what it takes next.
- `commands`, `context`, `selector`, `options`, `errors`: what is offered, how a selector run is set
  up, and what it gives back.
- `prompts`, `grouping`, `display`: the prompts of the servers, sorted and laid out as a table.
- `handlers`: what a key press does to the input line.
- `text`, `truncate`, `order`: operations on texts.

The laws of the library are the public proof functions whose names begin with `law_`.
