# wezzte_core

Parsing and processing of UI decorator annotations in WezTerm configuration
files, verified with Verus.

A configuration file carries a tuner block between `-- <<TUNER-START>>` and
`-- <<TUNER-END>>`. Inside it, decorator lines such as

```lua
-- @ui: slider(min=10, max=42, step=1) type=int
config.font_size = 18
```

describe a widget for the configuration line that follows.

## Layout

- `src/` — the verified library: lexer and parser of decorators, the
  annotation model, configuration paths, backup naming and ordering, tuner
  block updates, widgets (select, color picker, theme selector, numerical),
  widget metadata and registry, layouts and the automatic layout, and the
  state of values being edited. Every function carries a contract proved by
  Verus; laws that relate several functions are public proof functions
  named `law_*`.
- `tests/` — tests run against the compiled library.
- `app/` — the program around the library: file and directory access,
  preference storage as TOML, the widget trait objects, and the slider and
  color conversions that need floating point.
