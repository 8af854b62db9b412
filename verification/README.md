# Podium

Podium is a native desktop workspace for running several development
projects: one window, one project loaded at a time, with docks of panels
(Files, Agents, Knowledge, Review, Terminal, Health) and an onboarding sheet
that registers new projects.

## Layout

- `src/` — the core, verified with Verus:
  - `config` — `projects.toml` / `kb_sources.toml` model, most-recently-used
    order, project lookup and touch;
  - `state` — per-project dock layout kept across launches;
  - `ssh_hosts`, `ssh_config` — `~/.ssh/config` `Host` alias parsing for the
    git account dropdown;
  - `onboarding` — the seven-step onboarding flow and its decisions
    (name validation, remote prefill, knowledge source selection, MemPalace
    wings, summary, project creation);
  - `dock`, `panel` — dock layout, panel activation, tab bar order;
  - `watch` — version bookkeeping of the watch channel;
  - `text` — character-level string helpers the parsers share.
- `tests/` — tests of the library on concrete values.
- `app/` — the application around it: file and network I/O, the credential
  store, the folder picker, the watch channel's locking and wakers, and the
  GUI.
