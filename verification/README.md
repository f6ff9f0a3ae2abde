# twrk

Open a project from your workspace in a tmux session with a configurable
layout, optionally in a fresh git worktree.

The decisions the program makes are a library verified with Verus
(`src/`); the program around it (`app/`) reads the command line, the file
system and git, shows the prompts, and runs tmux.

## Layout

- `src/json.rs`: the document model every config format is read into, and
  the layered deep merge of config files (closest file wins).
- `src/files.rs`: which config file a directory holds and how it is parsed.
- `src/decode.rs`: reading a merged document as config groups.
- `src/config.rs`: config groups, layouts, and loading the files found
  walking up from a project.
- `src/tmux.rs`: the tmux command lines that build a session.
- `src/launch.rs`: the launch as a state machine: config group, worktree,
  setup commands, session name, and what each process sees in its
  environment.
- `src/runner.rs`: running commands in order, stopping at the first failure.
- `src/git.rs`, `src/paths.rs`, `src/workspace.rs`, `src/prompts.rs`,
  `src/session.rs`, `src/text.rs`: git arguments and answers, paths, the
  workspace roots and project list, prompt answers, session names, and
  string helpers.
- `app/`: `main`, the prompts, and the processes and files.

Every public function states what it returns in its `ensures`; the
properties that span several functions are the `law_*` proof functions.
