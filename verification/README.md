# nm_mailmover

A verified rule engine for moving notmuch-tagged mails into Maildir folders.

- `src/` is the library, verified with Verus: the configuration (`config`), the
  notmuch queries the rules become (`query`), the engine that applies the rules in
  the unique, first or all match mode (`engine`, with its model in `model` and its
  guarantees in `laws`), the assignment of files to folders (`actions`, `assign`),
  the destination of a moved file (`action`), the expansion of `~` and variables in
  configured paths (`expand`), the command-line values (`cli`), and
  the basic form of the mover without match modes or prefixes (`basic`).
- The repository of mails is a trait, `repo::MailRepo`; the engine states its result
  in terms of the answers the repository gave to the queries it asked.
- `app/` is the program around the library: argument parsing, reading YAML or Lua
  configuration files, the notmuch database, logging and moving the files.
- `tests/` runs the library on an in-memory repository.
