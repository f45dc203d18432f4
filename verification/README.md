# Aliaz

Aliaz keeps shell aliases in one place, writes them out for zsh, bash and fish, and synchronises
them between computers, encrypted with a key that only their owner has.

The library under `src/` is written in Verus. Every function states what it does, and Verus proves
that it does so:

- `model` says what is stored and what each operation does to it; `laws` says what follows, and
  `arrival` what reaches another computer;
- `store`, `rows` and `table` hold the collections and aliases, and list them;
- `migration` completes the tables of earlier versions;
- `sync`, `crypto`, `records` and `account` synchronise with a server;
- `shell`, `startup`, `parse` and `paths` deal with the shells and their files;
- `transfer`, `select`, `commands` and `release` are the rest of the commands;
- `outside` holds the calls into other crates, with what is taken for granted of each.

`app/` is the command line around it: arguments, the database file, the network, the terminal.
