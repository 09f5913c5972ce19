# backup

Daily maintenance of a development machine: git repositories are repacked, and
caches, build artifacts and leftovers are cleaned.

`src/` is the library. It is written in Verus: each function states in its
contract what it returns, and is proved to do so, given the contracts of what it
calls outside. Those are taken on trust:

- `sizes`: how `humansize` writes a number of bytes
- `document`: how `toml` reads a document, and what it finds at a key
- `bytes`: how the standard library decodes UTF-8
- `text`: that `String::push` appends a character

It decides what is deleted,
which programs are run and with which arguments, what their output means, and
which lines are shown. It does no I/O of its own.

- `text`, `split`, `search`, `number`, `order`, `path`, `sorting`, `counting`:
  text, numbers, paths and lists
- `natural`, `binary64`, `sizes`: sizes read and written
- `bytes`, `document`: output of programs, and TOML documents
- `ui`, `ansi`: details in columns, colours and trees
- `config`, `walk`, `process`: settings, directory walks, programs to run
- `commands`: one module for each command, and what they share
  (`executor`, `cleaner`, `listing`)

`app/` is the program around it: the command line, the configuration file,
progress bars, and everything that touches the disk or starts a program.

Properties that span functions stand beside them as proof functions whose
names begin with `law_`.

Two things are left out:

- The apps that `clean-electron-caches` cleans by default are seven of the eight
  on its documented list. The one before Brave is missing, and its caches stay
  unless it is given by `--app` or in the configuration.
- The steps `clean-node`, `clean-cocoapods` and `clean-cypress` have no command.
  A run of all steps skips them with a warning.
