# claudio

`claudio` switches between configurations of a coding assistant's command-line tool with
workflow-focused presets: named recipes of environment variables, arguments, settings and
a prompt, kept as JSON files in `.claudio/presets/` of a project or of the user's home, or
inline in `.claudio/settings.json`.

The crate has two parts.

- `src/` is the library, verified with Verus: preset naming and lookup across scopes,
  settings precedence (project over user), `${VAR}` substitution, env values taken from
  other variables, files and commands (resolved entry by entry; the program is asked for
  each file read and command run), inheritance through `extends` (the nearest preset
  sets a variable, arguments of the base come first, settings are deep-merged), discovery
  of preset files, the listing, show, env, init, edit and add commands, the doctor report,
  and the shell quoting of dry runs and `export` lines. Every public function states what
  it returns in its `ensures`; the laws that relate several functions are public proof
  functions (`lemma_*`).
- `app/` is the program around it: command-line parsing, reading files, the environment
  and the home directory, running commands, colours, tables and JSON output.

`tests/` exercises the library on concrete values.
