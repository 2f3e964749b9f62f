# nuvix

The `nuvix` command line for Nuvix projects, with its logic in a library
verified by Verus.

- `src/` is the verified library. Each module states what it does in
  `requires`/`ensures` over spec functions and views:
  - `text`, `strmap`, `json`, `paths`: strings, a sorted string map, JSON
    values, and file-system paths as text;
  - `cli`, `config`, `global_config`, `state`, `client`: the command line,
    the project and global configuration, the CLI state, and what requests
    need from a profile;
  - `self_host`: the env file of a self-hosted deployment, its ports and
    secrets, and the deployments recorded in the project;
  - `schema`, `edit`, `payload`, `remote`, `sync`, `collections`, `prompt`:
    document-schema files, their validation and edits, request bodies, and
    what a push or pull does;
  - `migration`, `snapshot`, `database`: SQL migration files, their order and
    state, the schema snapshot, and the database URL;
  - `typegen`: generating types.
- `app/` is the program around it: argument parsing, files, prompts, HTTP,
  PostgreSQL and Docker.
- `tests/` runs the library on concrete inputs.
