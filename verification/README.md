# local_codex

The logic behind the desktop app's "local Codex" commands, verified with Verus:
reading the Codex CLI's `auth.json` and `config.toml`, expanding a ChatGPT login
into one account-import item per workspace, matching the app's stored accounts
against the current login, and writing a stored account back as the current
login.

- `src/` — the verified library. `json` models JSON values and objects;
  `text` holds trimming and string order; `order` a stable sort; `jwt` token
  payload decoding; `workspace`, `auth`, `import`, `accounts`, `switch`,
  `projects` and `paths` the logic of the commands, each function stated over
  a mathematical model, with the laws that relate them as proof functions.
- `app/` — the I/O around it: environment, files, the Codex state database,
  serde conversions, and the three command entry points, which take the app's
  account storage, token-claim readers and RPC client from the host.
- `tests/` — tests of the library on concrete values.
