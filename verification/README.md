# sdkwork_invoice

The invoice application API of SDKWork: owners list, read, create, submit,
cancel and update their invoices, and every write command carries an
idempotency key and a request hash that must match its payload.

The library (`src/`) is verified with Verus:

- `text` — character-level helpers (Unicode trimming, ASCII case, decimal
  text) with their specifications.
- `json` — a JSON value model and the canonical text that request hashes
  are computed over. `json_normal` proves that the canonical text depends
  only on a value's normal form (null-valued object members dropped and
  members ordered by key, at every depth); `json_laws` proves that a
  top-level object's canonical text ignores the order of its members when
  their keys are distinct; `json_parse` proves that the canonical text is a
  JSON text that reads back as the value's normal form.
- `command_headers` — the stable command request hash, the request header
  model and the validation of a write command against its payload.
- `invoice_api` — service records, response mapping, paging information and
  the problem that answers each service error.
- `routes` — what each route decides before the store is called, and the
  reply it makes of the store's answer.
- `repository` — the store's own logic: command timestamps and identifiers,
  cell normalisation, grouping of invoice lines by invoice (one non-empty
  group per invoice, in order of first appearance), and the step-by-step
  decisions of the write commands.
- `bootstrap` — the module's database baseline and the tables it creates.

`app/` is the unverified edge: the standalone gateway, the axum handlers,
the PostgreSQL store that runs the SQL and feeds the library's step
functions, and the serde and web-framework conversions (including the JSON
encoder's text of a requested total amount).
