# domainesia

An agent-friendly command line for MyDomaiNesia account and DNS workflows,
with its logic verified by Verus.

The library (`src/`) holds every decision the command line makes, each with a
contract: reading arguments and the `~/.domainesia/config.env` settings,
writing settings back, parsing the MyDomaiNesia pages (domains, the DNS
Management form, invoices, forms), the edits that `dns add`, `dns update` and
`dns delete` make, the safety gates of live writes, and every JSON report.
`app/` is the program around it: it reads the environment and files, runs
`curl`, `node` and the browser, writes backups and prints what the library
returns.

Modules:

- `text`, `escape`, `markup`, `number`: strings, JSON and form escaping,
  HTML text cleanup, decimal numbers.
- `cli`: options, flags, URLs and the configuration file (`Config`).
- `config_law`: settings written into the configuration file read back.
- `model`, `html`: DNS records, domains, forms and the page parsers.
- `dns`: records from the command line, the record edits and live-write gates.
- `account`, `pages`, `commands`: the reports and plans of every command.

Safety: DNS writes are dry runs unless `--live` is given; a live write also
needs `DOMAINESIA_ALLOW_LIVE_WRITES=1` and `--confirm <fqdn>` of the changed
record, and a backup of the DNS state is written first. Endpoint-driven login
and DNS add need `DOMAINESIA_ENABLE_EXPERIMENTAL_ENDPOINTS=1`.
