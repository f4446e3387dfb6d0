# ecal-mcp

A local MCP server and command line for looking at an Eclipse eCAL network: which topics,
services, processes and hosts are there, what is wrong with a topic, what flows on it.

`src/` is the verified library. It decides everything that can be decided on plain values:

- `monitoring`, `entries`, `listing`, `hosts`, `logs`: rows, filters and rollups of a snapshot.
- `survey`, `findings`, `drops`, `similar`, `suggest`, `checks`, `diagnose`: the diagnosis of a topic.
- `measure`: what a live window adds up to.
- `payload`, `publish`, `subscribe`, `service`: sending, receiving and calling.
- `json`, `cli`: the command line, its arguments and the manifest of tools.
- `server`: the tools and the state between calls.
- `harness`: the peers of the end-to-end tests.
- `text`, `codec`, `sort`, `seqs`: what the others rest on.

`app/` is the program: eCAL itself, the MCP transport, JSON schemas and floating point.

Contracts speak of outside crates through a few names: `sha256`, `base64_form`,
`base64_reading`, `json_reading` and their like stand for what `sha2`, `base64` and `serde_json`
compute. What is assumed of each is written above the function that makes the call.
