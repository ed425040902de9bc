# mail_mcp

A mail server for agents: it lists, searches, reads and sends mail over IMAP and
SMTP, and offers that as tools over stdio.

`src/` is the verified library. It decides what to ask the servers for and what
their replies amount to; it does no I/O. Where something has to be fetched, read,
run or delivered on the way, a function takes what is known so far and answers
with the next step:

- `text`, `path`, `html`, `json`, `names`: strings, paths, readable HTML, JSON
  values and an ordered map, on which the rest is built.
- `mime`, `email`, `attachment`: a parsed message, what is shown of it, and its
  attachments.
- `mailbox`, `report`: listing, searching, reading and downloading, step by step,
  and the answers written as JSON.
- `secret`, `config`, `cli`: secrets, accounts, the configuration file and the
  command line.
- `compose`, `send`, `reply`: messages that go out.
- `schema`, `tools`: the input schemas and the tools.

Functions named `law_...` are proofs of what holds of the library as a whole.
The functions marked `external_body` call `mailparse`, `lettre`, `mime_guess`,
`serde_json`, `schemars` and the standard library; their contracts are believed,
and the comment above each says what it claims.

`app/` is the program around the library: sockets, files, processes, the protocol
and the command line parser. `tests/` runs the library.
