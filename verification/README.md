# yapperd

The daemon behind Yapper, a Matrix chat that lives in a desktop bar, with its
logic verified in Verus.

The daemon owns the Matrix session and the sync loop and talks JSON lines over
a local Unix socket. Each line is a request; the daemon checks it, carries it
out through matrix-rust-sdk, and answers. In between it announces what happens:
messages, edits, reactions, receipts, typing, invites, verification steps.

## Layout

`src/` is the library. It does no I/O. Every function has a contract, and
Verus proves it.

| module | what it decides |
|---|---|
| `conn` | request lines and their limit, how many requests run at once |
| `dispatch` | what a request asks for, or why it is refused |
| `protocol` | requests, answers and events |
| `refusal` | every reason for a refusal, and its wording |
| `session` | sign-in, restore and retry, what is saved and when it is forgotten |
| `secrets` | where the tokens and the store's passphrase are kept |
| `events`, `message` | what an event of a room says, and how it is shown |
| `timeline`, `relations` | pages of history: edits, reactions, readers, threads |
| `rooms` | the room list, its order, members and their roles |
| `bridge` | which network a bridged room or user belongs to |
| `search` | which rooms are scanned, for how long, and what matches |
| `discovery` | the room directory, joining, direct chats, link previews |
| `media` | attachments: limits, cache names, types, recordings |
| `community` | the community space: its listing, joining it, cards, who may write |
| `verify` | device verification, recovery and key backup |
| `ids`, `json`, `text`, `case`, `order` | identifiers, JSON, text and sorting |

`app/` is the program: the socket, files, the keyring, the homeserver. It
gathers facts for the library and does what the library says.

`tests/` runs the library on concrete values.

## What is trusted

Calls into other crates stand behind small functions whose contracts Verus
takes as given: the reading of events, identifiers and Markdown (`matrix-sdk`'s
`ruma`), JSON (`serde_json`), image formats and sizes (`imagesize`), types and
extensions (`mime2ext`, `mime_guess`), random text (`rand`), letter case, hashing
and paths of the standard library. Each says in its comment what it claims of the call.
