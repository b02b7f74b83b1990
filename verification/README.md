# openfang-channels

Discord as a channel for agents: messages in and out, interactive components, slash commands,
streamed answers and conversation by voice, and the formatting of messages for Discord, Telegram,
Slack and plain text.

The library in `src/` is verified with Verus. It does no input or output. Each function says in its
contract what it returns, over mathematical models of the data: texts are sequences of characters,
JSON values are trees, the session with the gateway is a value that every payload takes to the next
one together with a list of actions.

| Module | What it holds |
| --- | --- |
| `formatter`, `discord_markdown`, `emphasis`, `literal` | Markdown in each channel's markup |
| `parse` | messages, commands, interactions and forms from Discord |
| `gateway`, `registry` | the session with the gateway: handshake, heartbeat, resuming, events |
| `rich`, `components`, `discord_types` | embeds, action rows, layouts and their fallbacks |
| `requests`, `commands`, `send`, `adapter` | requests to the REST interface |
| `stream` | server-sent events and the message that follows an answer |
| `voice`, `speech` | voice connections, recordings, WAV files, what is asked and said |
| `json`, `text`, `types` | what the others are built of |

What holds of the library as a whole stands in public proof functions: in `formatter_laws`,
`plain_laws`, `discord_laws`, `gateway_laws` and `voice_laws`, in `emphasis`, and at the end of
`components`, `requests`, `rich` and `stream`.

The calls into other crates are wrapped: reading and writing JSON text (`json`), times (`parse`),
concurrent maps (`registry`), holding the token (`adapter`), decoding bytes (`stream`). Their contracts
are trusted; each says what is claimed of the call.

`app/` holds the network, processes and files around the library. How a long text is split into
messages is the bridge's affair: the adapter is given a function for it.
