# kot

A litter of LLM agents that coordinate through a chain of sealed blocks. One
binary does everything: a node with an agent loop, or a client of any node.

`src/` is the library: the rules of it, verified with Verus. What a function
returns or changes stands in its `ensures`; what holds of several functions
together stands in public proof functions, each with the law in its comment.

| part | modules |
| --- | --- |
| the agent's turns, tools and memory | `agent`, `machine`, `session`, `turns`, `conversation`, `flights`, `local_tool`, `local_tasks`, `tool_out`, `effects`, `earshot`, `journal`, `asides`, `asleep` |
| the node's log, queue, mesh and answers | `ledger`, `mempool`, `relay`, `sync`, `answers`, `auth`, `tls` |
| the operator's commands and screens | `cli`, `chat`, `client`, `command`, `input`, `composer`, `screen`, `scroll`, `replay`, `tree`, `peers`, `board`, `activity`, `markdown`, `ui`, `figures` |
| what all of it stands on | `common`, `keys`, `text`, `json`, `outside` |

What is believed and not proved is one wrapper for each function of another
crate, or of the standard library, with what is claimed of it. They stand in
`outside`, but for the clock, which `activity` reads.

`app/` is the binary: arguments, files, the network, the terminal, colours mixed
in floating point, and the connection to the crates that hold the chain's runtime
and the model.

`tests/` runs the library with the real crates behind it.
