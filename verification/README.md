# celld

The decisions of a `celld` node, verified with Verus.

A node runs cells, each with a SQLite database of its own, and keeps a log of
every database in a bucket. The library decides what may be done and what is
true afterwards; `app/` does it.

| module | what it decides |
| --- | --- |
| `cell` | which scopes name a cell |
| `output_gate` | when an output may leave that reveals a cell's state |
| `repl` | activation, sync passes, fleet rounds, bundles, compaction, eviction, closing |
| `ltx` | checksums and base pointers of logs; a child's log chained to its parent's |
| `branch` | branches and imports of databases |
| `r2` | objects of a branched binding over those of its parent; `celld r2` |
| `fetch` | which outbound requests leave, loop back or are refused |
| `images` | transforms of pictures |
| `machine` | random names, processor ticks, memory limits |
| `table`, `text`, `json` | ordered tables, text, JSON objects |

Contracts speak of strings as sequences of characters, of tables as maps and of
a cell as its counters. Properties that span several functions are public proof
functions whose names begin with `law_`.

What the library takes from other crates stands behind functions marked
`external_body`, one for each call: URLs (`url`), pictures (`image`), JSON text
(`serde_json`) and random bytes (`rand`). Each says in its comment what is
believed of the call.
