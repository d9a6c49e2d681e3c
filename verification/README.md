# strom_storage

The storage model and engine rules of StromDB, a durable streams database whose only
source of truth is an object store. The rules are written in Verus: every executable
function in `src/` carries a contract, and Verus proves it.

A partition is a sequence of *Seals* (manifests, one per generation), a log of *RUNs*
and *FENCEs* at consecutive batch coordinates, and the immutable *tables* that Seals
name. One writer holds a partition at a time: it claims the next Seal generation,
places a FENCE in the log, replays the log behind the newest Seal, and from then on
acknowledges a command only when the RUN that carries it is durable. A checkpoint
writes the resident state to tables and publishes a Seal that names them; a collection
removes what that Seal made unnecessary.

- `src/domain/`: coordinates, identities, key spellings, manifests, log objects and
  tables, and how each of them is archived. Encoding and decoding are proved inverse on
  every valid object.
- `src/engine/`: what the engine decides. The resident forest and its strict fold,
  admission, the writer's state and the order of its decisions, the bootstrap machine,
  checkpoint preparation, what a Seal's tables store, collection, and how evidence from
  the object store is read.
- `tests/`: the library on concrete values, including whole runs of a partition over an
  object store held in memory.
- `app/`: the async engine around the library: object store calls, tasks, channels and
  timers.

What is believed rather than proved is marked `external_body` or
`assume_specification`, with a comment that names the outside function: rkyv archives,
postcard numbers and texts, CRC-32C, shared byte strings, persistent ordered maps, UTF-8
validation and a few items of the standard library.

Which stream paths and content types are acceptable is the protocol's business: callers
pass a `grammar`, and contracts speak of whatever it decides.
