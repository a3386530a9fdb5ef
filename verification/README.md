# starstream_interleaving

Checks that an execution of interleaved Starstream coroutines follows the protocol: a
coordinator loads UTXOs, calls their methods, creates new ones and exports what is left. An
execution is a trace of steps. The library replays it, turns every step into a row of an
arithmetic relation over the Goldilocks field, and checks the rows one by one or in batches:
the equations of each row, what one row hands on to the next, the memories that the rows share,
and what the transaction states about its inputs, its outputs and its event commitments.

`src/` is verified with Verus. What a check accepts is stated twice, and the two are proved
equal: as the equations and memory accesses that it evaluates (`relation`, `batch`, `memory`,
`verify`), and as the protocol that a trace keeps, step by step (`legality`, `protocol`). The
files that end in `_laws` hold what follows from these for whole traces.

| Modules | What they hold |
| --- | --- |
| `trace`, `events`, `opcode` | steps and statements, the events that they emit |
| `step`, `method_table`, `ivc_state`, `compression` | the replay of a trace |
| `layout`, `groups`, `ccs`, `transaction`, `commitment`, `range_check`, `relation` | columns and equations |
| `witness`, `assignment` | the row of a step |
| `memory`, `batch`, `batching`, `memory_batching` | shared memories, batches of rows |
| `verify`, `statement`, `claim` | the checks |
| `quint`, `text` | replay through the Quint model, up to running it |
| `legality`, `acceptance`, `protocol` | what is accepted |
| `*_laws` | what holds of accepted traces |
| `field`, `prime`, `bounds`, `record_bounds`, `sizes`, `soundness`, `selection`, `exactness`, `*_rules`, `*_memory` | arithmetic and proofs |

The function that extends an event chain by a block is a parameter: any total function of the
chain and the block will do.

`app/` holds what needs the outside world: serialised traces, errors that print, and the run of
the Quint command line.
