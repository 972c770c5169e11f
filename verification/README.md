# qkd_simulator

A discrete-event simulator of entanglement-based quantum key distribution, written in
Verus. The library under `src/` is verified; `app/` is the program around it (command
prompt, database, floating-point physics, the loop that waits on the event channel).

## Library modules

- `heap`, `event`, `event_loop`: the priority queue of events in simulated time, the
  handle that submits events (it keeps a ghost log of what it submitted), and one turn
  of the loop.
- `state`: the in-memory state (pairs, nodes, processes, detectors, links) and its view.
- `registry`: the handlers in service and the dispatch of an event to its handler.
- `handlers`: starting a key distribution, qubit arrivals, pair timeouts, dark counts,
  node and link creation.
- `measuring`: first and second measurements of a pair, and the eavesdropper.
- `postprocess`, `chsh`, `sifting`: the classical phase: the CHSH test (computed exactly
  over integers), cascade correction and packing of the key.
- `bignat`: natural numbers of any size, on which the CHSH threshold is decided.
- `scheduling`: the events of an emitted pair and the dark counts of a detector.
- `graph`: the network graph and the EPR node that two clients share.
- `basis`, `measurement`, `pair`, `node`, `command`, `qubit_ref`, `qubit`, `text`,
  `settings`, `error`: the data types and their small operations.

Each module states its contracts over spec functions; properties that span several
functions are proof functions whose names start with `law_`.

## Program

`app/main.rs` runs the prompt on a task and the event loop on the main thread. The
library receives from it, as plain values or closures: whether a second outcome is
correlated (a draw against a floating-point probability), how many dark counts a
detector sees (a Poisson sample), and nodes and links made in the database.
