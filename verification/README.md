# solana-block-cacher

A command-line tool that caches the blocks of a range of Solana slots to a JSON
file, as fast as a rate limit allows, and the verified library at its core.

- `src/` is the library, verified with Verus: the batching of a slot range over
  worker threads and the sequence numbers of the batches, the priority queue
  that hands batches to the writer in order, the writer's draining of ready
  batches and the layout of the JSON file, the rate limiter, the number of worker
  threads derived from the outcomes of sampled fetches (the timings themselves
  come from the network and the clock), and the checks on the command line.
- `app/` is the program around it: argument parsing, logging, the RPC client,
  the thread pool, waiting, and file output.
- `tests/` runs the library.
