# retrieve_state

Retrieval of a chain's blocks and of its global state from the nodes of a network.

`src/` is the library, written in Verus. It decides what is requested, stored and retried, and when
the retrieval ends, and proves it against its contracts:

- `requests`: the calls that go out to a node, and how a block that the node does not know is told
  apart from other errors;
- `walk`: the walk from the highest block down to genesis, through storage or the network;
- `block_download`: the download of a block with its transfers and deploys;
- `blocks` and `storing`: which writes store a block with its deploys, and in which order;
- `tries` and `sync_state`: the tries that wait for their children, and the queue of jobs;
- `worker`: what a worker of a trie download does next;
- `peers` and `throughput`: the choice of peers, the start of a download, and the count of bytes.

What holds of a retrieval as a whole is stated and proved in modules of their own:

- `walk_run` and `chain_run`: of a walk, and of the blocks that it leaves in storage;
- `queue_run`: of the queue of jobs, over any sequence of calls;
- `sync_run`, `workers_run` and `store_run`: of a trie download, of its workers, and of the tries
  that it leaves in the store;
- `end_run`: that a trie download comes to an end.

`app/` performs those decisions: HTTP, LMDB, tasks and timers. A failed action is handed back to the
library like any other outcome. The rate in the throughput report is floating point and is computed
there too.

Besides the crates in `Cargo.toml`, `app/` needs `casper-node`, whose types it converts to those of
the library. It is not listed there because it brings in several hundred packages that neither the
library nor its tests have any use for; a build of `app/` has to add it.

`tests/` runs the library on concrete values.
