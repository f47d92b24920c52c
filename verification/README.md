# cln_tracker

A Core Lightning plugin that tracks checksummed output descriptors through
bwatch, keeps what it finds in the node's datastore, and tells Bookkeeper of
deposits and spends once they have the confirmation depth that was asked for.

`src/` is the library: what is accepted and refused, how far a descriptor is
watched, what a match, a block and a reverted block change, which calls follow,
what is stored before anything is done, and what is shown. Every function states
in its contract what it returns, and Verus proves it. `src/laws.rs` states what
holds of the library as a whole; laws on one part stand in its own module.

The descriptors themselves are read and derived by `miniscript`, transactions
and blocks by `bitcoin`, behind small trusted functions in `src/descriptor.rs`
and `src/cln.rs`. Their doc comments say what is believed of them.

`app/` is the plugin around the library: the connection to the node, the serde
forms of what is stored, and the loop that performs the calls. `tests/` runs the
library on concrete values.
