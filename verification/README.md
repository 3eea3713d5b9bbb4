# hyper_rss

Peer-to-peer RSS on Hypercore, with its rules verified by [Verus](https://github.com/verus-lang/verus).

- `src/` is the verified library. A feed (`feed`) that keeps the order of insertion, a store of
  blobs by keys (`keyed_blobs`), and the peers that hold both and find each other (`peer`). Nothing
  in it reads or writes a store: an operation is a machine that asks for one thing at a time and is
  resumed with the reply (`step`).
- `src/*_laws.rs` state what the operations do together: that a stream gives the items in reverse
  order of insertion, that a broken entry is reported in its place and leaves the others as they
  are, that a blob that was put is what a get gives back if its id is not that of
  another blob, that a reader finds the keys of the writer once their entry has reached it.
- `app/` performs the requests with Hyperbee, Hyperblobs, Hypercore and Corestore, and turns JSON
  into values.
- `tests/` runs the library over stores in memory and over Hypercores in memory.

What is believed without proof is three functions and two error types: `base64url::encode` and
`base64url::decode` (the `data-encoding` crate), the check that 32 bytes are a public key (the
`hypercore` crate), and the errors of `serde_json` and `signature`, which are only carried.
