# bitcoin-node

A tiny bitcoin node. It fetches block headers from a peer, checks their proof of work, keeps them
as a linked chain, then fetches the blocks in batches and hands them to
[libbitcoinkernel](https://github.com/bitcoin/bitcoin/issues/27587) through
[rust-bitcoinkernel](https://github.com/TheCharlatan/rust-bitcoinkernel).

The library under `src/` is verified with [Verus](https://github.com/verus-lang/verus). The
program around it, under `app/`, is ordinary Rust.

## The library

| module | what it holds |
| --- | --- |
| `network` | the networks that a user can choose, and what they stand for |
| `header`, `header_map` | block headers, and a map of them by hash |
| `consensus` | block hashes, proof of work and genesis blocks, from the `bitcoin` crate |
| `header_chain` | the chain of headers: checking, adding, listing, saving and loading |
| `message`, `wire` | the messages of the peer-to-peer protocol and their bytes |
| `p2p` | reading messages, the handshake, and where peers are found |
| `node` | the synchronisation state machine: headers first, then blocks in batches |
| `header_laws`, `p2p_laws`, `node_laws` | what holds across operations |
| `block` | blocks as text |
| `error`, `logging`, `bytes` | errors, log lines, numbers as bytes |

Nothing in the library performs input or output. The node says what it wants done (`Action`), and
the program does it and hands back the result. What the library takes from the `bitcoin` crate
without proof is marked `external_body`; each such function says what is believed of it.

Some functions cannot do their work on some inputs, such as a chain whose links lead to headers
that it does not hold. Their `requires` clauses say so, and beside them stand functions that test
it: `can_walk`, `prospect`, `admits`, `admits_block`.

## The program

run on regtest:

```
bitcoin-node --network regtest
```

There are two commands besides:

- `getblockcount` prints the height of the active chain
- `getblock 21` prints the block at a height
