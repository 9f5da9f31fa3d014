# zkEVM circuit gadgets

Verified building blocks of zkEVM circuits: expressions and lookups of the
Merkle-Patricia-trie circuit, and the gadget that ties the public key of a signed
transaction to its hash and to its Ethereum address.

The signature itself is checked by other chips. Their integers are copied into
limb columns, and the gadget ties these limbs to the bytes of the public key and
of the message hash.

A circuit is described twice. It is *configured*: columns are allocated, gates
and lookups are added. Then it is *assigned*: values are put into cells, region
by region. The library does both on its own data types, and its contracts say
which polynomials and which assignments come out. The laws say what these amount
to: which cells a lookup admits, that an honest assignment satisfies the circuit,
and what the circuit forces of any assignment.

## Layout

| module | what it holds |
| --- | --- |
| `sums` | little-endian numbers and random linear combinations of integers |
| `field` | the BN254 scalar field and the two secp256k1 fields |
| `plonk` | columns, expressions, gates, lookups, the constraint system |
| `algebra` | how polynomials evaluate, one operation at a time |
| `circuit` | cells, regions and the layouter |
| `rlc` | random linear combinations, as field elements and as expressions |
| `is_zero` | the gadget that tells whether a value is zero |
| `keccak` | the Keccak-256 digest |
| `helpers`, `helpers_laws` | the Merkle-Patricia-trie helpers, and what they amount to |
| `tx_circuit`, `tx_circuit_laws` | the signature gadget, and what it amounts to |

`app/` puts what the library configured and assigned into halo2 circuits, and
calls the chips that check an ECDSA signature inside a circuit.

Field arithmetic is that of `halo2curves`, and the digest that of `tiny-keccak`.
What is believed of them without proof stands in the contracts of the functions
marked `external_body` in `field` and `keccak`.
