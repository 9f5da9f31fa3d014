//! What the steps of the assignment do, step by step and cell by cell.
use crate::circuit::{AssignedLimb, CellView, EventView, RegionView};
use crate::field::{BaseExt, FieldExt};
use crate::is_zero::inverse_or_zero;
use crate::plonk::{indices, Grid};
use crate::sums::{ints, le_bytes, rlc};
use crate::tx_circuit::{
    all_known, assigned_regions, byte_events, copy_events, keccak_events, keccak_region,
    keccak_row, keccak_values, known_limbs, pub_key_bytes, signature_events, AssignedSignature,
    KeccakAux, SignVerifyConfig, TxSignData,
};
use crate::tx_circuit_laws::law_copied;
use vstd::prelude::*;

verus! {

/// The limbs that are copied are those before the first one without a value; all
/// are copied exactly if each has a value.
pub proof fn law_known_limbs<F>(limbs: Seq<AssignedLimb<F>>)
    ensures
        0 <= known_limbs(limbs) <= limbs.len(),
        forall|i: int| 0 <= i < known_limbs(limbs) ==> (#[trigger] limbs[i]).value is Some,
        known_limbs(limbs) < limbs.len() ==> limbs[known_limbs(limbs)].value is None,
        known_limbs(limbs) == limbs.len() <==> forall|i: int|
            0 <= i < limbs.len() ==> (#[trigger] limbs[i]).value is Some,
    decreases limbs.len(),
{
    if limbs.len() > 0 {
        let before = limbs.drop_last();
        law_known_limbs(before);
        let n = known_limbs(limbs);
        assert forall|i: int| 0 <= i < n implies (#[trigger] limbs[i]).value is Some by {
            if i < before.len() {
                assert(before[i] == limbs[i]);
            }
        }
        if n < limbs.len() {
            assert(limbs[n].value is None) by {
                if n < before.len() {
                    assert(before[n] == limbs[n]);
                }
            }
        }
    }
}

/// The values of all limbs are known exactly if each limb of the three integers has
/// one.
pub proof fn law_all_known<F>(signature: AssignedSignature<F>)
    ensures
        all_known(signature) <==> {
            &&& forall|i: int|
                0 <= i < signature.pk_x.limbs.len() ==> (
                #[trigger] signature.pk_x.limbs@[i]).value is Some
            &&& forall|i: int|
                0 <= i < signature.pk_y.limbs.len() ==> (
                #[trigger] signature.pk_y.limbs@[i]).value is Some
            &&& forall|i: int|
                0 <= i < signature.msg_hash.limbs.len() ==> (
                #[trigger] signature.msg_hash.limbs@[i]).value is Some
        },
{
    law_known_limbs(signature.pk_x.limbs@);
    law_known_limbs(signature.pk_y.limbs@);
    law_known_limbs(signature.msg_hash.limbs@);
}

/// Each byte is assigned to its own column, all at one offset.
pub proof fn law_byte_steps(bytes: Seq<u8>, dst: Seq<int>, offset: int, p: int)
    ensures
        byte_events(bytes, dst, offset, p).len() == bytes.len(),
        forall|i: int|
            0 <= i < bytes.len() ==> #[trigger] byte_events(bytes, dst, offset, p)[i] == (
            EventView::AssignAdvice { column: dst[i], offset, value: bytes[i] as int % p }),
{
}

/// The steps of the keccak table: four for the row of zeros, and four for each
/// input, which go to the row behind those of the inputs before it.
proof fn lemma_keccak_steps(
    table: Seq<int>,
    auxs: Seq<KeccakAux>,
    randomness: int,
    p: int,
)
    ensures
        keccak_events(table, auxs, randomness, p).len() == 4 * (auxs.len() + 1),
        forall|k: int|
            0 <= k < 4 ==> #[trigger] keccak_events(table, auxs, randomness, p)[k] == (
            EventView::AssignAdvice { column: table[k], offset: 0, value: 0 }),
        forall|i: int|
            0 <= i < auxs.len() ==> {
                let events = keccak_events(table, auxs, randomness, p);
                &&& events[4 * i + 4] == (EventView::AssignAdvice {
                    column: table[0],
                    offset: i + 1,
                    value: 1,
                })
                &&& events[4 * i + 5] == (EventView::AssignAdvice {
                    column: table[1],
                    offset: i + 1,
                    value: rlc(ints((#[trigger] auxs[i]).input@), randomness) % p,
                })
                &&& events[4 * i + 6] == (EventView::AssignAdvice {
                    column: table[2],
                    offset: i + 1,
                    value: 64int % p,
                })
                &&& events[4 * i + 7] == (EventView::AssignAdvice {
                    column: table[3],
                    offset: i + 1,
                    value: rlc(ints(auxs[i].output@), randomness) % p,
                })
            },
    decreases auxs.len(),
{
    let events = keccak_events(table, auxs, randomness, p);
    if auxs.len() == 0 {
        let zeros = seq![0int, 0, 0, 0];
        assert(forall|k: int| 0 <= k < 4 ==> #[trigger] zeros[k] == 0);
        assert(events == keccak_row(table, 0, zeros));
    } else {
        let before = auxs.drop_last();
        let first = keccak_events(table, before, randomness, p);
        lemma_keccak_steps(table, before, randomness, p);
        let held = keccak_values(auxs.last().input@, auxs.last().output@, randomness, p);
        assert(events == first + keccak_row(table, auxs.len() as int, held));
        assert forall|k: int| 0 <= k < 4 implies #[trigger] events[k] == (EventView::AssignAdvice {
            column: table[k],
            offset: 0,
            value: 0,
        }) by {
            assert(events[k] == first[k]);
        }
        assert forall|i: int| 0 <= i < auxs.len() implies {
            &&& events[4 * i + 4] == (EventView::AssignAdvice {
                column: table[0],
                offset: i + 1,
                value: 1,
            })
            &&& events[4 * i + 5] == (EventView::AssignAdvice {
                column: table[1],
                offset: i + 1,
                value: rlc(ints((#[trigger] auxs[i]).input@), randomness) % p,
            })
            &&& events[4 * i + 6] == (EventView::AssignAdvice {
                column: table[2],
                offset: i + 1,
                value: 64int % p,
            })
            &&& events[4 * i + 7] == (EventView::AssignAdvice {
                column: table[3],
                offset: i + 1,
                value: rlc(ints(auxs[i].output@), randomness) % p,
            })
        } by {
            if i < before.len() {
                assert(before[i] == auxs[i]);
            }
        }
    }
}

/// What `load_keccak` adds, for any number of inputs: a region behind the others,
/// named "keccak table", with four steps for the row of zeros and four for each
/// input.
pub proof fn law_keccak_region(
    regions: Seq<RegionView>,
    table: Seq<int>,
    auxs: Seq<KeccakAux>,
    randomness: int,
    p: int,
)
    ensures
        ({
            let region = keccak_region(regions, table, auxs, randomness, p);
            &&& region.index == regions.len()
            &&& region.name == "keccak table"@
            &&& region.events.len() == 4 * (auxs.len() + 1)
            &&& forall|k: int|
                0 <= k < 4 ==> #[trigger] region.events[k] == (EventView::AssignAdvice {
                    column: table[k],
                    offset: 0,
                    value: 0,
                })
            &&& forall|i: int|
                0 <= i < auxs.len() ==> {
                    &&& region.events[4 * i + 4] == (EventView::AssignAdvice {
                        column: table[0],
                        offset: i + 1,
                        value: 1,
                    })
                    &&& region.events[4 * i + 5] == (EventView::AssignAdvice {
                        column: table[1],
                        offset: i + 1,
                        value: rlc(ints((#[trigger] auxs[i]).input@), randomness) % p,
                    })
                    &&& region.events[4 * i + 6] == (EventView::AssignAdvice {
                        column: table[2],
                        offset: i + 1,
                        value: 64int % p,
                    })
                    &&& region.events[4 * i + 7] == (EventView::AssignAdvice {
                        column: table[3],
                        offset: i + 1,
                        value: rlc(ints(auxs[i].output@), randomness) % p,
                    })
                }
        }),
{
    lemma_keccak_steps(table, auxs, randomness, p);
    let region = keccak_region(regions, table, auxs, randomness, p);
    assert(region.events =~= keccak_events(table, auxs, randomness, p));
}

/// The keccak table that `load_keccak` adds, wherever it is placed: zeros in its
/// first row, and then for every input a row with one, the combined bytes of the
/// input, 64, and the combined bytes of the digest.
pub proof fn law_keccak_cells(
    regions: Seq<RegionView>,
    table: Seq<int>,
    auxs: Seq<KeccakAux>,
    randomness: int,
    p: int,
    grid: Grid,
    start: int,
    i: int,
)
    requires
        keccak_region(regions, table, auxs, randomness, p).placed(grid, start),
        0 <= i < auxs.len(),
    ensures
        forall|k: int| 0 <= k < 4 ==> (grid.advice)(#[trigger] table[k], start) == 0,
        (grid.advice)(table[0], start + 1 + i) == 1,
        (grid.advice)(table[1], start + 1 + i) == rlc(ints(auxs[i].input@), randomness) % p,
        (grid.advice)(table[2], start + 1 + i) == 64int % p,
        (grid.advice)(table[3], start + 1 + i) == rlc(ints(auxs[i].output@), randomness) % p,
{
    let events = keccak_region(regions, table, auxs, randomness, p).events;
    law_keccak_region(regions, table, auxs, randomness, p);
    assert(start + 1 + i == start + (i + 1));
    assert forall|k: int| 0 <= k < 4 implies (grid.advice)(#[trigger] table[k], start) == 0 by {
        assert(events[k].placed(grid, start));
        assert(start + 0 == start);
    }
    assert(auxs[i].input@ == auxs[i].input@);
    assert(events[4 * i + 4].placed(grid, start));
    assert(events[4 * i + 5].placed(grid, start));
    assert(events[4 * i + 6].placed(grid, start));
    assert(events[4 * i + 7].placed(grid, start));
}

/// There are two steps for each limb that is copied.
proof fn lemma_copy_len<F: FieldExt>(
    limbs: Seq<AssignedLimb<F>>,
    dst: Seq<int>,
    offset: int,
    region_index: int,
)
    ensures
        copy_events(limbs, dst, offset, region_index).len() == 2 * limbs.len(),
    decreases limbs.len(),
{
    if limbs.len() > 0 {
        lemma_copy_len(limbs.drop_last(), dst, offset, region_index);
    }
}

/// The first steps for the row of a signature copy the limbs of the three integers
/// of the signature check: limb `i` of each is assigned to column `i` of its four,
/// and that cell is constrained to equal the cell of the signature check.
pub proof fn law_signature_copies<F: FieldExt>(
    config: SignVerifyConfig<F>,
    signature: AssignedSignature<F>,
    tx: TxSignData,
    pub_key_hash: Seq<u8>,
    region_index: int,
    randomness: int,
    i: int,
)
    requires
        0 <= i < 4,
        signature.pk_x.limbs.len() <= 4,
        signature.pk_y.limbs.len() <= 4,
        signature.msg_hash.limbs.len() <= 4,
    ensures
        ({
            let events = signature_events(
                config,
                signature,
                tx,
                pub_key_hash,
                region_index,
                randomness,
            );
            let nx = signature.pk_x.limbs.len();
            let ny = signature.pk_y.limbs.len();
            &&& i < signature.pk_x.limbs.len() ==> {
                &&& events[2 * i] == (EventView::AssignAdvice {
                    column: config.pk_x_limbs@[i].index as int,
                    offset: 0,
                    value: signature.pk_x.limbs@[i].value->0.value(),
                })
                &&& events[2 * i + 1] == (EventView::ConstrainEqual {
                    left: CellView {
                        region_index,
                        row_offset: 0,
                        column: config.pk_x_limbs@[i].index as int,
                    },
                    right: CellView {
                        region_index: signature.pk_x.limbs@[i].cell.region_index as int,
                        row_offset: signature.pk_x.limbs@[i].cell.row_offset as int,
                        column: signature.pk_x.limbs@[i].cell.column.index as int,
                    },
                })
            }
            &&& i < signature.pk_y.limbs.len() ==> {
                &&& events[2 * nx + 2 * i] == (EventView::AssignAdvice {
                    column: config.pk_y_limbs@[i].index as int,
                    offset: 0,
                    value: signature.pk_y.limbs@[i].value->0.value(),
                })
                &&& events[2 * nx + 2 * i + 1] == (EventView::ConstrainEqual {
                    left: CellView {
                        region_index,
                        row_offset: 0,
                        column: config.pk_y_limbs@[i].index as int,
                    },
                    right: CellView {
                        region_index: signature.pk_y.limbs@[i].cell.region_index as int,
                        row_offset: signature.pk_y.limbs@[i].cell.row_offset as int,
                        column: signature.pk_y.limbs@[i].cell.column.index as int,
                    },
                })
            }
            &&& i < signature.msg_hash.limbs.len() ==> {
                &&& events[2 * nx + 2 * ny + 2 * i] == (EventView::AssignAdvice {
                    column: config.msg_hash_limbs@[i].index as int,
                    offset: 0,
                    value: signature.msg_hash.limbs@[i].value->0.value(),
                })
                &&& events[2 * nx + 2 * ny + 2 * i + 1] == (EventView::ConstrainEqual {
                    left: CellView {
                        region_index,
                        row_offset: 0,
                        column: config.msg_hash_limbs@[i].index as int,
                    },
                    right: CellView {
                        region_index: signature.msg_hash.limbs@[i].cell.region_index as int,
                        row_offset: signature.msg_hash.limbs@[i].cell.row_offset as int,
                        column: signature.msg_hash.limbs@[i].cell.column.index as int,
                    },
                })
            }
        }),
{
    let events = signature_events(
        config,
        signature,
        tx,
        pub_key_hash,
        region_index,
        randomness,
    );
    let x_limbs = copy_events(
        signature.pk_x.limbs@,
        indices(config.pk_x_limbs@),
        0,
        region_index,
    );
    let y_limbs = copy_events(
        signature.pk_y.limbs@,
        indices(config.pk_y_limbs@),
        0,
        region_index,
    );
    let h_limbs = copy_events(
        signature.msg_hash.limbs@,
        indices(config.msg_hash_limbs@),
        0,
        region_index,
    );
    lemma_copy_len(signature.pk_x.limbs@, indices(config.pk_x_limbs@), 0, region_index);
    lemma_copy_len(signature.pk_y.limbs@, indices(config.pk_y_limbs@), 0, region_index);
    lemma_copy_len(signature.msg_hash.limbs@, indices(config.msg_hash_limbs@), 0, region_index);
    let nx = signature.pk_x.limbs.len();
    let ny = signature.pk_y.limbs.len();
    if i < nx {
        law_copied(signature.pk_x.limbs@, indices(config.pk_x_limbs@), 0, region_index, i);
        assert(events[2 * i] == x_limbs[2 * i]);
        assert(events[2 * i + 1] == x_limbs[2 * i + 1]);
    }
    if i < ny {
        law_copied(signature.pk_y.limbs@, indices(config.pk_y_limbs@), 0, region_index, i);
        assert(events[2 * nx + 2 * i] == y_limbs[2 * i]);
        assert(events[2 * nx + 2 * i + 1] == y_limbs[2 * i + 1]);
    }
    if i < signature.msg_hash.limbs.len() {
        law_copied(signature.msg_hash.limbs@, indices(config.msg_hash_limbs@), 0, region_index, i);
        assert(events[2 * nx + 2 * ny + 2 * i] == h_limbs[2 * i]);
        assert(events[2 * nx + 2 * ny + 2 * i + 1] == h_limbs[2 * i + 1]);
    }
}

/// The other steps for the row of a signature, and that there are no more: the
/// selector is switched on; the combined message hash and its inverse, the bytes of
/// the public key, its hash, the address and the bytes of the message hash are
/// assigned, each to its column.
pub proof fn law_signature_cells<F: FieldExt>(
    config: SignVerifyConfig<F>,
    signature: AssignedSignature<F>,
    tx: TxSignData,
    pub_key_hash: Seq<u8>,
    region_index: int,
    randomness: int,
    i: int,
)
    requires
        0 <= i < 32,
        pub_key_hash.len() == 32,
    ensures
        ({
            let events = signature_events(
                config,
                signature,
                tx,
                pub_key_hash,
                region_index,
                randomness,
            );
            let p = F::modulus();
            let base = 2 * (signature.pk_x.limbs.len() + signature.pk_y.limbs.len()
                + signature.msg_hash.limbs.len());
            let combined = rlc(ints(le_bytes(tx.msg_hash.value(), 32)), randomness) % p;
            &&& events.len() == base + 132
            &&& events[base + 0] == (EventView::EnableSelector {
                selector: config.q_enable.index as int,
                simple: config.q_enable.simple,
                offset: 0,
            })
            &&& events[base + 1] == (EventView::AssignAdvice {
                column: config.msg_hash_rlc.index as int,
                offset: 0,
                value: combined,
            })
            &&& events[base + 2] == (EventView::AssignAdvice {
                column: config.msg_hash_rlc_is_zero.value_inv.index as int,
                offset: 0,
                value: inverse_or_zero(combined, p),
            })
            &&& events[base + 3 + i] == (EventView::AssignAdvice {
                column: config.pub_key@[i].index as int,
                offset: 0,
                value: le_bytes(tx.pub_key.x.value(), 32)[i] as int % p,
            })
            &&& events[base + 35 + i] == (EventView::AssignAdvice {
                column: config.pub_key@[32 + i].index as int,
                offset: 0,
                value: le_bytes(tx.pub_key.y.value(), 32)[i] as int % p,
            })
            &&& events[base + 67 + i] == (EventView::AssignAdvice {
                column: config.pub_key_hash@[i].index as int,
                offset: 0,
                value: pub_key_hash[i] as int % p,
            })
            &&& events[base + 99] == (EventView::AssignAdvice {
                column: config.address.index as int,
                offset: 0,
                value: rlc(ints(pub_key_hash.subrange(12, 32).reverse()), 256) % p,
            })
            &&& events[base + 100 + i] == (EventView::AssignAdvice {
                column: config.msg_hash@[i].index as int,
                offset: 0,
                value: le_bytes(tx.msg_hash.value(), 32)[i] as int % p,
            })
        }),
{
    let x_limbs = copy_events(
        signature.pk_x.limbs@,
        indices(config.pk_x_limbs@),
        0,
        region_index,
    );
    let y_limbs = copy_events(
        signature.pk_y.limbs@,
        indices(config.pk_y_limbs@),
        0,
        region_index,
    );
    let h_limbs = copy_events(
        signature.msg_hash.limbs@,
        indices(config.msg_hash_limbs@),
        0,
        region_index,
    );
    lemma_copy_len(signature.pk_x.limbs@, indices(config.pk_x_limbs@), 0, region_index);
    lemma_copy_len(signature.pk_y.limbs@, indices(config.pk_y_limbs@), 0, region_index);
    lemma_copy_len(signature.msg_hash.limbs@, indices(config.msg_hash_limbs@), 0, region_index);
}

/// The copy constraints link the row of a signature to the signature check. In any
/// grid that obeys the copy constraints of the region, with region `k` at row
/// `starts[k]`, each limb column holds what the cell of the signature check does.
pub proof fn law_limbs_linked<F: FieldExt>(
    config: SignVerifyConfig<F>,
    signature: AssignedSignature<F>,
    tx: TxSignData,
    pub_key_hash: Seq<u8>,
    region_index: int,
    randomness: int,
    grid: Grid,
    starts: Seq<int>,
    i: int,
)
    requires
        0 <= i < 4,
        signature.pk_x.limbs.len() <= 4,
        signature.pk_y.limbs.len() <= 4,
        signature.msg_hash.limbs.len() <= 4,
        pub_key_hash.len() == 32,
        forall|k: int|
            0 <= k < signature_events(
                config,
                signature,
                tx,
                pub_key_hash,
                region_index,
                randomness,
            ).len() ==> (match #[trigger] signature_events(
                config,
                signature,
                tx,
                pub_key_hash,
                region_index,
                randomness,
            )[k] {
                EventView::ConstrainEqual { left, right } => (grid.advice)(
                    left.column,
                    starts[left.region_index] + left.row_offset,
                ) == (grid.advice)(right.column, starts[right.region_index] + right.row_offset),
                _ => true,
            }),
    ensures
        i < signature.pk_x.limbs.len() ==> (grid.advice)(
            config.pk_x_limbs@[i].index as int,
            starts[region_index],
        ) == (grid.advice)(
            signature.pk_x.limbs@[i].cell.column.index as int,
            starts[signature.pk_x.limbs@[i].cell.region_index as int]
                + signature.pk_x.limbs@[i].cell.row_offset,
        ),
        i < signature.pk_y.limbs.len() ==> (grid.advice)(
            config.pk_y_limbs@[i].index as int,
            starts[region_index],
        ) == (grid.advice)(
            signature.pk_y.limbs@[i].cell.column.index as int,
            starts[signature.pk_y.limbs@[i].cell.region_index as int]
                + signature.pk_y.limbs@[i].cell.row_offset,
        ),
        i < signature.msg_hash.limbs.len() ==> (grid.advice)(
            config.msg_hash_limbs@[i].index as int,
            starts[region_index],
        ) == (grid.advice)(
            signature.msg_hash.limbs@[i].cell.column.index as int,
            starts[signature.msg_hash.limbs@[i].cell.region_index as int]
                + signature.msg_hash.limbs@[i].cell.row_offset,
        ),
{
    let events = signature_events(
        config,
        signature,
        tx,
        pub_key_hash,
        region_index,
        randomness,
    );
    let nx = signature.pk_x.limbs.len();
    let ny = signature.pk_y.limbs.len();
    let nh = signature.msg_hash.limbs.len();
    law_signature_cells(config, signature, tx, pub_key_hash, region_index, randomness, 0);
    law_signature_copies(config, signature, tx, pub_key_hash, region_index, randomness, i);
    assert(starts[region_index] + 0 == starts[region_index]);
    if i < nx {
        assert(events[2 * i + 1] is ConstrainEqual);
    }
    if i < ny {
        assert(events[2 * nx + 2 * i + 1] is ConstrainEqual);
    }
    if i < nh {
        assert(events[2 * nx + 2 * ny + 2 * i + 1] is ConstrainEqual);
    }
}

/// What `assign` adds: three regions behind the others, which stay as they were.
/// The first has no step here, the second has those for the row of the signature,
/// and the third is the keccak table for the one public key and its hash.
pub proof fn law_assigned_regions<F: FieldExt>(
    config: SignVerifyConfig<F>,
    signature: AssignedSignature<F>,
    tx: TxSignData,
    pub_key_hash: Seq<u8>,
    randomness: int,
    regions: Seq<RegionView>,
)
    ensures
        ({
            let added = assigned_regions(
                config,
                signature,
                tx,
                pub_key_hash,
                randomness,
                regions,
            );
            let n = regions.len() as int;
            let p = F::modulus();
            &&& added.len() == n + 3
            &&& forall|k: int| 0 <= k < n ==> #[trigger] added[k] == regions[k]
            &&& added[n].index == n
            &&& added[n].name == "assign aux values"@
            &&& added[n].events.len() == 0
            &&& added[n + 1].index == n + 1
            &&& added[n + 1].name == "signature verify + ecdsa chip verification witness"@
            &&& added[n + 1].events == signature_events(
                config,
                signature,
                tx,
                pub_key_hash,
                n + 1,
                randomness,
            )
            &&& added[n + 2].index == n + 2
            &&& added[n + 2].name == "keccak table"@
            &&& added[n + 2].events.len() == 8
            &&& forall|k: int|
                0 <= k < 4 ==> #[trigger] added[n + 2].events[k] == (EventView::AssignAdvice {
                    column: config.keccak_table@[k].index as int,
                    offset: 0,
                    value: 0,
                })
            &&& added[n + 2].events[4] == (EventView::AssignAdvice {
                column: config.keccak_table@[0].index as int,
                offset: 1,
                value: 1,
            })
            &&& added[n + 2].events[5] == (EventView::AssignAdvice {
                column: config.keccak_table@[1].index as int,
                offset: 1,
                value: rlc(ints(pub_key_bytes(tx.pub_key)), randomness) % p,
            })
            &&& added[n + 2].events[6] == (EventView::AssignAdvice {
                column: config.keccak_table@[2].index as int,
                offset: 1,
                value: 64int % p,
            })
            &&& added[n + 2].events[7] == (EventView::AssignAdvice {
                column: config.keccak_table@[3].index as int,
                offset: 1,
                value: rlc(ints(pub_key_hash), randomness) % p,
            })
        }),
{
    let added = assigned_regions(config, signature, tx, pub_key_hash, randomness, regions);
    let n = regions.len() as int;
    let steps = signature_events(config, signature, tx, pub_key_hash, n + 1, randomness);
    assert(added[n + 1].events =~= steps);
    let table = indices(config.keccak_table@);
    let zeros = seq![0int, 0, 0, 0];
    assert(forall|k: int| 0 <= k < 4 ==> #[trigger] zeros[k] == 0);
    let held = keccak_values(
        pub_key_bytes(tx.pub_key),
        pub_key_hash,
        randomness,
        F::modulus(),
    );
    assert(added[n + 2].events =~= keccak_row(table, 0, zeros) + keccak_row(table, 1, held));
}

} // verus!
