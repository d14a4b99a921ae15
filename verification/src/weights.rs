//! The baseline weights of the move ranks: how often a move of each rank
//! was played in a large sample of games.

use std::collections::HashMap;
use vstd::prelude::*;

verus! {

/// How often a move of rank 0, 1, 2, ... was played in the sample.
pub const LICHESS_WEIGHTS: [u64; 256] = [
    225_883_932, 134_956_126, 89_041_269, 69_386_238,
    57_040_790, 44_974_559, 36_547_155, 31_624_920,
    28_432_772, 26_540_493, 24_484_873, 23_058_034,
    23_535_272, 20_482_457, 20_450_172, 18_316_057,
    17_214_833, 16_964_761, 16_530_028, 15_369_510,
    14_178_440, 14_275_714, 13_353_306, 12_829_602,
    13_102_592, 11_932_647, 10_608_657, 10_142_459,
    8_294_594, 7_337_490, 6_337_744, 5_380_717,
    4_560_556, 3_913_313, 3_038_767, 2_480_514,
    1_951_026, 1_521_451, 1_183_252, 938_708,
    673_339, 513_153, 377_299, 276_996,
    199_682, 144_602, 103_313, 73046,
    52339, 36779, 26341, 18719,
    13225, 9392, 6945, 4893,
    3698, 2763, 2114, 1631,
    1380, 1090, 887, 715,
    590, 549, 477, 388,
    351, 319, 262, 236,
    200, 210, 153, 117,
    121, 121, 115, 95,
    75, 67, 55, 50,
    55, 33, 33, 30,
    32, 28, 29, 27,
    21, 15, 9, 10,
    12, 12, 8, 7,
    2, 4, 5, 5,
    0, 5, 1, 1,
    0, 1, 2, 1,
    1, 0, 0, 1,
    0, 0, 0, 0,
    0, 0, 0, 0,
    0, 0, 0, 0,
    0, 0, 0, 0,
    0, 0, 0, 0,
    0, 0, 0, 0,
    0, 0, 0, 0,
    0, 0, 0, 0,
    0, 0, 0, 0,
    0, 0, 0, 0,
    0, 0, 0, 0,
    0, 0, 0, 0,
    0, 0, 0, 0,
    0, 0, 0, 0,
    0, 0, 0, 0,
    0, 0, 0, 0,
    0, 0, 0, 0,
    0, 0, 0, 0,
    0, 0, 0, 0,
    0, 0, 0, 0,
    0, 0, 0, 0,
    0, 0, 0, 0,
    0, 0, 0, 0,
    0, 0, 0, 0,
    0, 0, 0, 0,
    0, 0, 0, 0,
    0, 0, 0, 0,
    0, 0, 0, 0,
    0, 0, 0, 0,
    0, 0, 0, 0,
    0, 0, 0, 0,
    0, 0, 0, 0,
    0, 0, 0, 0,
    0, 0, 0, 0,
    0, 0, 0, 0,
];

/// The baseline weight table: every rank from 0 to 255 with its weight.
pub open spec fn baseline_weights() -> Map<u8, u64> {
    Map::new(|k: u8| true, |k: u8| LICHESS_WEIGHTS[k as int])
}

/// A weight table gives a weight to every rank from 0 to 255.
pub open spec fn is_weight_table(weights: Map<u8, u64>) -> bool {
    forall|k: u8| weights.contains_key(k)
}

/// The baseline weight table.
pub fn get_lichess_hashmap() -> (weights: HashMap<u8, u64>)
    ensures
        weights@ == baseline_weights(),
        is_weight_table(weights@),
{
    broadcast use vstd::std_specs::hash::group_hash_axioms;

    let mut weights: HashMap<u8, u64> = HashMap::new();
    let mut i: usize = 0;
    while i < 256
        invariant
            i <= 256,
            forall|k: u8| weights@.contains_key(k) <==> k < i,
            forall|k: u8| k < i ==> weights@[k] == LICHESS_WEIGHTS[k as int],
        decreases 256 - i,
    {
        weights.insert(i as u8, LICHESS_WEIGHTS[i]);
        i = i + 1;
    }
    assert(weights@ =~= baseline_weights());
    weights
}

} // verus!
