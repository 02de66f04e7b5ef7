//! Swap volumes of a pool, in 256 bits so that they never wrap.
use crate::errors::ExchangeError;
use crate::u256::{u256_max, U256};
use crate::utils::SwapVolume;
use vstd::hash_map::HashMapWithView;
use vstd::prelude::*;

verus! {

/// Volume of swaps on one token, in 256 bits.
#[derive(Clone, Copy, Debug)]
pub struct SwapVolumeU256 {
    pub input: U256,
    pub output: U256,
}

/// Volume of swaps on one token, as decimal text.
pub struct SwapVolumeU256View {
    pub input: String,
    pub output: String,
}

impl SwapVolumeU256 {
    /// No volume.
    pub fn default_volume() -> (r: SwapVolumeU256)
        ensures
            r.input@ == 0 && r.output@ == 0,
    {
        SwapVolumeU256 { input: U256::zero(), output: U256::zero() }
    }

    /// The same volume, widened.
    pub fn from_volume(sv: &SwapVolume) -> (r: SwapVolumeU256)
        ensures
            r.input@ == sv.input && r.output@ == sv.output,
    {
        SwapVolumeU256 { input: U256::from_u128(sv.input), output: U256::from_u128(sv.output) }
    }
}

/// The 256-bit volumes of pool `pool_id` as recorded in `store` (keyed by the pool id cut to
/// 32 bits), or else the pool's 128-bit volumes widened.
pub fn internal_get_swap_volume_u256_vec_or_default(
    store: &HashMapWithView<u32, Vec<SwapVolumeU256>>,
    pool_id: u64,
    svs: &Vec<SwapVolume>,
) -> (r: Vec<SwapVolumeU256>)
    ensures
        store@.contains_key(pool_id as u32) ==> r@ == store@[pool_id as u32]@,
        !store@.contains_key(pool_id as u32) ==> r.len() == svs.len(),
        !store@.contains_key(pool_id as u32) ==> forall|i: int| #![trigger r@[i]] 0 <= i < svs.len() ==> r@[i].input@ == svs@[i].input && r@[i].output@ == svs@[i].output,
{
    match store.get(&(pool_id as u32)) {
        Some(v) => {
            let r = v.clone();
            assert(r@ =~= v@);
            return r;
        },
        None => {},
    }
    let mut out: Vec<SwapVolumeU256> = Vec::new();
    let mut i: usize = 0;
    while i < svs.len()
        invariant
            i <= svs.len(),
            out.len() == i,
            forall|j: int| 0 <= j < i ==> #[trigger] out@[j].input@ == svs@[j].input && out@[j].output@ == svs@[j].output,
        decreases svs.len() - i,
    {
        out.push(SwapVolumeU256::from_volume(&svs[i]));
        i = i + 1;
    }
    let r = out;
    assert(forall|j: int| #![trigger r@[j]] 0 <= j < svs.len() ==> r@[j].input@ == svs@[j].input && r@[j].output@ == svs@[j].output);
    r
}

/// Records the 256-bit volumes of pool `pool_id`, keyed by its id cut to 32 bits.
pub fn internal_set_swap_volume_u256_vec(
    store: &mut HashMapWithView<u32, Vec<SwapVolumeU256>>,
    pool_id: u64,
    sv_u256s: Vec<SwapVolumeU256>,
)
    ensures
        final(store)@ == old(store)@.insert(pool_id as u32, sv_u256s),
{
    store.insert(pool_id as u32, sv_u256s);
}

/// Adds a swap to the volumes of pool `pool_id`: `amount_in` to the input volume of one
/// token and `amount_out` to the output volume of the other. Refused where a sum would
/// exceed 256 bits, the input first, naming the pool, the entry and which volume.
pub fn internal_update_swap_volume_u256_vec(
    store: &mut HashMapWithView<u32, Vec<SwapVolumeU256>>,
    pool_id: u64,
    update_input_idx: usize,
    update_output_idx: usize,
    amount_in: u128,
    amount_out: u128,
    sv_u256s: Vec<SwapVolumeU256>,
) -> (r: Result<(), ExchangeError>)
    requires
        update_input_idx < sv_u256s.len(),
        update_output_idx < sv_u256s.len(),
    ensures
        r is Ok <==> sv_u256s@[update_input_idx as int].input@ + amount_in <= u256_max() && sv_u256s@[update_output_idx as int].output@ + amount_out <= u256_max(),
        sv_u256s@[update_input_idx as int].input@ + amount_in > u256_max()
            ==> r == Err::<(), ExchangeError>(ExchangeError::VolumeOverflow { pool_id, index: update_input_idx as u64, input: true }),
        sv_u256s@[update_input_idx as int].input@ + amount_in <= u256_max() && sv_u256s@[update_output_idx as int].output@ + amount_out > u256_max()
            ==> r == Err::<(), ExchangeError>(ExchangeError::VolumeOverflow { pool_id, index: update_output_idx as u64, input: false }),
        r is Err ==> final(store)@ == old(store)@,
        r is Ok ==> final(store)@.contains_key(pool_id as u32) && final(store)@ == old(store)@.insert(pool_id as u32, final(store)@[pool_id as u32]),
        r is Ok ==> {
            let v = final(store)@[pool_id as u32];
            &&& v.len() == sv_u256s.len()
            &&& forall|i: int| 0 <= i < v.len() ==> #[trigger] v@[i].input@ == sv_u256s@[i].input@ + (if i == update_input_idx { amount_in as nat } else { 0 })
            &&& forall|i: int| 0 <= i < v.len() ==> #[trigger] v@[i].output@ == sv_u256s@[i].output@ + (if i == update_output_idx { amount_out as nat } else { 0 })
        },
{
    let mut sv = sv_u256s;
    let cur_in = sv[update_input_idx];
    let new_input = match cur_in.input.checked_add(&U256::from_u128(amount_in)) {
        Some(v) => v,
        None => {
            return Err(ExchangeError::VolumeOverflow { pool_id, index: update_input_idx as u64, input: true });
        },
    };
    let cur_out = sv[update_output_idx];
    let new_output = match cur_out.output.checked_add(&U256::from_u128(amount_out)) {
        Some(v) => v,
        None => {
            return Err(ExchangeError::VolumeOverflow { pool_id, index: update_output_idx as u64, input: false });
        },
    };
    sv.set(update_input_idx, SwapVolumeU256 { input: new_input, output: cur_in.output });
    let mid = sv[update_output_idx];
    sv.set(update_output_idx, SwapVolumeU256 { input: mid.input, output: new_output });
    internal_set_swap_volume_u256_vec(store, pool_id, sv);
    Ok(())
}

} // verus!
