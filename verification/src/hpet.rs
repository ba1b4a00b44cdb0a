use crate::utils::bytes::{le_u64, read_u64};
use vstd::prelude::*;

verus! {

/// The offset, in the data of the timer's description table, of the address
/// of its registers: behind the block id and the four bytes that describe
/// the address.
pub const ADDRESS_OFFSET: usize = 8;

/// The address of the timer's registers, from the data of its description
/// table. `None` where the data is cut short.
pub fn registers_address(data: &[u8]) -> (r: Option<u64>)
    ensures
        r is Some <==> data@.len() >= ADDRESS_OFFSET + 8,
        r matches Some(a) ==> a == le_u64(data@, ADDRESS_OFFSET as int),
{
    if data.len() < ADDRESS_OFFSET + 8 {
        return None;
    }
    Some(read_u64(data, ADDRESS_OFFSET))
}

/// The number of ticks of a counter with a period of `period` femtoseconds
/// that pass in `nano` nanoseconds.
pub open spec fn ticks(nano: u64, period: u32) -> int {
    nano * 1_000_000 / (period as int)
}

/// The value of the counter at which a sleep of `nano` nanoseconds that
/// starts at `now` ends.
pub fn deadline(now: u64, nano: u64, period: u32) -> (r: u64)
    requires
        period > 0,
        nano * 1_000_000 <= u64::MAX,
        now + ticks(nano, period) <= u64::MAX,
    ensures
        r == now + ticks(nano, period),
{
    let time: u64 = nano * 1_000_000 / (period as u64);
    now + time
}

/// Whether a sleep that ends at `target` is over when the counter reads
/// `counter`.
pub fn expired(counter: u64, target: u64) -> (r: bool)
    ensures
        r == (counter >= target),
{
    counter >= target
}

} // verus!
