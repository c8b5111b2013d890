//! The part of a list that a client asks for.
use vstd::prelude::*;

verus! {

/// A number of the client taken as an index: negative numbers wrap around to very large ones.
pub open spec fn as_index(i: i64) -> int {
    if i < 0 {
        i + 0x1_0000_0000_0000_0000
    } else {
        i as int
    }
}

/// Where the part starts: at the front unless said otherwise.
pub open spec fn page_start(start: Option<i64>) -> int {
    match start {
        Some(start) => as_index(start),
        None => 0,
    }
}

pub open spec fn at_most(a: int, b: int) -> int {
    if a <= b {
        a
    } else {
        b
    }
}

/// Where a part of `len` frames ends. Without a number of levels, and for no levels from the
/// front, that is the end of the list.
pub open spec fn frames_end(start: Option<i64>, levels: Option<i64>, len: int) -> int {
    match levels {
        Some(levels) => {
            let end = page_start(start) + as_index(levels);
            if end == 0 {
                len
            } else {
                at_most(end, len)
            }
        },
        None => len,
    }
}

/// Where a part of `len` variables ends. Without a count, and for a count of 0, that is the end
/// of the list.
pub open spec fn variables_end(start: Option<i64>, count: Option<i64>, len: int) -> int {
    match count {
        Some(count) => if count == 0 {
            len
        } else {
            at_most(page_start(start) + as_index(count), len)
        },
        None => len,
    }
}

/// Whether the sum of start and length can be formed.
pub open spec fn sum_fits(start: Option<i64>, length: Option<i64>) -> bool {
    match length {
        Some(length) => page_start(start) + as_index(length) <= u64::MAX,
        None => true,
    }
}

/// Whether the part of `len` frames that is asked for lies within the list.
pub open spec fn frames_fit(start: Option<i64>, levels: Option<i64>, len: int) -> bool {
    &&& sum_fits(start, levels)
    &&& page_start(start) <= frames_end(start, levels, len)
}

/// Whether the part of `len` variables that is asked for lies within the list.
pub open spec fn variables_fit(start: Option<i64>, count: Option<i64>, len: int) -> bool {
    &&& sum_fits(start, count)
    &&& page_start(start) <= variables_end(start, count, len)
}

fn to_index(i: i64) -> (r: u64)
    ensures
        r == as_index(i),
{
    assert(i < 0 ==> i as u64 == i + 0x1_0000_0000_0000_0000) by (bit_vector);
    i as u64
}

fn start_of(start: Option<i64>) -> (r: u64)
    ensures
        r == page_start(start),
{
    match start {
        Some(start) => to_index(start),
        None => 0,
    }
}

/// The part of `len` frames that is asked for, or `None` where it does not lie within the list.
pub fn frames_range(start: Option<i64>, levels: Option<i64>, len: usize) -> (r: Option<(usize, usize)>)
    ensures
        match r {
            Some((from, to)) => {
                &&& frames_fit(start, levels, len as int)
                &&& from == page_start(start)
                &&& to == frames_end(start, levels, len as int)
                &&& from <= to <= len
            },
            None => !frames_fit(start, levels, len as int),
        },
{
    let from: u64 = start_of(start);
    let to: u64 = match levels {
        None => len as u64,
        Some(levels) => match from.checked_add(to_index(levels)) {
            None => {
                return None;
            },
            Some(end) => if end == 0 || end > len as u64 {
                len as u64
            } else {
                end
            },
        },
    };
    if from <= to {
        Some((from as usize, to as usize))
    } else {
        None
    }
}

/// The part of `len` variables that is asked for, or `None` where it does not lie within the
/// list.
pub fn variables_range(start: Option<i64>, count: Option<i64>, len: usize) -> (r: Option<
    (usize, usize),
>)
    ensures
        match r {
            Some((from, to)) => {
                &&& variables_fit(start, count, len as int)
                &&& from == page_start(start)
                &&& to == variables_end(start, count, len as int)
                &&& from <= to <= len
            },
            None => !variables_fit(start, count, len as int),
        },
{
    let from: u64 = start_of(start);
    let to: u64 = match count {
        None => len as u64,
        Some(count) => match from.checked_add(to_index(count)) {
            None => {
                return None;
            },
            Some(end) => if count == 0 || end > len as u64 {
                len as u64
            } else {
                end
            },
        },
    };
    if from <= to {
        Some((from as usize, to as usize))
    } else {
        None
    }
}

} // verus!
