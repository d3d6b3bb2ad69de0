//! The names of the log files in a data directory: `<id>.log`, where the id
//! is written in decimal.

use crate::decimal::{
    all_digits, chars_of, decimal, digit_value, digits_value, lemma_decimal_digits,
    lemma_digits_value_grows, push_decimal, value_of_digit,
};
use vstd::prelude::*;

verus! {

/// The extension of a log file's name.
pub open spec fn log_suffix() -> Seq<char> {
    seq!['.', 'l', 'o', 'g']
}

/// The name of the log file with the given id.
pub open spec fn log_file_name(id: u64) -> Seq<char> {
    decimal(id as nat) + log_suffix()
}

/// The id that a file name denotes, if it is the name of a log file: one or
/// more decimal digits, whose value fits in 64 bits, and then `.log`.
pub open spec fn log_id_of_name(name: Seq<char>) -> Option<u64> {
    let n = name.len() - 4;
    if n >= 1 && name.subrange(n, name.len() as int) == log_suffix() && all_digits(
        name.subrange(0, n),
    ) && digits_value(name.subrange(0, n)) <= u64::MAX {
        Some(digits_value(name.subrange(0, n)) as u64)
    } else {
        None
    }
}

/// The ids of the log files among the given file names, in the order of the
/// names.
pub open spec fn log_ids_among(names: Seq<String>) -> Seq<u64>
    decreases names.len(),
{
    if names.len() == 0 {
        Seq::empty()
    } else {
        let rest = log_ids_among(names.drop_last());
        match log_id_of_name(names.last()@) {
            Some(id) => rest.push(id),
            None => rest,
        }
    }
}

/// Whether the ids are in ascending order.
pub open spec fn ascending(ids: Seq<u64>) -> bool {
    forall|i: int, j: int| 0 <= i <= j < ids.len() ==> ids[i] <= ids[j]
}

/// The name of the log file with the given id: the id in decimal, then
/// `.log`.
pub fn log_file_of(id: u64) -> (name: String)
    ensures
        name@ == log_file_name(id),
{
    let mut name = String::new();
    push_decimal(&mut name, id);
    name.push('.');
    name.push('l');
    name.push('o');
    name.push('g');
    name
}

/// The id that a file name denotes, if it is the name of a log file.
///
/// A name is that of a log file when it is one or more decimal digits
/// followed by `.log` and the digits denote a number that fits in 64 bits.
/// Leading zeros are read as part of the number.
pub fn log_id_of(name: &str) -> (id: Option<u64>)
    ensures
        id == log_id_of_name(name@),
{
    let chars = chars_of(name);
    let len: usize = chars.len();
    if len < 5 {
        return None;
    }
    let n: usize = len - 4;
    if chars[n] != '.' || chars[n + 1] != 'l' || chars[n + 2] != 'o' || chars[n + 3] != 'g' {
        proof {
            let tail = name@.subrange(n as int, len as int);
            assert(tail[0] == name@[n as int]);
            assert(tail[1] == name@[n + 1]);
            assert(tail[2] == name@[n + 2]);
            assert(tail[3] == name@[n + 3]);
        }
        return None;
    }
    assert(name@.subrange(n as int, len as int) == log_suffix());
    let ghost digits = name@.subrange(0, n as int);
    let mut value: u64 = 0;
    let mut i: usize = 0;
    while i < n
        invariant
            0 <= i <= n,
            n + 4 == len,
            len == chars.len(),
            chars@ == name@,
            digits == name@.subrange(0, n as int),
            all_digits(digits.take(i as int)),
            value == digits_value(digits.take(i as int)),
        decreases n - i,
    {
        let ghost before = digits.take(i as int);
        let ghost after = digits.take(i + 1);
        proof {
            assert(after.drop_last() == before);
            assert(after.last() == chars@[i as int]);
        }
        let d = match value_of_digit(chars[i]) {
            Some(d) => d,
            None => {
                proof {
                    assert(digits[i as int] == chars@[i as int]);
                    assert(!all_digits(digits));
                }
                return None;
            },
        };
        proof {
            assert forall|j: int| 0 <= j < after.len() implies (#[trigger] digit_value(after[j]))
                is Some by {
                if j < i {
                    assert(after[j] == before[j]);
                }
            }
        }
        let next = match value.checked_mul(10) {
            Some(scaled) => scaled.checked_add(d),
            None => None,
        };
        match next {
            Some(v) => {
                value = v;
            },
            None => {
                proof {
                    assert(digits_value(after) > u64::MAX);
                    if all_digits(digits) {
                        lemma_digits_value_grows(digits, i + 1);
                    }
                }
                return None;
            },
        }
        i += 1;
    }
    assert(digits.take(n as int) == digits);
    Some(value)
}

/// Puts `id` into the ascending `ids`, after every id that is not greater.
fn insert_ascending(ids: &mut Vec<u64>, id: u64)
    requires
        ascending(old(ids)@),
    ensures
        ascending(final(ids)@),
        final(ids)@.to_multiset() == old(ids)@.to_multiset().insert(id),
{
    let mut at: usize = ids.len();
    while at > 0 && ids[at - 1] > id
        invariant
            at <= ids.len(),
            ids@ == old(ids)@,
            forall|k: int| at <= k < ids.len() ==> ids@[k] > id,
        decreases at,
    {
        at -= 1;
    }
    ids.insert(at, id);
    proof {
        let before = old(ids)@;
        let after = ids@;
        assert(after.remove(at as int) == before);
        vstd::seq_lib::to_multiset_remove(after, at as int);
        assert(after.to_multiset().count(id) > 0) by {
            assert(after[at as int] == id);
            after.to_multiset_ensures();
            assert(after.contains(id));
        }
        assert(after.to_multiset() =~= before.to_multiset().insert(id));
        assert forall|i: int, j: int| 0 <= i <= j < after.len() implies after[i] <= after[j] by {
            if i < at && j > at {
                assert(before[i] <= before[j - 1]);
            } else if i < at && j < at {
                assert(before[i] <= before[j]);
            } else if i > at {
                assert(before[i - 1] <= before[j - 1]);
            }
        }
    }
}

/// The ids of the log files among the given file names, in ascending order.
///
/// `names` are the names of the regular files of a data directory. A name
/// that is not `<digits>.log` is passed over. An id is listed once for each
/// name that denotes it.
pub fn list_log_file_in(names: &Vec<String>) -> (ids: Vec<u64>)
    ensures
        ascending(ids@),
        ids@.to_multiset() == log_ids_among(names@).to_multiset(),
{
    let mut ids: Vec<u64> = Vec::new();
    let mut i: usize = 0;
    while i < names.len()
        invariant
            0 <= i <= names.len(),
            ascending(ids@),
            ids@.to_multiset() == log_ids_among(names@.take(i as int)).to_multiset(),
        decreases names.len() - i,
    {
        proof {
            assert(names@.take(i + 1).drop_last() == names@.take(i as int));
            assert(names@.take(i + 1).last() == names@[i as int]);
        }
        match log_id_of(names[i].as_str()) {
            Some(id) => {
                insert_ascending(&mut ids, id);
                proof {
                    vstd::seq_lib::to_multiset_build(log_ids_among(names@.take(i as int)), id);
                }
            },
            None => {},
        }
        i += 1;
    }
    assert(names@.take(names.len() as int) == names@);
    ids
}

/// The name written for an id is read back as that id.
pub proof fn log_file_name_round_trip(id: u64)
    ensures
        log_id_of_name(log_file_name(id)) == Some(id),
{
    let digits = decimal(id as nat);
    let name = log_file_name(id);
    lemma_decimal_digits(id as nat);
    assert(name.subrange(0, digits.len() as int) == digits);
    assert(name.subrange(digits.len() as int, name.len() as int) == log_suffix());
}

} // verus!
