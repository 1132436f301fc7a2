//! Helpers for files named by number, and for archive names of unknown
//! encoding.
use vstd::prelude::*;

use encoding::all::WINDOWS_949;
use encoding::{DecoderTrap, Encoding};
use vstd::utf8::{decode_utf8, valid_utf8};

use crate::text::{parse_u32, parsed_u32};

verus! {

/// The stem of a path's file name: the name without its final extension.
pub uninterp spec fn file_stem_of(path: Seq<char>) -> Option<Seq<char>>;

/// Relies on std's `Path::file_stem`; the stem of a path given as UTF-8 text
/// is UTF-8 text too, so `OsStr::to_str` keeps it whole.
#[verifier::external_body]
fn file_stem(path: &str) -> (r: Option<String>)
    ensures
        r.deep_view() == file_stem_of(path@),
{
    std::path::Path::new(path).file_stem().and_then(|s| s.to_str()).map(String::from)
}

/// The number a path's file stem reads as, if it reads as one.
pub open spec fn stem_number(path: Seq<char>) -> Option<u32> {
    match file_stem_of(path) {
        Some(s) => parsed_u32(s),
        None => None,
    }
}

/// The number each path's file stem reads as; none when a stem does not read
/// as a number.
pub fn name_order_keys(paths: &Vec<String>) -> (r: Option<Vec<u32>>)
    ensures
        match r {
            Some(keys) => keys@.len() == paths@.len() && forall|i: int|
                0 <= i < paths@.len() ==> stem_number((#[trigger] paths@[i])@) == Some(keys@[i]),
            None => exists|i: int| 0 <= i < paths@.len() && (#[trigger] stem_number(paths@[i]@)) is None,
        },
{
    let mut keys: Vec<u32> = Vec::new();
    let mut i: usize = 0;
    while i < paths.len()
        invariant
            i <= paths@.len(),
            keys@.len() == i,
            forall|k: int| 0 <= k < i ==> stem_number((#[trigger] paths@[k])@) == Some(keys@[k]),
        decreases paths@.len() - i,
    {
        let n = match file_stem(paths[i].as_str()) {
            Some(stem) => parse_u32(stem.as_str()),
            None => None,
        };
        match n {
            Some(k) => keys.push(k),
            None => {
                assert(stem_number(paths@[i as int]@) is None);
                return None;
            },
        }
        i = i + 1;
    }
    Some(keys)
}

/// The keys are in ascending order.
pub open spec fn keys_ascending(keys: Seq<u32>) -> bool {
    forall|i: int, j: int| 0 <= i < j < keys.len() ==> keys[i] <= keys[j]
}

/// Key `k` and item `s` stand at one place of `keys` and `items`.
pub open spec fn is_keyed(k: u32, s: String, keys: Seq<u32>, items: Seq<String>) -> bool {
    exists|j: int| 0 <= j < keys.len() && keys[j] == k && items[j] == s
}

/// The place at which `k` goes into ascending keys, after every key not
/// above it.
fn insert_position(keys: &Vec<u32>, k: u32) -> (j: usize)
    ensures
        j <= keys@.len(),
        forall|m: int| j <= m < keys@.len() ==> keys@[m] > k,
        j > 0 ==> keys@[j - 1] <= k,
{
    let mut j: usize = keys.len();
    while j > 0 && keys[j - 1] > k
        invariant
            j <= keys@.len(),
            forall|m: int| j <= m < keys@.len() ==> keys@[m] > k,
        decreases j,
    {
        j = j - 1;
    }
    j
}

/// The items in ascending order of their keys, where `keys[i]` is the key of
/// `items[i]`; the order among items of equal keys is left open. Hands back
/// the keys in their new order too.
pub fn sort_by_keys(keys: Vec<u32>, items: Vec<String>) -> (r: (Vec<u32>, Vec<String>))
    requires
        keys@.len() == items@.len(),
    ensures
        r.0@.len() == r.1@.len() == items@.len(),
        keys_ascending(r.0@),
        r.1@.to_multiset() == items@.to_multiset(),
        forall|m: int| 0 <= m < r.1@.len() ==> is_keyed(r.0@[m], #[trigger] r.1@[m], keys@, items@),
{
    let ghost kv = keys@;
    let ghost iv = items@;
    let n = keys.len();
    let mut keys = keys;
    let mut items = items;
    let mut sk: Vec<u32> = Vec::new();
    let mut si: Vec<String> = Vec::new();
    let mut i: usize = 0;
    assert(si@ =~= iv.subrange(0, 0));
    while i < n
        invariant
            n == kv.len() == iv.len(),
            i <= n,
            keys@ == kv.subrange(i as int, n as int),
            items@ == iv.subrange(i as int, n as int),
            sk@.len() == si@.len() == i,
            keys_ascending(sk@),
            si@.to_multiset() == iv.subrange(0, i as int).to_multiset(),
            forall|m: int| 0 <= m < si@.len() ==> is_keyed(sk@[m], #[trigger] si@[m], kv, iv),
        decreases n - i,
    {
        let k = keys.remove(0);
        let it = items.remove(0);
        assert(k == kv[i as int] && it == iv[i as int]);
        assert(keys@ =~= kv.subrange(i + 1, n as int));
        assert(items@ =~= iv.subrange(i + 1, n as int));
        let j = insert_position(&sk, k);
        let ghost sk0 = sk@;
        let ghost si0 = si@;
        sk.insert(j, k);
        si.insert(j, it);
        assert(sk@ == sk0.insert(j as int, k));
        assert(si@ == si0.insert(j as int, it));
        assert forall|a: int, b: int| 0 <= a < b < sk@.len() implies sk@[a] <= sk@[b] by {
            if b < j {
            } else if b == j {
                if a < j - 1 {
                    assert(sk0[a] <= sk0[j - 1]);
                }
            } else if a < j {
                if a < j - 1 {
                    assert(sk0[a] <= sk0[j - 1]);
                }
            } else if a == j {
            } else {
                assert(sk0[a - 1] <= sk0[b - 1]);
            }
        }
        assert forall|m: int| 0 <= m < si@.len() implies is_keyed(sk@[m], #[trigger] si@[m], kv, iv) by {
            if m < j {
                assert(si@[m] == si0[m]);
                assert(is_keyed(sk0[m], si0[m], kv, iv));
            } else if m == j {
                assert(kv[i as int] == sk@[m] && iv[i as int] == si@[m]);
            } else {
                assert(si@[m] == si0[m - 1]);
                assert(is_keyed(sk0[m - 1], si0[m - 1], kv, iv));
            }
        }
        proof {
            vstd::seq_lib::to_multiset_insert(si0, j as int, it);
            let pre = iv.subrange(0, i as int);
            assert(iv.subrange(0, i + 1) =~= pre.push(it));
            vstd::seq_lib::to_multiset_build(pre, it);
        }
        i = i + 1;
    }
    assert(iv.subrange(0, n as int) =~= iv);
    (sk, si)
}

/// Paths in ascending order of the number that their file stems read as.
pub open spec fn sorted_by_stem_number(r: Seq<String>, paths: Seq<String>) -> bool {
    &&& r.len() == paths.len()
    &&& r.to_multiset() == paths.to_multiset()
    &&& forall|i: int, j: int|
        0 <= i < j < r.len() ==> stem_number(r[i]@)->0 <= stem_number(r[j]@)->0
}

/// Sorts paths by the number that their file stems read as. Every stem must
/// read as a number.
pub fn sort_by_name_order(paths: Vec<String>) -> (r: Vec<String>)
    requires
        forall|i: int| 0 <= i < paths@.len() ==> (#[trigger] stem_number(paths@[i]@)) is Some,
    ensures
        sorted_by_stem_number(r@, paths@),
{
    let keys = match name_order_keys(&paths) {
        Some(k) => k,
        None => {
            return paths;
        },
    };
    let ghost kv = keys@;
    let ghost pv = paths@;
    let (sk, si) = sort_by_keys(keys, paths);
    assert forall|m: int| 0 <= m < si@.len() implies stem_number((#[trigger] si@[m])@) == Some(
        sk@[m],
    ) by {
        assert(is_keyed(sk@[m], si@[m], kv, pv));
        let j = choose|j: int| 0 <= j < kv.len() && kv[j] == sk@[m] && pv[j] == si@[m];
        assert(stem_number(pv[j]@) == Some(kv[j]));
    }
    assert forall|a: int, b: int| 0 <= a < b < si@.len() implies stem_number(si@[a]@)->0
        <= stem_number(si@[b]@)->0 by {
        assert(stem_number(si@[a]@) == Some(sk@[a]));
        assert(stem_number(si@[b]@) == Some(sk@[b]));
    }
    si
}

/// Sorts paths by the number that their file stems read as; none when a stem
/// does not read as a number.
pub fn try_sort_by_name_order(paths: Vec<String>) -> (r: Option<Vec<String>>)
    ensures
        match r {
            Some(s) => sorted_by_stem_number(s@, paths@),
            None => exists|i: int| 0 <= i < paths@.len() && (#[trigger] stem_number(paths@[i]@)) is None,
        },
{
    match name_order_keys(&paths) {
        Some(_) => Some(sort_by_name_order(paths)),
        None => None,
    }
}

/// The text that bytes decode to as Windows-949 (the Korean code page), when
/// they are valid in it.
pub uninterp spec fn windows_949_text(b: Seq<u8>) -> Option<Seq<char>>;

/// Relies on encoding's `WINDOWS_949.decode` with `DecoderTrap::Strict`,
/// which fails on bytes that are not valid in the code page.
#[verifier::external_body]
fn decode_windows_949(b: &[u8]) -> (r: Option<String>)
    ensures
        r.deep_view() == windows_949_text(b@),
{
    WINDOWS_949.decode(b, DecoderTrap::Strict).ok()
}

/// The text that bytes decode to as UTF-8, invalid sequences replaced.
pub uninterp spec fn lossy_utf8_text(b: Seq<u8>) -> Seq<char>;

/// Relies on std's `String::from_utf8_lossy`, which decodes valid UTF-8 as it
/// is.
#[verifier::external_body]
fn decode_utf8_lossy(b: &[u8]) -> (r: String)
    ensures
        r@ == lossy_utf8_text(b@),
        valid_utf8(b@) ==> r@ == decode_utf8(b@),
{
    String::from_utf8_lossy(b).into_owned()
}

/// Decodes a name as Windows-949, the encoding that Korean archive tools
/// write, and else as UTF-8 with invalid sequences replaced.
pub fn try_windows_949(s: &[u8]) -> (r: String)
    ensures
        r@ == match windows_949_text(s@) {
            Some(t) => t,
            None => lossy_utf8_text(s@),
        },
{
    match decode_windows_949(s) {
        Some(t) => t,
        None => decode_utf8_lossy(s),
    }
}

} // verus!
