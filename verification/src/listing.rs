//! The namespace enumerator: decodes scanned raw keys, silently dropping
//! the ones that do not decode, and deduplicates by identifier.

use vstd::prelude::*;

use crate::codec::{decode_spec, Key};

verus! {

/// `a` and `b` name the same task identifier.
pub open spec fn same_ident(a: Key, b: Key) -> bool {
    a.token@ == b.token@ && a.key@ == b.key@
}

/// `k` is the identifier decoded from the raw key `s`.
pub open spec fn decodes_to(s: Seq<char>, k: Key) -> bool {
    match decode_spec(s) {
        Ok((token, key, _field)) => k.token@ == token && k.key@ == key,
        Err(_) => false,
    }
}

/// Some raw key in `raws` decodes to `k`.
pub open spec fn decoded_in(raws: Seq<String>, k: Key) -> bool {
    exists|j: int| 0 <= j < raws.len() && decodes_to(#[trigger] raws[j]@, k)
}

/// The identifier `(token, key)` appears in `r`.
pub open spec fn ident_listed(r: Seq<Key>, token: Seq<char>, key: Seq<char>) -> bool {
    exists|i: int| 0 <= i < r.len() && (#[trigger] r[i]).token@ == token && r[i].key@ == key
}

/// Is `k`'s identifier already in `v`?
fn contains_ident(v: &Vec<Key>, k: &Key) -> (r: bool)
    ensures
        r == exists|i: int| 0 <= i < v@.len() && same_ident(#[trigger] v@[i], *k),
{
    let n = v.len();
    let mut i: usize = 0;
    while i < n
        invariant
            n == v@.len(),
            0 <= i <= n,
            forall|j: int| 0 <= j < i ==> !same_ident(#[trigger] v@[j], *k),
        decreases n - i,
    {
        if &v[i] == k {
            return true;
        }
        i += 1;
    }
    false
}

/// Turns the raw keys of one prefix scan into the distinct task identifiers
/// under it. A raw key that does not decode (foreign or malformed) is
/// silently dropped — enumeration is best-effort over a live, shared
/// keyspace — and the up-to-three field keys of one task collapse into one
/// entry. Output order is unspecified to callers.
pub fn collect_tasks(raws: &Vec<String>) -> (r: Vec<Key>)
    ensures
        raws@.len() == 0 ==> r@.len() == 0,
        forall|a: int, b: int| 0 <= a < b < r@.len() ==> !same_ident(#[trigger] r@[a], #[trigger] r@[b]),
        forall|a: int| 0 <= a < r@.len() ==> decoded_in(raws@, #[trigger] r@[a]) && r@[a].wf(),
        forall|j: int|
            0 <= j < raws@.len() ==> match decode_spec(#[trigger] raws@[j]@) {
                Ok((token, key, _field)) => ident_listed(r@, token, key),
                Err(_) => true,
            },
{
    let n = raws.len();
    let mut r: Vec<Key> = Vec::new();
    let mut i: usize = 0;
    while i < n
        invariant
            n == raws@.len(),
            0 <= i <= n,
            i == 0 ==> r@.len() == 0,
            forall|a: int, b: int|
                0 <= a < b < r@.len() ==> !same_ident(#[trigger] r@[a], #[trigger] r@[b]),
            forall|a: int| 0 <= a < r@.len() ==> decoded_in(raws@, #[trigger] r@[a]) && r@[a].wf(),
            forall|j: int|
                0 <= j < i ==> match decode_spec(#[trigger] raws@[j]@) {
                    Ok((token, key, _field)) => ident_listed(r@, token, key),
                    Err(_) => true,
                },
        decreases n - i,
    {
        match Key::from_redis_key(raws[i].as_str()) {
            Err(_) => {},
            Ok(k) => {
                let ghost old_r = r@;
                if !contains_ident(&r, &k) {
                    r.push(k);
                    proof {
                        assert forall|j: int|
                            0 <= j < i + 1 implies match decode_spec(#[trigger] raws@[j]@) {
                            Ok((token, key, _field)) => ident_listed(r@, token, key),
                            Err(_) => true,
                        } by {
                            if j < i {
                                match decode_spec(raws@[j]@) {
                                    Ok((token, key, _field)) => {
                                        let w = choose|w: int|
                                            0 <= w < old_r.len() && (#[trigger] old_r[w]).token@
                                                == token && old_r[w].key@ == key;
                                        assert(r@[w].token@ == token && r@[w].key@ == key);
                                    },
                                    Err(_) => {},
                                }
                            } else {
                                assert(r@[r@.len() - 1].token@ == k.token@);
                            }
                        }
                    }
                } else {
                    proof {
                        let w = choose|w: int|
                            0 <= w < r@.len() && same_ident(#[trigger] r@[w], k);
                        assert(r@[w].token@ == k.token@ && r@[w].key@ == k.key@);
                    }
                }
            },
        }
        i += 1;
    }
    r
}

} // verus!
