//! The update grammar and compiler: parsing one `key=value` report pair
//! into a tri-state update, and compiling an update into independent store
//! operations.

use vstd::prelude::*;
use vstd::string::StrSliceExecFns;
use vstd::string::StringExecFns;

use crate::codec::{build_key, check_string, encoded_key, Key};
use crate::errors::Error;
use crate::text::{
    find_char, first_occ, is_null_literal, is_null_str, parse_i64_spec, parse_i64_str,
    valid_segment, valid_task_chars,
};

verus! {

/// Seconds a written field value lives in the store: four hours, refreshed
/// fully on every write.
pub const EXPIRE_SECONDS: u64 = 60 * 60 * 4;

/// One field of an update: not mentioned (store untouched), explicitly
/// cleared, or set to a value. Collapsing `Absent` and `Delete` into one
/// state would be a correctness bug.
#[derive(Debug)]
pub enum Tristate<T> {
    Absent,
    Delete,
    Put(T),
}

/// The view of a tri-state text field.
pub open spec fn tri_view(t: Tristate<String>) -> Tristate<Seq<char>> {
    match t {
        Tristate::Absent => Tristate::Absent,
        Tristate::Delete => Tristate::Delete,
        Tristate::Put(s) => Tristate::Put(s@),
    }
}

/// A parsed, validated update for one task. `state` is the label field.
#[derive(Debug)]
pub struct Update {
    pub key: Key,
    pub state: Tristate<String>,
    pub current: Tristate<i64>,
    pub max: Tristate<i64>,
}

/// One independent store operation produced by the compiler.
#[derive(Debug)]
pub enum StoreOp {
    /// Set `key` to the text `value`, expiring after `ttl_seconds`.
    SetText { key: String, value: String, ttl_seconds: u64 },
    /// Set `key` to the decimal form of `value`, expiring after `ttl_seconds`.
    SetNumber { key: String, value: i64, ttl_seconds: u64 },
    /// Delete `key`.
    Del { key: String },
}

// ---------------------------------------------------------------------------
// parse_i64_or_null
// ---------------------------------------------------------------------------

/// Spec for `parse_i64_or_null`: the case-insensitive literal `null` means
/// an explicit null, anything else must read as a signed 64-bit integer.
pub open spec fn i64_or_null_spec(s: Seq<char>) -> Result<Option<i64>, Error> {
    if is_null_literal(s) {
        Ok(None)
    } else {
        match parse_i64_spec(s) {
            Some(v) => Ok(Some(v as i64)),
            None => Err(Error::InvalidNumber),
        }
    }
}

/// Reads a `current`/`max` slot: `Ok(None)` for the literal `null` in any
/// case, `Ok(Some(v))` for an integer, `Err(InvalidNumber)` otherwise.
pub fn parse_i64_or_null(s: &str) -> (r: Result<Option<i64>, Error>)
    ensures
        r == i64_or_null_spec(s@),
{
    if is_null_str(s) {
        Ok(None)
    } else {
        match parse_i64_str(s) {
            Some(v) => Ok(Some(v)),
            None => Err(Error::InvalidNumber),
        }
    }
}

// ---------------------------------------------------------------------------
// The value grammar
// ---------------------------------------------------------------------------

/// The tri-state meaning of the `current` slot: an empty slot leaves the
/// field untouched, `null` clears it, an integer sets it.
pub open spec fn current_spec(s: Seq<char>) -> Result<Tristate<i64>, Error> {
    if s.len() == 0 {
        Ok(Tristate::Absent)
    } else {
        match i64_or_null_spec(s) {
            Ok(None) => Ok(Tristate::Delete),
            Ok(Some(v)) => Ok(Tristate::Put(v)),
            Err(e) => Err(e),
        }
    }
}

/// The tri-state meaning of the `max` slot after a `/`: `null` clears it,
/// an integer sets it. Unlike `current`, an empty slot here is a parse
/// error, not "leave untouched" — the grammar is deliberately asymmetric.
pub open spec fn max_spec(s: Seq<char>) -> Result<Tristate<i64>, Error> {
    match i64_or_null_spec(s) {
        Ok(None) => Ok(Tristate::Delete),
        Ok(Some(v)) => Ok(Tristate::Put(v)),
        Err(e) => Err(e),
    }
}

/// What parsing one report pair yields. The value grammar is
/// `[label "!"] [current] ["/" max]`: an optional charset-validated label
/// before the first `!`, then current and optional max split on the first
/// `/`. Failures surface in this order: bad label charset, bad max, bad
/// current, bad namespace token or task key.
pub open spec fn parse_update_spec(token: Seq<char>, key: Seq<char>, val: Seq<char>) -> Result<
    (Tristate<Seq<char>>, Tristate<i64>, Tristate<i64>),
    Error,
> {
    let bang = first_occ(val, '!');
    let label: Tristate<Seq<char>> = if bang == -1 {
        Tristate::Absent
    } else {
        Tristate::Put(val.take(bang))
    };
    let rest = if bang == -1 {
        val
    } else {
        val.skip(bang + 1)
    };
    if bang >= 0 && !valid_segment(val.take(bang)) {
        Err(Error::InvalidCharset)
    } else {
        let slash = first_occ(rest, '/');
        let cur_part = if slash == -1 {
            rest
        } else {
            rest.take(slash)
        };
        let maxr = if slash == -1 {
            Ok(Tristate::Absent)
        } else {
            max_spec(rest.skip(slash + 1))
        };
        match maxr {
            Err(e) => Err(e),
            Ok(maxv) => match current_spec(cur_part) {
                Err(e) => Err(e),
                Ok(curv) => if valid_segment(token) && valid_task_chars(key) {
                    Ok((label, curv, maxv))
                } else {
                    Err(Error::InvalidCharset)
                },
            },
        }
    }
}

impl Update {
    /// Wraps an identifier and three tri-state fields into an update; no
    /// validation beyond what the `Key` already carries.
    pub fn new(key: Key, state: Tristate<String>, current: Tristate<i64>, max: Tristate<i64>) -> (u:
        Update)
        ensures
            u.key == key,
            u.state == state,
            u.current == current,
            u.max == max,
    {
        Update { key, state, current, max }
    }

    /// Parses one `(task key, value)` report pair under `token` into a
    /// validated update, per the grammar `[label "!"] [current] ["/" max]`.
    pub fn from_query(token: &str, pair: (String, String)) -> (r: Result<Update, Error>)
        ensures
            match parse_update_spec(token@, pair.0@, pair.1@) {
                Ok((label, current, max)) => r matches Ok(u) && u.key.token@ == token@
                    && u.key.key@ == pair.0@ && u.key.wf() && tri_view(u.state) == label
                    && u.current == current && u.max == max,
                Err(e) => r == Err::<Update, Error>(e),
            },
    {
        let (key_str, val) = pair;
        let vs = val.as_str();
        let n = vs.unicode_len();
        let (label, rest): (Tristate<String>, &str) = match find_char(vs, '!') {
            Some(i) => {
                let lab = vs.substring_char(0, i);
                proof {
                    assert(lab@ =~= vs@.take(i as int));
                }
                match check_string(lab) {
                    Err(_) => {
                        return Err(Error::InvalidCharset);
                    },
                    Ok(()) => {},
                }
                (Tristate::Put(String::from_str(lab)), vs.substring_char(i + 1, n))
            },
            None => (Tristate::Absent, vs),
        };
        let ghost rest_seq = rest@;
        let rn = rest.unicode_len();
        let (cur_str, max_tri): (&str, Tristate<i64>) = match find_char(rest, '/') {
            Some(j) => {
                let max_str = rest.substring_char(j + 1, rn);
                proof {
                    assert(max_str@ =~= rest_seq.skip(j + 1));
                }
                let m = match parse_i64_or_null(max_str) {
                    Err(e) => {
                        return Err(e);
                    },
                    Ok(None) => Tristate::Delete,
                    Ok(Some(v)) => Tristate::Put(v),
                };
                let c = rest.substring_char(0, j);
                proof {
                    assert(c@ =~= rest_seq.take(j as int));
                }
                (c, m)
            },
            None => (rest, Tristate::Absent),
        };
        let cur_tri: Tristate<i64> = if cur_str.unicode_len() == 0 {
            proof {
                assert(cur_str@ =~= Seq::<char>::empty());
            }
            Tristate::Absent
        } else {
            match parse_i64_or_null(cur_str) {
                Err(e) => {
                    return Err(e);
                },
                Ok(None) => Tristate::Delete,
                Ok(Some(v)) => Tristate::Put(v),
            }
        };
        match Key::new(String::from_str(token), key_str) {
            Err(e) => Err(e),
            Ok(key) => Ok(Update { key, state: label, current: cur_tri, max: max_tri }),
        }
    }
}

// ---------------------------------------------------------------------------
// The compiler
// ---------------------------------------------------------------------------

/// The field name `state` as characters.
pub open spec fn state_field() -> Seq<char> {
    seq!['s', 't', 'a', 't', 'e']
}

/// The field name `current` as characters.
pub open spec fn current_field() -> Seq<char> {
    seq!['c', 'u', 'r', 'r', 'e', 'n', 't']
}

/// The field name `max` as characters.
pub open spec fn max_field() -> Seq<char> {
    seq!['m', 'a', 'x']
}

/// How many operations one tri-state field compiles to.
pub open spec fn tri_ops<T>(t: Tristate<T>) -> int {
    match t {
        Tristate::Absent => 0,
        Tristate::Delete => 1,
        Tristate::Put(_) => 1,
    }
}

/// `op` writes the text `value` under `key` with the fixed TTL.
pub open spec fn is_set_text(op: StoreOp, key: Seq<char>, value: Seq<char>) -> bool {
    op matches StoreOp::SetText { key: k, value: v, ttl_seconds: t } && k@ == key && v@ == value
        && t == EXPIRE_SECONDS
}

/// `op` writes the number `value` under `key` with the fixed TTL.
pub open spec fn is_set_number(op: StoreOp, key: Seq<char>, value: i64) -> bool {
    op matches StoreOp::SetNumber { key: k, value: v, ttl_seconds: t } && k@ == key && v == value
        && t == EXPIRE_SECONDS
}

/// `op` deletes `key`.
pub open spec fn is_del(op: StoreOp, key: Seq<char>) -> bool {
    op matches StoreOp::Del { key: k } && k@ == key
}

/// The one operation a non-absent tri-state text field compiles to.
pub open spec fn op_for_text(op: StoreOp, key: Seq<char>, t: Tristate<Seq<char>>) -> bool {
    match t {
        Tristate::Absent => false,
        Tristate::Delete => is_del(op, key),
        Tristate::Put(s) => is_set_text(op, key, s),
    }
}

/// The one operation a non-absent tri-state number field compiles to.
pub open spec fn op_for_number(op: StoreOp, key: Seq<char>, t: Tristate<i64>) -> bool {
    match t {
        Tristate::Absent => false,
        Tristate::Delete => is_del(op, key),
        Tristate::Put(v) => is_set_number(op, key, v),
    }
}

impl Update {
    /// Compiles this update into zero to three independent store
    /// operations, in field order `state`, `current`, `max`: an absent
    /// field produces none, a set field one TTL-refreshing write, a null
    /// field one delete. The batch is deliberately not atomic; the store
    /// may apply a prefix of it on a fault.
    pub fn as_cmds(&self) -> (r: Vec<StoreOp>)
        ensures
            r@.len() == tri_ops(self.state) + tri_ops(self.current) + tri_ops(self.max),
            !(self.state is Absent) ==> op_for_text(
                r@[0],
                encoded_key(self.key.token@, self.key.key@, state_field()),
                tri_view(self.state),
            ),
            !(self.current is Absent) ==> op_for_number(
                r@[tri_ops(self.state)],
                encoded_key(self.key.token@, self.key.key@, current_field()),
                self.current,
            ),
            !(self.max is Absent) ==> op_for_number(
                r@[tri_ops(self.state) + tri_ops(self.current)],
                encoded_key(self.key.token@, self.key.key@, max_field()),
                self.max,
            ),
    {
        let mut r: Vec<StoreOp> = Vec::new();
        match &self.state {
            Tristate::Absent => {},
            Tristate::Delete => {
                let k = build_key(self.key.token.as_str(), self.key.key.as_str(), "state");
                proof {
                    reveal_strlit("state");
                    assert("state"@ =~= state_field());
                }
                r.push(StoreOp::Del { key: k });
            },
            Tristate::Put(s) => {
                let k = build_key(self.key.token.as_str(), self.key.key.as_str(), "state");
                proof {
                    reveal_strlit("state");
                    assert("state"@ =~= state_field());
                }
                r.push(StoreOp::SetText { key: k, value: s.clone(), ttl_seconds: EXPIRE_SECONDS });
            },
        }
        match &self.current {
            Tristate::Absent => {},
            Tristate::Delete => {
                let k = build_key(self.key.token.as_str(), self.key.key.as_str(), "current");
                proof {
                    reveal_strlit("current");
                    assert("current"@ =~= current_field());
                }
                r.push(StoreOp::Del { key: k });
            },
            Tristate::Put(v) => {
                let k = build_key(self.key.token.as_str(), self.key.key.as_str(), "current");
                proof {
                    reveal_strlit("current");
                    assert("current"@ =~= current_field());
                }
                r.push(StoreOp::SetNumber { key: k, value: *v, ttl_seconds: EXPIRE_SECONDS });
            },
        }
        match &self.max {
            Tristate::Absent => {},
            Tristate::Delete => {
                let k = build_key(self.key.token.as_str(), self.key.key.as_str(), "max");
                proof {
                    reveal_strlit("max");
                    assert("max"@ =~= max_field());
                }
                r.push(StoreOp::Del { key: k });
            },
            Tristate::Put(v) => {
                let k = build_key(self.key.token.as_str(), self.key.key.as_str(), "max");
                proof {
                    reveal_strlit("max");
                    assert("max"@ =~= max_field());
                }
                r.push(StoreOp::SetNumber { key: k, value: *v, ttl_seconds: EXPIRE_SECONDS });
            },
        }
        r
    }
}

} // verus!
