//! The state reader: assembles one task's record from the three raw store
//! values, tolerating any subset being absent.

use vstd::prelude::*;

use crate::errors::Error;
use crate::text::{parse_i64_spec, parse_i64_str};

verus! {

/// One task's assembled state. Each field is independently present or
/// absent (never written, deleted, or expired); absence is not an error.
#[derive(Debug)]
pub struct Value {
    pub state: Option<String>,
    pub current: Option<i64>,
    pub max: Option<i64>,
}

/// How a raw numeric store value reads back: absent stays absent, anything
/// present must be a signed 64-bit integer.
pub open spec fn num_read_spec(s: Option<Seq<char>>) -> Result<Option<i64>, Error> {
    match s {
        None => Ok(None),
        Some(t) => match parse_i64_spec(t) {
            Some(v) => Ok(Some(v as i64)),
            None => Err(Error::InvalidNumber),
        },
    }
}

/// What assembling a record yields: the label passes through untouched, a
/// bad `current` is reported before a bad `max`.
pub open spec fn read_state_spec(
    state: Option<Seq<char>>,
    current: Option<Seq<char>>,
    max: Option<Seq<char>>,
) -> Result<(Option<Seq<char>>, Option<i64>, Option<i64>), Error> {
    match num_read_spec(current) {
        Err(e) => Err(e),
        Ok(c) => match num_read_spec(max) {
            Err(e) => Err(e),
            Ok(m) => Ok((state, c, m)),
        },
    }
}

/// Reads one raw numeric field.
fn num_read(s: Option<String>) -> (r: Result<Option<i64>, Error>)
    ensures
        r == num_read_spec(s.deep_view()),
{
    match s {
        None => Ok(None),
        Some(t) => match parse_i64_str(t.as_str()) {
            Some(v) => Ok(Some(v)),
            None => Err(Error::InvalidNumber),
        },
    }
}

/// Assembles one task's record from the three raw store reads (label,
/// current, max in that order). Absent fields stay absent without error; a
/// present numeric field that does not read as a signed 64-bit integer is
/// `Err(InvalidNumber)`. Transport faults never reach this function — the
/// calling layer reports them as `StoreUnavailable` itself.
pub fn read_state(state: Option<String>, current: Option<String>, max: Option<String>) -> (r:
    Result<Value, Error>)
    ensures
        match read_state_spec(state.deep_view(), current.deep_view(), max.deep_view()) {
            Ok((s, c, m)) => r matches Ok(v) && v.state.deep_view() == s && v.current == c && v.max
                == m,
            Err(e) => r == Err::<Value, Error>(e),
        },
{
    let c = match num_read(current) {
        Err(e) => {
            return Err(e);
        },
        Ok(c) => c,
    };
    let m = match num_read(max) {
        Err(e) => {
            return Err(e);
        },
        Ok(m) => m,
    };
    Ok(Value { state, current: c, max: m })
}

/// Law: a task none of whose fields was ever written (or whose fields all
/// expired) reads back as a record with all three fields absent, not as an
/// error.
pub proof fn lemma_read_all_absent()
    ensures
        read_state_spec(None, None, None) == Ok::<
            (Option<Seq<char>>, Option<i64>, Option<i64>),
            Error,
        >((None, None, None)),
{
}

} // verus!
