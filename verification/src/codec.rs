//! The identifier codec: validation of namespace and task segments,
//! encoding of three-part identifiers into flat store keys, prefix patterns
//! for enumeration, and the strict inverse decoder.

use vstd::prelude::*;
use vstd::string::StrSliceExecFns;
use vstd::string::StringExecFns;

use crate::errors::Error;
use crate::text::{
    find_char, first_occ, is_valid_char, join_colon, lemma_first_occ_props, lemma_join_split,
    lemma_join_valid, lemma_split_concat, lemma_split_no_colon, lemma_split_nonempty,
    lemma_split_segments_valid, lemma_valid_segment_no_colon, no_colon, split_colon,
    split_colon_str, str_eq, valid_char, valid_segment, valid_task_chars,
};

verus! {

/// The fixed prefix under which this layer owns keys in the store.
pub open spec fn prefix_chars() -> Seq<char> {
    seq!['p', 'c', 'a', 'f', 'e']
}

/// The flat store key `"pcafe:<token>:<key>:<field>"`.
pub open spec fn encoded_key(token: Seq<char>, key: Seq<char>, field: Seq<char>) -> Seq<char> {
    prefix_chars() + seq![':'] + token + seq![':'] + key + seq![':'] + field
}

/// The wildcard pattern `"pcafe:<token>:<key>*"` for prefix scans.
pub open spec fn pattern_chars(token: Seq<char>, key: Seq<char>) -> Seq<char> {
    prefix_chars() + seq![':'] + token + seq![':'] + key + seq!['*']
}

/// What decoding a raw store key yields: charset validation of every
/// segment first, then the structural check (at least three segments, the
/// fixed prefix in front), then namespace, colon-rejoined task, and field.
pub open spec fn decode_spec(s: Seq<char>) -> Result<(Seq<char>, Seq<char>, Seq<char>), Error> {
    let segs = split_colon(s);
    if !(forall|i: int| 0 <= i < segs.len() ==> valid_segment(#[trigger] segs[i])) {
        Err(Error::InvalidCharset)
    } else if segs.len() < 3 || segs[0] != prefix_chars() {
        Err(Error::BadStructure)
    } else {
        Ok((segs[1], join_colon(segs.subrange(2, segs.len() - 1)), segs[segs.len() - 1]))
    }
}

/// Rejects any string with a character outside the identifier charset.
pub fn check_string(s: &str) -> (r: Result<(), Error>)
    ensures
        r is Ok <==> valid_segment(s@),
        r is Err ==> r == Err::<(), Error>(Error::InvalidCharset),
{
    let n = s.unicode_len();
    let mut i: usize = 0;
    while i < n
        invariant
            n == s@.len(),
            0 <= i <= n,
            forall|j: int| 0 <= j < i ==> valid_char(#[trigger] s@[j]),
        decreases n - i,
    {
        if !is_valid_char(s.get_char(i)) {
            return Err(Error::InvalidCharset);
        }
        i += 1;
    }
    Ok(())
}

/// Checks that every character of a task key is in the charset or a `:`.
fn check_task_chars(s: &str) -> (r: bool)
    ensures
        r == valid_task_chars(s@),
{
    let n = s.unicode_len();
    let mut i: usize = 0;
    while i < n
        invariant
            n == s@.len(),
            0 <= i <= n,
            forall|j: int| 0 <= j < i ==> valid_char(#[trigger] s@[j]) || s@[j] == ':',
        decreases n - i,
    {
        let c = s.get_char(i);
        if !(is_valid_char(c) || c == ':') {
            return false;
        }
        i += 1;
    }
    true
}

/// A validated identifier: a namespace token and a (possibly multi-segment)
/// task key.
#[derive(Debug)]
pub struct Key {
    pub token: String,
    pub key: String,
}

impl PartialEq for Key {
    fn eq(&self, other: &Key) -> bool {
        self.token == other.token && self.key == other.key
    }
}

impl vstd::std_specs::cmp::PartialEqSpecImpl for Key {
    open spec fn obeys_eq_spec() -> bool {
        true
    }

    open spec fn eq_spec(&self, other: &Key) -> bool {
        self.token@ == other.token@ && self.key@ == other.key@
    }
}

impl Key {
    /// A well-formed identifier: the token is one valid segment and every
    /// colon-delimited segment of the task key is valid.
    pub open spec fn wf(&self) -> bool {
        valid_segment(self.token@) && valid_task_chars(self.key@)
    }

    /// Validates and builds an identifier; `Err(InvalidCharset)` when the
    /// token or any task segment holds a character outside the charset.
    pub fn new(token: String, key: String) -> (r: Result<Key, Error>)
        ensures
            valid_segment(token@) && valid_task_chars(key@) ==> (r matches Ok(k) && k.token@
                == token@ && k.key@ == key@ && k.wf()),
            !(valid_segment(token@) && valid_task_chars(key@)) ==> r == Err::<Key, Error>(
                Error::InvalidCharset,
            ),
    {
        match check_string(token.as_str()) {
            Err(e) => Err(e),
            Ok(()) => {
                if !check_task_chars(key.as_str()) {
                    Err(Error::InvalidCharset)
                } else {
                    Ok(Key { token, key })
                }
            },
        }
    }

    /// Encodes the store key addressing one field of this identifier;
    /// `Err(InvalidField)` when the field name holds a `:`.
    pub fn redis_key(&self, param: &str) -> (r: Result<String, Error>)
        ensures
            no_colon(param@) ==> (r matches Ok(s) && s@ == encoded_key(
                self.token@,
                self.key@,
                param@,
            )),
            !no_colon(param@) ==> r == Err::<String, Error>(Error::InvalidField),
    {
        proof {
            lemma_first_occ_props(param@, ':');
        }
        match find_char(param, ':') {
            Some(_) => Err(Error::InvalidField),
            None => Ok(build_key(self.token.as_str(), self.key.as_str(), param)),
        }
    }

    /// The wildcard pattern that matches every field key of every task
    /// under this identifier taken as a prefix.
    pub fn redis_key_pattern(&self) -> (r: String)
        ensures
            r@ == pattern_chars(self.token@, self.key@),
    {
        let mut out = String::from_str("pcafe:");
        proof {
            reveal_strlit("pcafe:");
            reveal_strlit(":");
            reveal_strlit("*");
            assert("pcafe:"@ =~= prefix_chars() + seq![':']);
        }
        out.append(self.token.as_str());
        out.append(":");
        out.append(self.key.as_str());
        out.append("*");
        proof {
            assert(":"@ =~= seq![':']);
            assert("*"@ =~= seq!['*']);
            assert(out@ =~= pattern_chars(self.token@, self.key@));
        }
        out
    }

    /// Strictly decodes a raw store key back into an identifier, dropping
    /// the trailing field segment. Exactly inverts the encoder on keys this
    /// layer wrote; rejects anything else.
    pub fn from_redis_key(redis_key: &str) -> (r: Result<Key, Error>)
        ensures
            match decode_spec(redis_key@) {
                Ok((token, key, _field)) => r matches Ok(k) && k.token@ == token && k.key@ == key
                    && k.wf(),
                Err(e) => r == Err::<Key, Error>(e),
            },
    {
        let segs = split_colon_str(redis_key);
        let ghost sv = segs@.map_values(|t: String| t@);
        let n = segs.len();
        let mut i: usize = 0;
        while i < n
            invariant
                n == segs@.len(),
                0 <= i <= n,
                sv == segs@.map_values(|t: String| t@),
                sv == split_colon(redis_key@),
                forall|j: int| 0 <= j < i ==> valid_segment(#[trigger] sv[j]),
            decreases n - i,
        {
            proof {
                assert(sv[i as int] == segs@[i as int]@);
            }
            match check_string(segs[i].as_str()) {
                Err(_) => {
                    proof {
                        assert(!valid_segment(split_colon(redis_key@)[i as int]));
                    }
                    return Err(Error::InvalidCharset);
                },
                Ok(()) => {},
            }
            i += 1;
        }
        if n < 3 {
            return Err(Error::BadStructure);
        }
        proof {
            reveal_strlit("pcafe");
            assert("pcafe"@ =~= prefix_chars());
            assert(sv[0] == segs@[0]@);
        }
        if !str_eq(segs[0].as_str(), "pcafe") {
            return Err(Error::BadStructure);
        }
        let token = segs[1].clone();
        let mut key = String::new();
        let last = n - 1;
        let mut i: usize = 2;
        proof {
            assert(sv[1] == segs@[1]@);
            assert(key@ =~= join_colon(sv.subrange(2, 2)));
        }
        while i < last
            invariant
                2 <= i <= last,
                last == segs@.len() - 1,
                segs@.len() >= 3,
                sv == segs@.map_values(|t: String| t@),
                key@ == join_colon(sv.subrange(2, i as int)),
            decreases last - i,
        {
            if i > 2 {
                key.append(":");
                proof {
                    reveal_strlit(":");
                    assert(":"@ =~= seq![':']);
                }
            }
            key.append(segs[i].as_str());
            proof {
                assert(sv[i as int] == segs@[i as int]@);
                let sub = sv.subrange(2, i + 1);
                assert(sub.drop_last() =~= sv.subrange(2, i as int));
                assert(sub.last() == sv[i as int]);
                if i > 2 {
                    assert(key@ =~= join_colon(sub));
                } else {
                    assert(sub.len() == 1);
                    assert(key@ =~= join_colon(sub));
                }
            }
            i += 1;
        }
        proof {
            let mid = sv.subrange(2, last as int);
            assert forall|j: int| 0 <= j < mid.len() implies valid_segment(#[trigger] mid[j]) by {
                assert(mid[j] == sv[2 + j]);
            }
            lemma_join_valid(mid);
            assert(sv[segs@.len() - 1] == segs@[segs@.len() - 1]@);
        }
        Ok(Key { token, key })
    }
}

/// Builds `"pcafe:<token>:<key>:<field>"`.
pub(crate) fn build_key(token: &str, key: &str, field: &str) -> (r: String)
    ensures
        r@ == encoded_key(token@, key@, field@),
{
    let mut out = String::from_str("pcafe:");
    proof {
        reveal_strlit("pcafe:");
        reveal_strlit(":");
        assert("pcafe:"@ =~= prefix_chars() + seq![':']);
        assert(":"@ =~= seq![':']);
    }
    out.append(token);
    out.append(":");
    out.append(key);
    out.append(":");
    out.append(field);
    proof {
        assert(out@ =~= encoded_key(token@, key@, field@));
    }
    out
}

/// Law: decoding any key this layer encodes from a valid namespace token,
/// task key and field name returns exactly that namespace, task and field.
pub proof fn lemma_encode_decode(token: Seq<char>, key: Seq<char>, field: Seq<char>)
    requires
        valid_segment(token),
        valid_task_chars(key),
        valid_segment(field),
    ensures
        decode_spec(encoded_key(token, key, field)) == Ok::<
            (Seq<char>, Seq<char>, Seq<char>),
            Error,
        >((token, key, field)),
{
    let enc = encoded_key(token, key, field);
    lemma_valid_segment_no_colon(token);
    lemma_valid_segment_no_colon(field);
    assert(valid_segment(prefix_chars())) by {
        assert(prefix_chars()[0] == 'p');
        assert(prefix_chars()[1] == 'c');
        assert(prefix_chars()[2] == 'a');
        assert(prefix_chars()[3] == 'f');
        assert(prefix_chars()[4] == 'e');
    }
    lemma_valid_segment_no_colon(prefix_chars());
    let tail2 = key + seq![':'] + field;
    let tail1 = token + seq![':'] + tail2;
    assert(enc =~= prefix_chars() + seq![':'] + tail1);
    lemma_split_concat(prefix_chars(), tail1);
    lemma_split_concat(token, tail2);
    lemma_split_concat(key, field);
    lemma_split_no_colon(prefix_chars());
    lemma_split_no_colon(token);
    lemma_split_no_colon(field);
    lemma_split_nonempty(key);
    let segs = split_colon(enc);
    assert(segs =~~= seq![prefix_chars()] + seq![token] + split_colon(key) + seq![field]);
    lemma_split_segments_valid(key);
    assert forall|i: int| 0 <= i < segs.len() implies valid_segment(#[trigger] segs[i]) by {
        if i >= 2 && i < segs.len() - 1 {
            assert(segs[i] == split_colon(key)[i - 2]);
        }
    }
    assert(segs.len() >= 4);
    assert(segs[0] == prefix_chars());
    assert(segs[1] == token);
    assert(segs[segs.len() - 1] == field);
    assert(segs.subrange(2, segs.len() - 1) =~~= split_colon(key));
    lemma_join_split(key);
}

} // verus!
