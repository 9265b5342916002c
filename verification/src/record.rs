//! The stored-record wire format. A snapshot record is kept in the store as
//! one string: the name, length-prefixed so that it may contain any
//! character, four signed amounts, and the update time as the remainder.
//!
//! `<name-len>:<name>|<chaos>|<divine>|<pay>|<receive>|<update-time>`
use vstd::prelude::*;

use crate::models::DataStore;
use crate::models::DataStoreV;
use crate::numbers::i64_to_string;
use crate::numbers::lemma_int_chars_shape;
use crate::numbers::lemma_nat_digits;
use crate::numbers::lemma_nat_digits_chars;
use crate::numbers::lemma_parse_int_round_trip;
use crate::numbers::lemma_parse_len_round_trip;
use crate::numbers::parse_i64;
use crate::numbers::parse_len;
use crate::numbers::spec_int_chars;
use crate::numbers::spec_nat_digits;
use crate::numbers::spec_parse_int;
use crate::numbers::spec_parse_len;
use crate::numbers::u64_to_string;
use crate::strutil::find_char_from;
use crate::strutil::lemma_find_is;
use crate::strutil::spec_find;

verus! {

/// Encoding of a record as one store string.
pub open spec fn spec_encode(d: DataStoreV) -> Seq<char> {
    spec_nat_digits(d.name.len()) + seq![':'] + d.name + seq!['|'] + spec_int_chars(
        d.chaos_equivalent,
    ) + seq!['|'] + spec_int_chars(d.divine_equivalent) + seq!['|'] + spec_int_chars(
        d.pay_total_change,
    ) + seq!['|'] + spec_int_chars(d.receive_total_change) + seq!['|'] + d.update_time
}

/// A record whose amounts fit in 64 bits and whose name fits in memory;
/// every record built from a `DataStore` value is of this kind.
pub open spec fn spec_record_wf(d: DataStoreV) -> bool {
    &&& i64::MIN <= d.chaos_equivalent <= i64::MAX
    &&& i64::MIN <= d.divine_equivalent <= i64::MAX
    &&& i64::MIN <= d.pay_total_change <= i64::MAX
    &&& i64::MIN <= d.receive_total_change <= i64::MAX
    &&& d.name.len() <= usize::MAX
}

/// Decoding of one store string; `None` when the string is not a record.
pub open spec fn spec_decode(s: Seq<char>) -> Option<DataStoreV> {
    let len = s.len() as int;
    let p = spec_find(s, 0, ':');
    if p >= len {
        None
    } else {
        let nv = spec_parse_len(s.subrange(0, p));
        if nv is None {
            None
        } else {
            let n = nv.unwrap();
            let ns = p + 1;
            if ns + n > len {
                None
            } else {
                let name = s.subrange(ns, ns + n);
                if ns + n >= len || s[ns + n] != '|' {
                    None
                } else {
                    let q1 = ns + n + 1;
                    let e1 = spec_find(s, q1, '|');
                    let v1 = spec_parse_int(s.subrange(q1, e1));
                    if e1 >= len || v1 is None {
                        None
                    } else {
                        let q2 = e1 + 1;
                        let e2 = spec_find(s, q2, '|');
                        let v2 = spec_parse_int(s.subrange(q2, e2));
                        if e2 >= len || v2 is None {
                            None
                        } else {
                            let q3 = e2 + 1;
                            let e3 = spec_find(s, q3, '|');
                            let v3 = spec_parse_int(s.subrange(q3, e3));
                            if e3 >= len || v3 is None {
                                None
                            } else {
                                let q4 = e3 + 1;
                                let e4 = spec_find(s, q4, '|');
                                let v4 = spec_parse_int(s.subrange(q4, e4));
                                if e4 >= len || v4 is None {
                                    None
                                } else {
                                    Some(
                                        DataStoreV {
                                            name,
                                            chaos_equivalent: v1.unwrap(),
                                            divine_equivalent: v2.unwrap(),
                                            pay_total_change: v3.unwrap(),
                                            receive_total_change: v4.unwrap(),
                                            update_time: s.subrange(e4 + 1, len),
                                        },
                                    )
                                }
                            }
                        }
                    }
                }
            }
        }
    }
}

/// Decoding inverts encoding: every well-formed record is recovered
/// exactly from its store string.
#[verifier::rlimit(60)]
pub proof fn lemma_decode_encode(d: DataStoreV)
    requires
        spec_record_wf(d),
    ensures
        spec_decode(spec_encode(d)) == Some(d),
{
    let s = spec_encode(d);
    let len = s.len() as int;
    let digits = spec_nat_digits(d.name.len());
    let f1 = spec_int_chars(d.chaos_equivalent);
    let f2 = spec_int_chars(d.divine_equivalent);
    let f3 = spec_int_chars(d.pay_total_change);
    let f4 = spec_int_chars(d.receive_total_change);
    lemma_nat_digits(d.name.len());
    lemma_nat_digits_chars(d.name.len());
    lemma_int_chars_shape(d.chaos_equivalent);
    lemma_int_chars_shape(d.divine_equivalent);
    lemma_int_chars_shape(d.pay_total_change);
    lemma_int_chars_shape(d.receive_total_change);
    let dl = digits.len() as int;
    let nl = d.name.len() as int;
    let ns = dl + 1;
    let q1 = ns + nl + 1;
    let e1 = q1 + f1.len() as int;
    let q2 = e1 + 1;
    let e2 = q2 + f2.len() as int;
    let q3 = e2 + 1;
    let e3 = q3 + f3.len() as int;
    let q4 = e3 + 1;
    let e4 = q4 + f4.len() as int;
    assert(len == e4 + 1 + d.update_time.len());
    // the length prefix ends at the first colon
    assert forall|j: int| 0 <= j < dl implies s[j] != ':' by {
        assert(s[j] == digits[j]);
    }
    assert(s[dl] == ':');
    lemma_find_is(s, 0, ':', dl);
    assert(s.subrange(0, dl) =~= digits);
    lemma_parse_len_round_trip(nl);
    // the name spans exactly its prefixed length
    assert(s.subrange(ns, ns + nl) =~= d.name);
    assert(s[ns + nl] == '|');
    // first amount
    assert forall|j: int| q1 <= j < e1 implies s[j] != '|' by {
        assert(s[j] == f1[j - q1]);
    }
    assert(s[e1] == '|');
    lemma_find_is(s, q1, '|', e1);
    assert(s.subrange(q1, e1) =~= f1);
    lemma_parse_int_round_trip(d.chaos_equivalent);
    // second amount
    assert forall|j: int| q2 <= j < e2 implies s[j] != '|' by {
        assert(s[j] == f2[j - q2]);
    }
    assert(s[e2] == '|');
    lemma_find_is(s, q2, '|', e2);
    assert(s.subrange(q2, e2) =~= f2);
    lemma_parse_int_round_trip(d.divine_equivalent);
    // third amount
    assert forall|j: int| q3 <= j < e3 implies s[j] != '|' by {
        assert(s[j] == f3[j - q3]);
    }
    assert(s[e3] == '|');
    lemma_find_is(s, q3, '|', e3);
    assert(s.subrange(q3, e3) =~= f3);
    lemma_parse_int_round_trip(d.pay_total_change);
    // fourth amount
    assert forall|j: int| q4 <= j < e4 implies s[j] != '|' by {
        assert(s[j] == f4[j - q4]);
    }
    assert(s[e4] == '|');
    lemma_find_is(s, q4, '|', e4);
    assert(s.subrange(q4, e4) =~= f4);
    lemma_parse_int_round_trip(d.receive_total_change);
    // the update time is the remainder
    assert(s.subrange(e4 + 1, len) =~= d.update_time);
    assert(spec_decode(s).unwrap() =~= d);
}

impl DataStore {
    /// Render this record as its one-line store string.
    pub fn to_record_string(&self) -> (r: String)
        ensures
            r@ == spec_encode(self@),
    {
        let nlen = self.name.as_str().unicode_len();
        let mut s = u64_to_string(nlen as u64);
        s.append(":");
        s.append(self.name.as_str());
        s.append("|");
        let f1 = i64_to_string(self.chaos_equivalent);
        s.append(f1.as_str());
        s.append("|");
        let f2 = i64_to_string(self.divine_equivalent);
        s.append(f2.as_str());
        s.append("|");
        let f3 = i64_to_string(self.pay_total_change);
        s.append(f3.as_str());
        s.append("|");
        let f4 = i64_to_string(self.receive_total_change);
        s.append(f4.as_str());
        s.append("|");
        s.append(self.update_time.as_str());
        proof {
            reveal_strlit(":");
            reveal_strlit("|");
            assert(":"@ =~= seq![':']);
            assert("|"@ =~= seq!['|']);
            assert(s@ =~= spec_encode(self@));
        }
        s
    }
}

/// Parse one store string back into a record.
pub fn from_record_string(s: &str) -> (r: Option<DataStore>)
    ensures
        match r {
            Some(d) => spec_decode(s@) == Some(d@),
            None => spec_decode(s@) is None,
        },
{
    let len = s.unicode_len();
    let p = find_char_from(s, 0, ':');
    if p >= len {
        return None;
    }
    let nv = parse_len(s.substring_char(0, p));
    if nv.is_none() {
        return None;
    }
    let n = nv.unwrap();
    let ns = p + 1;
    if n > len - ns {
        return None;
    }
    let name = String::from_str(s.substring_char(ns, ns + n));
    if ns + n >= len {
        return None;
    }
    if s.get_char(ns + n) != '|' {
        return None;
    }
    let q1 = ns + n + 1;
    let e1 = find_char_from(s, q1, '|');
    if e1 >= len {
        return None;
    }
    let v1 = parse_i64(s.substring_char(q1, e1));
    if v1.is_none() {
        return None;
    }
    let q2 = e1 + 1;
    let e2 = find_char_from(s, q2, '|');
    if e2 >= len {
        return None;
    }
    let v2 = parse_i64(s.substring_char(q2, e2));
    if v2.is_none() {
        return None;
    }
    let q3 = e2 + 1;
    let e3 = find_char_from(s, q3, '|');
    if e3 >= len {
        return None;
    }
    let v3 = parse_i64(s.substring_char(q3, e3));
    if v3.is_none() {
        return None;
    }
    let q4 = e3 + 1;
    let e4 = find_char_from(s, q4, '|');
    if e4 >= len {
        return None;
    }
    let v4 = parse_i64(s.substring_char(q4, e4));
    if v4.is_none() {
        return None;
    }
    let time = String::from_str(s.substring_char(e4 + 1, len));
    Some(
        DataStore {
            name,
            chaos_equivalent: v1.unwrap(),
            divine_equivalent: v2.unwrap(),
            pay_total_change: v3.unwrap(),
            receive_total_change: v4.unwrap(),
            update_time: time,
        },
    )
}

} // verus!
