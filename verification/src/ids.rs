//! Random identifiers: tunnel, connection, node and device ids, and the
//! secrets of API tokens, all drawn from UUID v4.

use vstd::prelude::*;

verus! {

/// A lowercase hexadecimal digit.
pub open spec fn is_lower_hex(c: char) -> bool {
    ('0' <= c && c <= '9') || ('a' <= c && c <= 'f')
}

/// The variant digit of an RFC 4122 UUID.
pub open spec fn is_variant_digit(c: char) -> bool {
    c == '8' || c == '9' || c == 'a' || c == 'b'
}

/// `uuid::Uuid::new_v4`, written in its simple form (`Uuid::simple`). Claimed,
/// as uuid's source builds and formats it: 32 lowercase hexadecimal digits,
/// the 13th being the version `4` and the 17th the RFC 4122 variant. Which
/// other digits come back is left open (they are random).
#[verifier::external_body]
fn uuid_v4_simple() -> (r: String)
    ensures
        r@.len() == 32,
        forall|i: int| 0 <= i < 32 ==> is_lower_hex(#[trigger] r@[i]),
        r@[12] == '4',
        is_variant_digit(r@[16]),
{
    uuid::Uuid::new_v4().simple().to_string()
}

/// A fresh random UUID v4 as 32 lowercase hex digits.
pub fn new_simple_id() -> (r: String)
    ensures
        r@.len() == 32,
        forall|i: int| 0 <= i < 32 ==> is_lower_hex(#[trigger] r@[i]),
        r@[12] == '4',
        is_variant_digit(r@[16]),
{
    uuid_v4_simple()
}

/// The hyphenated form of a simple UUID: groups of 8, 4, 4, 4 and 12 digits.
pub open spec fn hyphenated(simple: Seq<char>) -> Seq<char> {
    simple.subrange(0, 8) + seq!['-'] + simple.subrange(8, 12) + seq!['-'] + simple.subrange(12, 16)
        + seq!['-'] + simple.subrange(16, 20) + seq!['-'] + simple.subrange(20, 32)
}

/// `t` is a UUID v4 in its hyphenated form: 32 lowercase hex digits in
/// groups of 8, 4, 4, 4 and 12, with the version digit `4` and an RFC 4122
/// variant digit.
pub open spec fn is_uuid_v4_text(t: Seq<char>) -> bool {
    exists|s: Seq<char>|
        #![trigger hyphenated(s)]
        s.len() == 32 && (forall|i: int| 0 <= i < 32 ==> is_lower_hex(#[trigger] s[i])) && s[12] == '4'
            && is_variant_digit(s[16]) && t == hyphenated(s)
}

/// A fresh random UUID v4 in its usual hyphenated form (36 characters).
pub fn new_uuid() -> (r: String)
    ensures
        is_uuid_v4_text(r@),
        r@.len() == 36,
{
    let simple = uuid_v4_simple();
    let s = simple.as_str();
    proof {
        reveal_strlit("-");
    }
    let mut out = String::from_str(s.substring_char(0, 8));
    out.append("-");
    out.append(s.substring_char(8, 12));
    out.append("-");
    out.append(s.substring_char(12, 16));
    out.append("-");
    out.append(s.substring_char(16, 20));
    out.append("-");
    out.append(s.substring_char(20, 32));
    assert(out@ =~= hyphenated(simple@));
    out
}

} // verus!
