//! Random secrets drawn from a fixed alphabet.
use vstd::prelude::*;

verus! {

/// Letters and digits.
pub const BASE_DICT: &'static str = "aA1bB2cC3dD4eE5fF6gG7hH8iI9jJ0kKlLmMnNoOpPqQrRsStTuUvVwWxXyYzZ";

/// Letters, digits and symbols.
pub const EXTENDED_DICT: &'static str =
    "aA1!bB2@cC3#dD4$eE5%fF6^gG7&hH8*iI9(jJ0)kK_lL+mM-nN=oO[pP]qQ{rR}sS;tT:uU>vV<wW?xXyYzZ";

/// Which alphabet a secret is drawn from.
#[derive(Debug, Clone, Copy, PartialEq, Eq)]
pub enum DictType {
    Base,
    Extended,
}

pub open spec fn alphabet(d: DictType) -> Seq<char> {
    match d {
        DictType::Base => BASE_DICT@,
        DictType::Extended => EXTENDED_DICT@,
    }
}

pub open spec fn is_alphanumeric(c: char) -> bool {
    ('a' <= c && c <= 'z') || ('A' <= c && c <= 'Z') || ('0' <= c && c <= '9')
}

/// The alphabet of a kind.
pub fn dictionary(d: DictType) -> (r: &'static str)
    ensures
        r@ == alphabet(d),
        r@.len() > 0,
{
    proof {
        reveal_strlit("aA1bB2cC3dD4eE5fF6gG7hH8iI9jJ0kKlLmMnNoOpPqQrRsStTuUvVwWxXyYzZ");
        reveal_strlit("aA1!bB2@cC3#dD4$eE5%fF6^gG7&hH8*iI9(jJ0)kK_lL+mM-nN=oO[pP]qQ{rR}sS;tT:uU>vV<wW?xXyYzZ");
    }
    match d {
        DictType::Base => BASE_DICT,
        DictType::Extended => EXTENDED_DICT,
    }
}

/// The base alphabet has 62 characters, all of them letters or digits.
pub proof fn lemma_base_alphabet()
    ensures
        alphabet(DictType::Base).len() == 62,
        forall|i: int| 0 <= i < 62 ==> is_alphanumeric(#[trigger] alphabet(DictType::Base)[i]),
{
    reveal_strlit("aA1bB2cC3dD4eE5fF6gG7hH8iI9jJ0kKlLmMnNoOpPqQrRsStTuUvVwWxXyYzZ");
}

/// Relies on random_string::generate: `length` characters, each picked from
/// the characters of `charset`.
#[verifier::external_body]
fn pick_random(length: usize, charset: &str) -> (r: String)
    requires
        charset@.len() > 0,
    ensures
        r@.len() == length,
        forall|i: int| 0 <= i < r@.len() ==> charset@.contains(#[trigger] r@[i]),
{
    random_string::generate(length, charset)
}

/// A secret of `length` characters, each drawn from the alphabet of `dict_type`.
pub fn generate_string(dict_type: DictType, length: u16) -> (r: String)
    ensures
        r@.len() == length,
        forall|i: int| 0 <= i < r@.len() ==> alphabet(dict_type).contains(#[trigger] r@[i]),
{
    let dict = dictionary(dict_type);
    pick_random(length as usize, dict)
}

} // verus!
