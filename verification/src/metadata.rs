//! NFT metadata for quest reward tokens.
//!
//! The metadata endpoint is a pure mapping from a small numeric level to a
//! fixed metadata record. Levels 1 to 3 map to the tiered arcade records
//! (Bronze, Silver, Gold), each carrying exactly one attribute naming the
//! level; level 4 maps to the tribe totem record with no attributes; every
//! other input is a validation error. The only configuration read is a base
//! URL used to build the image link.

use vstd::prelude::*;
use crate::errors::{get_error, ErrorResponse, ERROR_STATUS};

verus! {

/// NFT metadata returned to the caller.
pub struct TokenURI {
    pub name: String,
    pub description: String,
    pub image: String,
    pub attributes: Option<Vec<Attribute>>,
}

/// One trait entry of an NFT metadata record.
pub struct Attribute {
    pub trait_type: String,
    pub value: u32,
}

/// The query parameters of the metadata endpoint.
pub struct LevelQuery {
    pub level: Option<String>,
}

/// A decimal digit.
pub open spec fn is_dec_digit(c: char) -> bool {
    '0' <= c && c <= '9'
}

/// Every character of `s` is a decimal digit.
pub open spec fn all_digits(s: Seq<char>) -> bool {
    forall|i: int| 0 <= i < s.len() ==> is_dec_digit(s[i])
}

/// The numeric value of a digit string, most significant digit first.
pub open spec fn digits_val(s: Seq<char>) -> int
    decreases s.len(),
{
    if s.len() == 0 {
        0
    } else {
        digits_val(s.drop_last()) * 10 + (s.last() as int - '0' as int)
    }
}

/// The digit part of a numeric string: everything after one optional
/// leading plus sign.
pub open spec fn digits_of(s: Seq<char>) -> Seq<char> {
    if s.len() > 0 && s[0] == '+' {
        s.skip(1)
    } else {
        s
    }
}

/// What a string parses to as a `u32`: one optional leading plus sign,
/// then a non-empty all-digit part whose value fits, yields that value;
/// everything else is rejected.
pub open spec fn parses_to_u32(s: Seq<char>) -> Option<u32> {
    let d = digits_of(s);
    if d.len() > 0 && all_digits(d) && digits_val(d) <= u32::MAX {
        Some(digits_val(d) as u32)
    } else {
        None
    }
}

proof fn lemma_digits_val_nonneg(s: Seq<char>)
    requires
        all_digits(s),
    ensures
        digits_val(s) >= 0,
    decreases s.len(),
{
    if s.len() > 0 {
        assert(forall|i: int|
            0 <= i < s.drop_last().len() ==> is_dec_digit(#[trigger] s.drop_last()[i]));
        lemma_digits_val_nonneg(s.drop_last());
        assert(is_dec_digit(s.last()));
    }
}

proof fn lemma_digits_val_prefix_le(s: Seq<char>, i: int)
    requires
        0 <= i <= s.len(),
        all_digits(s),
    ensures
        digits_val(s.take(i)) <= digits_val(s),
    decreases s.len() - i,
{
    if i < s.len() {
        assert(s.take(i + 1).drop_last() =~= s.take(i));
        assert(s.take(i + 1).last() == s[i]);
        assert(forall|j: int| 0 <= j < s.take(i).len() ==> is_dec_digit(#[trigger] s.take(i)[j]));
        lemma_digits_val_nonneg(s.take(i));
        assert(is_dec_digit(s[i]));
        assert(digits_val(s.take(i + 1)) == digits_val(s.take(i)) * 10 + (s[i] as int
            - '0' as int));
        lemma_digits_val_prefix_le(s, i + 1);
    } else {
        assert(s.take(i) =~= s);
    }
}

/// Parse a decimal `u32` as the metadata endpoint reads its level: one
/// optional leading plus sign, then at least one decimal digit, with the
/// value fitting in `u32`; everything else is rejected.
pub fn parse_u32(s: &str) -> (r: Option<u32>)
    ensures
        r == parses_to_u32(s@),
{
    let n = s.unicode_len();
    if n == 0 {
        return None;
    }
    let start: usize = if s.get_char(0) == '+' {
        1
    } else {
        0
    };
    let ghost d = digits_of(s@);
    proof {
        assert(d =~= s@.skip(start as int));
    }
    if n == start {
        return None;
    }
    let mut acc: u32 = 0;
    let mut i: usize = start;
    while i < n
        invariant
            n == s@.len(),
            start <= i <= n,
            d == digits_of(s@),
            d == s@.skip(start as int),
            all_digits(d.take(i - start)),
            acc == digits_val(d.take(i - start)),
        decreases n - i,
    {
        let c = s.get_char(i);
        let cv = c as u32;
        proof {
            assert(d[i - start] == s@[i as int]);
        }
        if cv < 48 || cv > 57 {
            proof {
                assert(!is_dec_digit(d[i - start]));
            }
            return None;
        }
        let dig: u32 = cv - 48;
        proof {
            assert(d.take(i - start + 1).drop_last() =~= d.take(i - start));
            assert(d.take(i - start + 1).last() == d[i - start]);
            assert(digits_val(d.take(i - start + 1)) == acc * 10 + dig);
        }
        if acc > u32::MAX / 10 || (acc == u32::MAX / 10 && dig > u32::MAX % 10) {
            proof {
                if all_digits(d) {
                    lemma_digits_val_prefix_le(d, i - start + 1);
                    assert(digits_val(d) > u32::MAX);
                }
            }
            return None;
        }
        acc = acc * 10 + dig;
        i = i + 1;
    }
    proof {
        assert(d.take(n - start) =~= d);
    }
    Some(acc)
}

/// The tier name shown for an arcade level.
pub open spec fn tier_name(level: u32) -> Seq<char> {
    if level == 2 {
        "Silver"@
    } else if level == 3 {
        "Gold"@
    } else {
        "Bronze"@
    }
}

/// The display name of an arcade-level token.
pub open spec fn arcade_name(level: u32) -> Seq<char> {
    "StarkFighter "@ + tier_name(level) + " Arcade"@
}

/// The decimal digit naming an arcade level in its image link.
pub open spec fn level_digit(level: u32) -> Seq<char> {
    if level == 1 {
        "1"@
    } else if level == 2 {
        "2"@
    } else {
        "3"@
    }
}

/// The image link of an arcade-level token under the configured base URL.
pub open spec fn arcade_image(base: Seq<char>, level: u32) -> Seq<char> {
    base + "/starkfighter/level"@ + level_digit(level) + ".webp"@
}

/// The image link of the tribe totem token under the configured base URL.
pub open spec fn totem_image(base: Seq<char>) -> Seq<char> {
    base + "/starknetid/nft1.webp"@
}

/// A level that maps to no metadata record.
pub open spec fn level_invalid(level: Option<u32>) -> bool {
    match level {
        Option::None => true,
        Option::Some(l) => l == 0 || l > 4,
    }
}

/// The result owed for an arcade level: the tiered record with exactly one
/// `level` attribute.
pub open spec fn is_arcade_result(r: Result<TokenURI, ErrorResponse>, base: Seq<char>, l: u32) -> bool {
    r matches Ok(t) && t.name@ == arcade_name(l) && t.description@
        == "A starknet.quest NFT won during the Starkfighter event."@ && t.image@
        == arcade_image(base, l) && (t.attributes matches Some(attrs) && attrs@.len() == 1
        && attrs@[0].trait_type@ == "level"@ && attrs@[0].value == l)
}

/// The result owed for level 4: the totem record with no attributes.
pub open spec fn is_totem_result(r: Result<TokenURI, ErrorResponse>, base: Seq<char>) -> bool {
    r matches Ok(t) && t.name@ == "Starknet ID Tribe Totem"@ && t.description@
        == "A Starknet Quest NFT won for creating a StarknetID profile."@ && t.image@
        == totem_image(base) && t.attributes is None
}

/// The result owed for an invalid level: the validation error.
pub open spec fn is_level_error(r: Result<TokenURI, ErrorResponse>) -> bool {
    r matches Err(e) && e.status == ERROR_STATUS && e.message@
        == "Error, this level is not correct"@
}

/// The whole level-to-metadata contract: what the metadata endpoint returns
/// for every possible level.
pub open spec fn uri_result_spec(level: Option<u32>, base: Seq<char>, r: Result<
    TokenURI,
    ErrorResponse,
>) -> bool {
    match level {
        Option::Some(l) => if 1 <= l && l <= 3 {
            is_arcade_result(r, base, l)
        } else if l == 4 {
            is_totem_result(r, base)
        } else {
            is_level_error(r)
        },
        Option::None => is_level_error(r),
    }
}

/// The pure level-to-metadata mapping.
///
/// Levels 1 to 3 yield the tiered arcade record with exactly one `level`
/// attribute; level 4 yields the totem record with no attributes; every
/// other input yields the validation error.
pub fn token_uri(level: Option<u32>, app_link: &str) -> (r: Result<TokenURI, ErrorResponse>)
    ensures
        uri_result_spec(level, app_link@, r),
{
    match level {
        Option::Some(level_int) => {
            if 1 <= level_int && level_int <= 3 {
                let tier: &str = if level_int == 2 {
                    "Silver"
                } else if level_int == 3 {
                    "Gold"
                } else {
                    "Bronze"
                };
                let digit: &str = if level_int == 1 {
                    "1"
                } else if level_int == 2 {
                    "2"
                } else {
                    "3"
                };
                let mut name = String::from_str("StarkFighter ");
                name.append(tier);
                name.append(" Arcade");
                let mut image = app_link.to_owned();
                image.append("/starkfighter/level");
                image.append(digit);
                image.append(".webp");
                let mut attrs: Vec<Attribute> = Vec::new();
                attrs.push(Attribute { trait_type: "level".to_owned(), value: level_int });
                Ok(
                    TokenURI {
                        name,
                        description: "A starknet.quest NFT won during the Starkfighter event.".to_owned(),
                        image,
                        attributes: Some(attrs),
                    },
                )
            } else if level_int == 4 {
                let mut image = app_link.to_owned();
                image.append("/starknetid/nft1.webp");
                Ok(
                    TokenURI {
                        name: "Starknet ID Tribe Totem".to_owned(),
                        description: "A Starknet Quest NFT won for creating a StarknetID profile.".to_owned(),
                        image,
                        attributes: None,
                    },
                )
            } else {
                Err(get_error("Error, this level is not correct".to_owned()))
            }
        },
        Option::None => Err(get_error("Error, this level is not correct".to_owned())),
    }
}

/// The level a metadata request asks for, as parsed from its query string.
pub open spec fn level_of(query: LevelQuery) -> Option<u32> {
    match query.level {
        Option::Some(s) => parses_to_u32(s@),
        Option::None => None,
    }
}

/// The whole metadata request: parse the optional level parameter, then map
/// it to a record exactly as `token_uri` does.
pub fn uri_response(query: LevelQuery, app_link: &str) -> (r: Result<TokenURI, ErrorResponse>)
    ensures
        uri_result_spec(level_of(query), app_link@, r),
{
    let parsed: Option<u32> = match &query.level {
        Option::Some(s) => parse_u32(s.as_str()),
        Option::None => None,
    };
    token_uri(parsed, app_link)
}

} // verus!
