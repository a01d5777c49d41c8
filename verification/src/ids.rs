use vstd::prelude::*;

use rand::Rng;

use crate::state::Lobby;
use crate::strmap::StrMap;
use crate::text::{lemma_padded_injective, padded_decimal_string, padded_decimal_text, pow10};

verus! {

/// How many random draws a new lobby code gets before the codes are tried in order.
pub const RANDOM_CODE_ATTEMPTS: u32 = 64;

/// How many lobby codes there are: every five-digit number.
pub const LOBBY_CODE_SPACE: u32 = 100000;

/// A number drawn with `rand::rng().random_range(0..bound)` (the thread-local generator
/// of the `rand` crate). The contract claims only that the number lies in that range,
/// which is what the crate documents for `random_range`; `random_range` panics on an
/// empty range, which `requires` rules out. Which number comes out is left open, as it
/// depends on chance.
#[verifier::external_body]
fn random_below(bound: u32) -> (n: u32)
    requires
        bound > 0,
    ensures
        n < bound,
{
    rand::rng().random_range(0..bound)
}

/// Whether `c` is a lower-case hexadecimal digit.
pub open spec fn is_lower_hex(c: char) -> bool {
    ('0' <= c && c <= '9') || ('a' <= c && c <= 'f')
}

/// Whether `s` is a version-4 UUID in hyphenated lower-case form: 8-4-4-4-12 hexadecimal
/// digits, the version digit `4`, and the variant digit one of `8`, `9`, `a`, `b`.
pub open spec fn is_uuid_v4_text(s: Seq<char>) -> bool {
    &&& s.len() == 36
    &&& forall|i: int|
        0 <= i < 36 ==> if i == 8 || i == 13 || i == 18 || i == 23 {
            s[i] == '-'
        } else {
            is_lower_hex(#[trigger] s[i])
        }
    &&& s[14] == '4'
    &&& (s[19] == '8' || s[19] == '9' || s[19] == 'a' || s[19] == 'b')
}

/// A fresh random identifier: `uuid::Uuid::new_v4().to_string()`. The contract claims
/// the form of the text: `new_v4` masks in the version and variant bits, and the
/// crate's `Display` writes the hyphenated lower-case form. Which identifier comes out
/// is left open, as it is random, and so is whether it differs from earlier ones.
#[verifier::external_body]
pub fn new_identifier() -> (s: String)
    ensures
        is_uuid_v4_text(s@),
{
    uuid::Uuid::new_v4().to_string()
}

/// Whether `code` is a lobby code: five decimal digits.
pub open spec fn is_lobby_code(code: Seq<char>) -> bool {
    exists|n: nat| n < LOBBY_CODE_SPACE && code == padded_decimal_text(n, 5)
}

/// A five-digit lobby code that no lobby uses yet. Random codes are drawn first; should
/// they all be taken, the codes are tried in order.
pub fn new_lobby_code(lobbies: &StrMap<Lobby>) -> (code: String)
    requires
        lobbies.entries().len() < LOBBY_CODE_SPACE,
    ensures
        !lobbies@.contains_key(code@),
        is_lobby_code(code@),
{
    let mut attempts: u32 = 0;
    while attempts < RANDOM_CODE_ATTEMPTS
        decreases RANDOM_CODE_ATTEMPTS - attempts,
    {
        let n = random_below(LOBBY_CODE_SPACE);
        let code = padded_decimal_string(n as u64, 5);
        if !lobbies.contains_key(&code) {
            return code;
        }
        attempts = attempts + 1;
    }
    lobbies.reveal_entries();
    let mut n: u32 = 0;
    while n < LOBBY_CODE_SPACE
        invariant
            n <= LOBBY_CODE_SPACE,
            forall|m: nat| m < n ==> #[trigger] lobbies@.contains_key(padded_decimal_text(m, 5)),
        decreases LOBBY_CODE_SPACE - n,
    {
        let code = padded_decimal_string(n as u64, 5);
        if !lobbies.contains_key(&code) {
            return code;
        }
        n = n + 1;
    }
    proof {
        lemma_some_code_free(lobbies);
    }
    String::new()
}

/// A map with fewer than `100000` entries leaves some lobby code free.
proof fn lemma_some_code_free(lobbies: &StrMap<Lobby>)
    requires
        lobbies.entries().len() < LOBBY_CODE_SPACE,
        forall|k: Seq<char>|
            #[trigger] lobbies@.contains_key(k) ==> exists|i: int|
                0 <= i < lobbies.entries().len() && lobbies.entries()[i].0@ == k,
    ensures
        exists|m: nat| m < LOBBY_CODE_SPACE && !(#[trigger] lobbies@.contains_key(padded_decimal_text(m, 5))),
{
    if forall|m: nat| m < LOBBY_CODE_SPACE ==> #[trigger] lobbies@.contains_key(padded_decimal_text(m, 5)) {
        lemma_all_codes_take_room(lobbies);
    }
}

proof fn lemma_all_codes_take_room(lobbies: &StrMap<Lobby>)
    requires
        forall|k: Seq<char>|
            #[trigger] lobbies@.contains_key(k) ==> exists|i: int|
                0 <= i < lobbies.entries().len() && lobbies.entries()[i].0@ == k,
        forall|m: nat| m < LOBBY_CODE_SPACE ==> #[trigger] lobbies@.contains_key(padded_decimal_text(m, 5)),
    ensures
        lobbies.entries().len() >= LOBBY_CODE_SPACE,
{
    broadcast use vstd::seq_lib::seq_to_set_is_finite;

    let keys = lobbies.entries().map_values(|e: (String, Lobby)| e.0@);
    let key_set = keys.to_set();
    keys.lemma_cardinality_of_set();
    let range = vstd::set_lib::set_int_range(0, LOBBY_CODE_SPACE as int);
    vstd::set_lib::lemma_int_range(0, LOBBY_CODE_SPACE as int);
    let f = |n: int| padded_decimal_text(n as nat, 5);
    let codes = range.map(f);
    assert(pow10(5) == 100000) by {
        reveal_with_fuel(pow10, 6);
    }
    assert(vstd::relations::injective_on(f, range)) by {
        assert forall|a: int, b: int| range.contains(a) && range.contains(b) && #[trigger] f(a) == #[trigger] f(
            b,
        ) implies a == b by {
            lemma_padded_injective(a as nat, b as nat, 5);
        }
    }
    vstd::set_lib::lemma_map_size(range, codes, f);
    assert(codes.subset_of(key_set)) by {
        assert forall|c: Seq<char>| codes.contains(c) implies key_set.contains(c) by {
            let a = choose|a: int| range.contains(a) && f(a) == c;
            assert(lobbies@.contains_key(padded_decimal_text(a as nat, 5)));
            let i = choose|i: int| 0 <= i < lobbies.entries().len() && lobbies.entries()[i].0@ == c;
            assert(keys[i] == c);
        }
    }
    vstd::set_lib::lemma_len_subset(codes, key_set);
}

} // verus!
