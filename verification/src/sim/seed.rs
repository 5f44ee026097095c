//! Seeds for the random numbers of a running game.

use std::collections::hash_map::RandomState;

use vstd::prelude::*;

verus! {

/// Nanoseconds on the wall clock since 1970, by `std::time::SystemTime`; no
/// value where the clock stands before that. Nothing is claimed of the number:
/// it depends on the time.
#[verifier::external_body]
fn clock_nanos() -> Option<u64> {
    let since = std::time::SystemTime::now().duration_since(std::time::UNIX_EPOCH);
    since.map(|d| d.as_nanos() as u64).ok()
}

/// Keys for hashing that `std::collections::hash_map::RandomState` takes from
/// the system. Nothing is claimed of them: they rest on chance.
pub assume_specification[ RandomState::new ]() -> (keys: RandomState);

/// The hash of `n` under `keys`, by `std::hash::BuildHasher::hash_one`. Nothing
/// is claimed of the number: it rests on the keys, which rest on chance.
#[verifier::external_body]
fn keyed_hash(keys: &RandomState, n: u64) -> u64 {
    std::hash::BuildHasher::hash_one(keys, n)
}

/// Some number that nobody can foretell.
pub fn entropy_seed() -> u64 {
    let nanos: u64 = match clock_nanos() {
        Some(n) => n,
        None => 0,
    };
    let keys = RandomState::new();
    keyed_hash(&keys, nanos)
}

/// The seeds of a game: for tokens, for loot and for spawning.
#[derive(Debug, Clone, Copy, PartialEq, Eq, Structural)]
pub struct Seeds {
    pub token: u64,
    pub loot: u64,
    pub spawn: u64,
}

pub const LOOT_SALT: u64 = 0x1007_caf3;

pub const SPAWN_SALT: u64 = 0x57a4_11fe;

/// The seeds made from three numbers. Loot and spawning are salted, so that
/// one number in all places still gives three streams.
pub fn salted(token: u64, loot: u64, spawn: u64) -> (s: Seeds)
    ensures
        s == (Seeds { token, loot: loot ^ LOOT_SALT, spawn: spawn ^ SPAWN_SALT }),
        s.token == token,
        s.loot == loot ^ 0x1007_caf3,
        s.spawn == spawn ^ 0x57a4_11fe,
{
    Seeds { token, loot: loot ^ LOOT_SALT, spawn: spawn ^ SPAWN_SALT }
}

/// Equal numbers still give different seeds.
pub proof fn law_salts_part_streams(n: u64)
    ensures
        n != n ^ LOOT_SALT,
        n != n ^ SPAWN_SALT,
        n ^ LOOT_SALT != n ^ SPAWN_SALT,
{
    assert(n != n ^ 0x1007_caf3u64) by (bit_vector);
    assert(n != n ^ 0x57a4_11feu64) by (bit_vector);
    assert(n ^ 0x1007_caf3u64 != n ^ 0x57a4_11feu64) by (bit_vector);
}

/// Fresh seeds.
pub fn fresh_seeds() -> (s: Seeds) {
    salted(entropy_seed(), entropy_seed(), entropy_seed())
}

/// The `n` lowest bytes of a number, the lowest first.
pub open spec fn low_bytes(a: nat, n: nat) -> Seq<u8>
    decreases n,
{
    if n == 0 {
        Seq::empty()
    } else {
        low_bytes(a, (n - 1) as nat).push(((a / pow256((n - 1) as nat)) % 256) as u8)
    }
}

pub open spec fn pow256(n: nat) -> nat
    decreases n,
{
    if n == 0 {
        1
    } else {
        256 * pow256((n - 1) as nat)
    }
}

proof fn lemma_pow256(n: nat)
    ensures
        pow256(n) > 0,
    decreases n,
{
    if n > 0 {
        lemma_pow256((n - 1) as nat);
    }
}

fn push_bytes(out: &mut Vec<u8>, a: u64)
    ensures
        final(out)@ == old(out)@ + low_bytes(a as nat, 8),
{
    let mut rest: u64 = a;
    let mut i: u32 = 0;
    proof {
        assert(pow256(0) == 1);
        assert(a as nat / 1 == a as nat);
    }
    assert(out@ =~= old(out)@ + low_bytes(a as nat, 0));
    while i < 8
        invariant
            i <= 8,
            rest == a as nat / pow256(i as nat),
            out@ == old(out)@ + low_bytes(a as nat, i as nat),
        decreases 8 - i,
    {
        let b: u8 = (rest % 256) as u8;
        out.push(b);
        proof {
            lemma_pow256(i as nat);
            vstd::arithmetic::div_mod::lemma_div_denominator(
                a as int,
                pow256(i as nat) as int,
                256,
            );
            assert(pow256(i as nat) * 256 == pow256((i + 1) as nat));
        }
        rest = rest / 256;
        i = i + 1;
        assert(out@ =~= old(out)@ + low_bytes(a as nat, i as nat));
    }
}

/// Bytes of a token.
pub const TOKEN_BYTES: usize = 16;

/// A token for a player who joins: what the system drew, or where it drew
/// none, the bytes of two random numbers.
pub fn fresh_token(drawn: Option<Vec<u8>>, a: u64, b: u64) -> (token: Vec<u8>)
    requires
        drawn matches Some(d) ==> d.len() == TOKEN_BYTES,
    ensures
        token@ == (match drawn {
            Some(d) => d@,
            None => low_bytes(a as nat, 8) + low_bytes(b as nat, 8),
        }),
        token.len() == TOKEN_BYTES,
{
    match drawn {
        Some(d) => d,
        None => {
            let mut token: Vec<u8> = Vec::new();
            push_bytes(&mut token, a);
            push_bytes(&mut token, b);
            proof {
                lemma_low_bytes_len(a as nat, 8);
                lemma_low_bytes_len(b as nat, 8);
            }
            token
        },
    }
}

proof fn lemma_low_bytes_len(a: nat, n: nat)
    ensures
        low_bytes(a, n).len() == n,
    decreases n,
{
    if n > 0 {
        lemma_low_bytes_len(a, (n - 1) as nat);
    }
}

/// What the lowest bytes are worth together.
proof fn lemma_low_bytes_tell(a: nat, b: nat, n: nat)
    requires
        low_bytes(a, n) == low_bytes(b, n),
    ensures
        a % pow256(n) == b % pow256(n),
    decreases n,
{
    lemma_pow256(n);
    if n > 0 {
        let m = (n - 1) as nat;
        lemma_pow256(m);
        lemma_low_bytes_len(a, n);
        lemma_low_bytes_len(b, n);
        assert(low_bytes(a, n).drop_last() =~= low_bytes(a, m));
        assert(low_bytes(b, n).drop_last() =~= low_bytes(b, m));
        assert(low_bytes(a, n).last() == low_bytes(b, n).last());
        lemma_low_bytes_tell(a, b, m);
        lemma_split(a, m);
        lemma_split(b, m);
        let (x, y) = (a / pow256(m) % 256, b / pow256(m) % 256);
        assert(low_bytes(a, n).last() == x as u8);
        assert(low_bytes(b, n).last() == y as u8);
        assert(x < 256 && y < 256);
        assert(x == y);
    } else {
        assert(pow256(n) == 1);
        assert(a % 1 == 0 && b % 1 == 0);
    }
}

proof fn lemma_split(a: nat, m: nat)
    ensures
        a % pow256(m + 1) == (a / pow256(m) % 256) * pow256(m) + a % pow256(m),
{
    let p = pow256(m) as int;
    lemma_pow256(m);
    assert(pow256(m + 1) == p * 256);
    vstd::arithmetic::div_mod::lemma_mod_breakdown(a as int, p, 256);
    assert(p * ((a as int / p) % 256) == ((a as int / p) % 256) * p) by (nonlinear_arith);
}

/// Tokens made of different numbers differ.
pub proof fn law_tokens_tell_numbers_apart(a: u64, b: u64, c: u64, d: u64)
    requires
        low_bytes(a as nat, 8) + low_bytes(b as nat, 8) == low_bytes(c as nat, 8) + low_bytes(
            d as nat,
            8,
        ),
    ensures
        a == c,
        b == d,
{
    lemma_low_bytes_len(a as nat, 8);
    lemma_low_bytes_len(b as nat, 8);
    lemma_low_bytes_len(c as nat, 8);
    lemma_low_bytes_len(d as nat, 8);
    let left = low_bytes(a as nat, 8) + low_bytes(b as nat, 8);
    let right = low_bytes(c as nat, 8) + low_bytes(d as nat, 8);
    assert(left.subrange(0, 8) =~= low_bytes(a as nat, 8));
    assert(right.subrange(0, 8) =~= low_bytes(c as nat, 8));
    assert(left.subrange(8, 16) =~= low_bytes(b as nat, 8));
    assert(right.subrange(8, 16) =~= low_bytes(d as nat, 8));
    lemma_low_bytes_tell(a as nat, c as nat, 8);
    lemma_low_bytes_tell(b as nat, d as nat, 8);
    reveal_with_fuel(pow256, 9);
    assert(pow256(8) == 0x1_0000_0000_0000_0000);
    assert(a as nat % 0x1_0000_0000_0000_0000 == a);
    assert(b as nat % 0x1_0000_0000_0000_0000 == b);
    assert(c as nat % 0x1_0000_0000_0000_0000 == c);
    assert(d as nat % 0x1_0000_0000_0000_0000 == d);
}

/// The bytes of a number come lowest first.
pub proof fn law_bytes_come_lowest_first(a: nat, n: nat, i: nat)
    requires
        i < n,
    ensures
        low_bytes(a, n).len() == n,
        low_bytes(a, n)[i as int] == (a / pow256(i)) % 256,
        pow256(i + 1) == pow256(i) * 256,
        low_bytes(a, n)[0] == a % 256,
    decreases n,
{
    if i < n - 1 {
        law_bytes_come_lowest_first(a, (n - 1) as nat, i);
    } else if n > 1 {
        law_bytes_come_lowest_first(a, (n - 1) as nat, 0);
    }
    if n == 1 {
        assert(low_bytes(a, 0).len() == 0);
        assert(a / 1 == a);
    }
}

} // verus!
