//! The record layer: a generic persisted record parameterized by a
//! key prefix, a key length, a body type and a metadata type.
//!
//! A record is stored under the key `<prefix>:<key>`, with a binary
//! body and a flat string-to-string metadata map. Timestamps in the
//! metadata are encoded as decimal seconds since the epoch; an absent
//! optional string is stored as an empty string. The store itself
//! (get/put/list/delete) lives outside this crate; here are the pure
//! parts: key construction, fresh-key generation, and the
//! encode/decode contracts that the concrete record kinds implement.

use core::marker::PhantomData;
use vstd::prelude::*;

verus! {

// ---------------------------------------------------------------
// Decimal encoding of timestamps.
// ---------------------------------------------------------------

/// The character for one decimal digit.
pub open spec fn digit_char(d: int) -> char {
    if d == 0 {
        '0'
    } else if d == 1 {
        '1'
    } else if d == 2 {
        '2'
    } else if d == 3 {
        '3'
    } else if d == 4 {
        '4'
    } else if d == 5 {
        '5'
    } else if d == 6 {
        '6'
    } else if d == 7 {
        '7'
    } else if d == 8 {
        '8'
    } else {
        '9'
    }
}

/// The canonical decimal rendering of a number: no sign, no leading
/// zeros (except for zero itself).
pub open spec fn dec_str(n: nat) -> Seq<char>
    decreases n,
{
    if n < 10 {
        seq![digit_char(n as int)]
    } else {
        dec_str(n / 10).push(digit_char((n % 10) as int))
    }
}

/// Whether a sequence of characters is a nonempty run of decimal
/// digits.
pub open spec fn is_dec(s: Seq<char>) -> bool {
    &&& s.len() > 0
    &&& forall|i: int| 0 <= i < s.len() ==> 48 <= (#[trigger] s[i]) as int <= 57
}

/// The numeric value of a run of decimal digits.
pub open spec fn dec_val(s: Seq<char>) -> int
    decreases s.len(),
{
    if s.len() == 0 {
        0
    } else {
        dec_val(s.drop_last()) * 10 + (s.last() as int - 48)
    }
}

/// Appends the character for one digit to a string.
fn append_digit(s: &mut String, d: u8)
    requires
        d < 10,
    ensures
        final(s)@ == old(s)@.push(digit_char(d as int)),
{
    proof {
        reveal_strlit("0");
        reveal_strlit("1");
        reveal_strlit("2");
        reveal_strlit("3");
        reveal_strlit("4");
        reveal_strlit("5");
        reveal_strlit("6");
        reveal_strlit("7");
        reveal_strlit("8");
        reveal_strlit("9");
    }
    match d {
        0 => s.append("0"),
        1 => s.append("1"),
        2 => s.append("2"),
        3 => s.append("3"),
        4 => s.append("4"),
        5 => s.append("5"),
        6 => s.append("6"),
        7 => s.append("7"),
        8 => s.append("8"),
        _ => s.append("9"),
    }
    proof {
        assert(final(s)@ =~= old(s)@.push(digit_char(d as int)));
    }
}

/// Renders a timestamp as decimal text.
pub fn u64_to_dec(n: u64) -> (r: String)
    ensures
        r@ == dec_str(n as nat),
{
    let mut digits: Vec<u8> = Vec::new();
    let mut m = n;
    proof {
        assert(dec_str(n as nat) =~= dec_str(n as nat) + low_digit_chars(Seq::<u8>::empty()));
    }
    loop
        invariant
            forall|j: int| 0 <= j < digits@.len() ==> (#[trigger] digits@[j]) < 10,
            if m > 0 || digits@.len() == 0 {
                dec_str(n as nat) == dec_str(m as nat) + low_digit_chars(digits@)
            } else {
                dec_str(n as nat) == low_digit_chars(digits@)
            },
        ensures
            digits@.len() > 0,
            forall|j: int| 0 <= j < digits@.len() ==> (#[trigger] digits@[j]) < 10,
            dec_str(n as nat) == low_digit_chars(digits@),
        decreases m as int + if digits@.len() == 0 { 1int } else { 0int },
    {
        if m == 0 && digits.len() > 0 {
            break;
        }
        let ghost m0 = m as nat;
        let ghost ds0 = digits@;
        let d = (m % 10) as u8;
        digits.push(d);
        m = m / 10;
        proof {
            assert(ds0.push(d).drop_last() =~= ds0);
            assert(low_digit_chars(ds0.push(d)) =~= seq![digit_char(d as int)] + low_digit_chars(
                ds0,
            ));
            if m0 >= 10 {
                assert(dec_str(m0) == dec_str(m0 / 10).push(digit_char((m0 % 10) as int)));
                assert(dec_str(m0 / 10).push(digit_char(d as int)) =~= dec_str(m0 / 10) + seq![
                    digit_char(d as int),
                ]);
                assert(dec_str(m as nat) + low_digit_chars(digits@) =~= (dec_str(m0 / 10) + seq![
                    digit_char(d as int),
                ]) + low_digit_chars(ds0));
                assert(dec_str(n as nat) == dec_str(m as nat) + low_digit_chars(digits@));
            } else {
                assert(dec_str(m0) == seq![digit_char(m0 as int)]);
                assert(low_digit_chars(digits@) =~= dec_str(m0) + low_digit_chars(ds0));
                assert(dec_str(n as nat) == low_digit_chars(digits@));
            }
        }
    }
    let mut s = String::new();
    let mut i: usize = digits.len();
    proof {
        assert(digits@.take(i as int) =~= digits@);
        assert(s@ + low_digit_chars(digits@.take(i as int)) =~= dec_str(n as nat));
    }
    while i > 0
        invariant
            i <= digits@.len(),
            forall|j: int| 0 <= j < digits@.len() ==> (#[trigger] digits@[j]) < 10,
            s@ + low_digit_chars(digits@.take(i as int)) == dec_str(n as nat),
        decreases i,
    {
        let ghost s0 = s@;
        let ghost i0 = i as int;
        i = i - 1;
        append_digit(&mut s, digits[i]);
        proof {
            assert(digits@.take(i0).drop_last() =~= digits@.take(i as int));
            assert(low_digit_chars(digits@.take(i0)) == seq![
                digit_char(digits@[i as int] as int),
            ] + low_digit_chars(digits@.take(i as int)));
            assert(s@ + low_digit_chars(digits@.take(i as int)) =~= s0 + low_digit_chars(
                digits@.take(i0),
            ));
        }
    }
    proof {
        assert(digits@.take(0) =~= Seq::<u8>::empty());
        assert(s@ =~= dec_str(n as nat));
    }
    s
}

/// The characters for a run of digit values held least-significant
/// first, rendered most-significant first.
pub open spec fn low_digit_chars(ds: Seq<u8>) -> Seq<char>
    decreases ds.len(),
{
    if ds.len() == 0 {
        Seq::empty()
    } else {
        seq![digit_char(ds.last() as int)] + low_digit_chars(ds.drop_last())
    }
}

/// The value of a digit run never goes down when the run is extended
/// to the right.
proof fn lemma_dec_val_extend(s: Seq<char>, i: int)
    requires
        0 <= i <= s.len(),
        forall|j: int| 0 <= j < s.len() ==> 48 <= (#[trigger] s[j]) as int <= 57,
    ensures
        dec_val(s.take(i)) <= dec_val(s),
        dec_val(s.take(i)) >= 0,
    decreases s.len() - i,
{
    lemma_dec_val_nonneg(s.take(i));
    if i < s.len() {
        lemma_dec_val_extend(s, i + 1);
        assert(s.take(i + 1).drop_last() =~= s.take(i));
        assert(dec_val(s.take(i + 1)) == dec_val(s.take(i)) * 10 + (s[i] as int - 48));
    } else {
        assert(s.take(i) =~= s);
    }
}

/// A run of decimal digits has a nonnegative value.
proof fn lemma_dec_val_nonneg(s: Seq<char>)
    requires
        forall|j: int| 0 <= j < s.len() ==> 48 <= (#[trigger] s[j]) as int <= 57,
    ensures
        dec_val(s) >= 0,
    decreases s.len(),
{
    if s.len() > 0 {
        lemma_dec_val_nonneg(s.drop_last());
    }
}

/// The decimal rendering of a number is a digit run whose value is
/// the number itself: rendering and parsing round-trip.
pub proof fn lemma_dec_round_trip(n: nat)
    ensures
        is_dec(dec_str(n)),
        dec_val(dec_str(n)) == n,
    decreases n,
{
    if n < 10 {
        let s = dec_str(n);
        assert(s == seq![digit_char(n as int)]);
        assert(s.drop_last() =~= Seq::<char>::empty());
        assert(s.last() == digit_char(n as int));
        assert(dec_val(Seq::<char>::empty()) == 0);
        assert(48 <= digit_char(n as int) as int <= 57);
        assert(digit_char(n as int) as int == 48 + n);
    } else {
        lemma_dec_round_trip(n / 10);
        let s = dec_str(n);
        let s0 = dec_str(n / 10);
        assert(s == s0.push(digit_char((n % 10) as int)));
        assert(s.drop_last() =~= s0);
        assert(s.last() == digit_char((n % 10) as int));
        assert(digit_char((n % 10) as int) as int == 48 + n % 10);
        assert(dec_val(s) == dec_val(s0) * 10 + n % 10);
        assert(n == (n / 10) * 10 + n % 10) by (nonlinear_arith);
        assert forall|i: int| 0 <= i < s.len() implies 48 <= (#[trigger] s[i]) as int <= 57 by {
            if i < s.len() - 1 {
                assert(s[i] == s0[i]);
            }
        }
    }
}

/// Parses decimal text back into a timestamp. Returns the value
/// exactly when the text is a nonempty digit run whose value fits.
pub fn dec_to_u64(s: &str) -> (r: Option<u64>)
    ensures
        r is Some <==> is_dec(s@) && dec_val(s@) <= u64::MAX,
        r matches Some(v) ==> v as int == dec_val(s@),
{
    let len = s.unicode_len();
    if len == 0 {
        return None;
    }
    let mut acc: u64 = 0;
    let mut i: usize = 0;
    while i < len
        invariant
            0 <= i <= len,
            len == s@.len(),
            forall|j: int| 0 <= j < i ==> 48 <= (#[trigger] s@[j]) as int <= 57,
            acc as int == dec_val(s@.take(i as int)),
        decreases len - i,
    {
        let c = s.get_char(i);
        let v = c as u32;
        if v < 48 || v > 57 {
            return None;
        }
        let d = (v - 48) as u64;
        if acc > (u64::MAX - d) / 10 {
            proof {
                if is_dec(s@) {
                    assert(s@.take(i as int + 1).drop_last() =~= s@.take(i as int));
                    assert(dec_val(s@.take(i as int + 1)) == acc * 10 + d);
                    assert(acc * 10 + d > u64::MAX) by (nonlinear_arith)
                        requires
                            acc > (u64::MAX - d) / 10,
                            d < 10,
                    ;
                    lemma_dec_val_extend(s@, i as int + 1);
                    assert(!(is_dec(s@) && dec_val(s@) <= u64::MAX));
                }
            }
            return None;
        }
        proof {
            assert(acc * 10 + d <= u64::MAX) by (nonlinear_arith)
                requires
                    acc <= (u64::MAX - d) / 10,
                    d < 10,
            ;
            assert(s@.take(i as int + 1).drop_last() =~= s@.take(i as int));
        }
        acc = acc * 10 + d;
        i = i + 1;
    }
    proof {
        assert(s@.take(len as int) =~= s@);
    }
    Some(acc)
}

// ---------------------------------------------------------------
// Record kinds.
// ---------------------------------------------------------------

/// The bucket parameters of one record kind: the key prefix and the
/// length of freshly generated keys.
pub trait BucketInfo {
    spec fn spec_prefix() -> Seq<char>;

    spec fn spec_key_length() -> u8;

    fn prefix() -> (r: &'static str)
        ensures
            r@ == Self::spec_prefix(),
    ;

    fn key_length() -> (r: u8)
        ensures
            r == Self::spec_key_length(),
    ;
}

/// A record body: a persisted value with a default state for freshly
/// created records.
pub trait RecordBody: Sized {
    spec fn is_fresh(&self) -> bool;

    fn fresh() -> (r: Self)
        ensures
            r.is_fresh(),
    ;
}

/// Record metadata: a small flat string map beside the body. A fresh
/// record's metadata is derived from the creation instant; loading
/// decodes the stored map, rejecting malformed entries.
pub trait Metadata: Sized {
    spec fn is_fresh(&self, now: u64) -> bool;

    spec fn decode_spec(pairs: Seq<(String, String)>) -> Option<Self>;

    spec fn encodes(&self, pairs: Seq<(String, String)>) -> bool;

    fn fresh(now: u64) -> (r: Self)
        requires
            now <= u64::MAX - 3600,
        ensures
            r.is_fresh(now),
    ;

    fn from_pairs(pairs: &Vec<(String, String)>) -> (r: Option<Self>)
        ensures
            r == Self::decode_spec(pairs@),
    ;

    fn to_pairs(&self) -> (r: Vec<(String, String)>)
        ensures
            self.encodes(r@),
    ;
}

/// One persisted record: its bare key, its body (absent when the
/// stored object had none), its metadata, and whether it has changed
/// since it was created or loaded and so must be written back.
pub struct Data<O, M, B> {
    pub modified: bool,
    pub key: String,
    pub data: Option<O>,
    pub meta: M,
    pub info: PhantomData<B>,
}

impl<O: RecordBody, M: Metadata, B: BucketInfo> Data<O, M, B> {
    /// The full store key of a record: `<prefix>:<key>`.
    pub fn get_bucket_key(key: &str) -> (r: String)
        ensures
            r@ == B::spec_prefix() + seq![':'] + key@,
    {
        let mut s = String::from_str(B::prefix());
        s.append(":");
        s.append(key);
        proof {
            reveal_strlit(":");
            assert(s@ =~= B::spec_prefix() + seq![':'] + key@);
        }
        s
    }

    /// Strips `<prefix>:` from a full store key, recovering the bare
    /// key.
    pub fn remove_prefix(key: String) -> (r: String)
        requires
            key@.len() >= B::spec_prefix().len() + 1,
        ensures
            r@ == key@.subrange(B::spec_prefix().len() as int + 1, key@.len() as int),
    {
        let plen = B::prefix().unicode_len();
        let klen = key.as_str().unicode_len();
        let s = key.as_str().substring_char(plen + 1, klen);
        String::from_str(s)
    }

    /// A freshly created record: default body and metadata, marked
    /// modified so that it is written back.
    pub fn create(key: String, now: u64) -> (r: Self)
        requires
            now <= u64::MAX - 3600,
        ensures
            r.modified,
            r.key == key,
            r.data matches Some(d) && d.is_fresh(),
            r.meta.is_fresh(now),
    {
        Data { modified: true, key, data: Some(O::fresh()), meta: M::fresh(now), info: PhantomData }
    }

    /// A record assembled from a stored object's decoded parts; not
    /// modified, so writing it back is a no-op.
    pub fn loaded(key: String, data: Option<O>, meta: M) -> (r: Self)
        ensures
            !r.modified,
            r.key == key,
            r.data == data,
            r.meta == meta,
    {
        Data { modified: false, key, data, meta, info: PhantomData }
    }
}

// ---------------------------------------------------------------
// Fresh-key generation.
// ---------------------------------------------------------------

/// The characters a generated key is drawn from.
pub open spec fn key_alphabet() -> Seq<char> {
    "ABCDEFGHIJKLMNOPQRSTUVWXYZ0123456789"@
}

/// Relies on rand's `SeedableRng::seed_from_u64` for `SmallRng`:
/// builds a small-state generator from a seed. Nothing is assumed of
/// the values it will produce.
#[verifier::external_body]
fn rng_from_seed(seed: u64) -> rand::rngs::SmallRng {
    <rand::rngs::SmallRng as rand::SeedableRng>::seed_from_u64(seed)
}

/// Relies on rand's `Rng::random_range` over `0..bound`: returns a
/// value inside the range, and panics only on an empty range, which
/// `bound > 0` rules out.
#[verifier::external_body]
fn rng_below(rng: &mut rand::rngs::SmallRng, bound: u32) -> (r: u32)
    requires
        bound > 0,
    ensures
        r < bound,
{
    rand::Rng::random_range(rng, 0..bound)
}

#[verifier::external_type_specification]
#[verifier::external_body]
pub struct ExSmallRng(rand::rngs::SmallRng);

/// The generator used to draw fresh record keys, seeded from a coarse
/// clock reading. Collision avoidance, not secrecy, is all that is
/// asked of it: the caller retries while the drawn key is taken.
pub fn key_rng(seed: u64) -> (rng: rand::rngs::SmallRng) {
    rng_from_seed(seed)
}

/// Appends the alphabet character with the given index to a string.
fn append_alphabet_char(s: &mut String, idx: u32)
    requires
        idx < 36,
    ensures
        final(s)@ == old(s)@.push(key_alphabet()[idx as int]),
{
    let a: &str = "ABCDEFGHIJKLMNOPQRSTUVWXYZ0123456789";
    let idx = idx as usize;
    proof {
        reveal_strlit("ABCDEFGHIJKLMNOPQRSTUVWXYZ0123456789");
    }
    let c = a.substring_char(idx, idx + 1);
    s.append(c);
    proof {
        assert(final(s)@ =~= old(s)@.push(key_alphabet()[idx as int]));
    }
}

/// Draws one candidate key: `len` characters over `[A-Z0-9]`.
pub fn random_string(rng: &mut rand::rngs::SmallRng, len: u8) -> (r: String)
    ensures
        r@.len() == len,
        forall|i: int| 0 <= i < r@.len() ==> key_alphabet().contains(#[trigger] r@[i]),
{
    let mut s = String::new();
    let mut i: u8 = 0;
    while i < len
        invariant
            i <= len,
            s@.len() == i,
            forall|j: int| 0 <= j < s@.len() ==> key_alphabet().contains(#[trigger] s@[j]),
        decreases len - i,
    {
        let idx = rng_below(rng, 36);
        proof {
            reveal_strlit("ABCDEFGHIJKLMNOPQRSTUVWXYZ0123456789");
            assert(key_alphabet().contains(key_alphabet()[idx as int]));
        }
        append_alphabet_char(&mut s, idx);
        i = i + 1;
    }
    s
}

} // verus!
