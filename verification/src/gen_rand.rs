//! Random passwords over a chosen set of characters.

use rand::Rng;
use vstd::prelude::*;

verus! {

/// The capital letters `A` to `Z`.
pub open spec fn upper_letters() -> Seq<u8> {
    Seq::new(26, |i: int| (65 + i) as u8)
}

/// The small letters `a` to `z`.
pub open spec fn lower_letters() -> Seq<u8> {
    Seq::new(26, |i: int| (97 + i) as u8)
}

/// The digits `0` to `9`.
pub open spec fn digits() -> Seq<u8> {
    Seq::new(10, |i: int| (48 + i) as u8)
}

/// The signs `)(*&^%$#@!~`.
pub open spec fn signs() -> Seq<u8> {
    seq![41u8, 40u8, 42u8, 38u8, 94u8, 37u8, 36u8, 35u8, 64u8, 33u8, 126u8]
}

/// The characters that a password is drawn from: the chosen classes, one
/// behind the other.
pub open spec fn charset(up: bool, down: bool, num: bool, punc: bool) -> Seq<u8> {
    (if up {
        upper_letters()
    } else {
        Seq::empty()
    }) + (if down {
        lower_letters()
    } else {
        Seq::empty()
    }) + (if num {
        digits()
    } else {
        Seq::empty()
    }) + (if punc {
        signs()
    } else {
        Seq::empty()
    })
}

/// The password that a list of picks stands for: for each pick the character
/// at that place in `chars`.
pub open spec fn picked(chars: Seq<u8>, picks: Seq<usize>) -> Seq<char> {
    Seq::new(picks.len(), |i: int| chars[picks[i] as int] as char)
}

/// Appends the `count` characters that follow one another from `first`.
fn push_run(chars: &mut Vec<u8>, first: u8, count: u8)
    requires
        first + count <= 256,
    ensures
        final(chars)@ == old(chars)@ + Seq::new(count as nat, |i: int| (first + i) as u8),
{
    let ghost before = chars@;
    let mut i: u8 = 0;
    while i < count
        invariant
            i <= count,
            first + count <= 256,
            chars@ == before + Seq::new(i as nat, |k: int| (first + k) as u8),
        decreases count - i,
    {
        chars.push(first + i);
        i += 1;
    }
}

/// The characters that a password is drawn from.
pub fn charset_of(up: bool, down: bool, num: bool, punc: bool) -> (r: Vec<u8>)
    ensures
        r@ == charset(up, down, num, punc),
{
    let mut chars: Vec<u8> = Vec::new();
    if up {
        push_run(&mut chars, 65, 26);
    }
    if down {
        push_run(&mut chars, 97, 26);
    }
    if num {
        push_run(&mut chars, 48, 10);
    }
    if punc {
        let ghost before = chars@;
        chars.push(41);
        chars.push(40);
        chars.push(42);
        chars.push(38);
        chars.push(94);
        chars.push(37);
        chars.push(36);
        chars.push(35);
        chars.push(64);
        chars.push(33);
        chars.push(126);
        assert(chars@ =~= before + signs());
    }
    assert(chars@ =~= charset(up, down, num, punc));
    chars
}

/// A number below `bound` from `rand::thread_rng().gen_range(0..bound)`. Of
/// which number it is nothing is known.
#[verifier::external_body]
fn random_below(bound: usize) -> (r: usize)
    requires
        bound > 0,
    ensures
        r < bound,
{
    rand::thread_rng().gen_range(0..bound)
}

/// The password that `picks` stands for.
pub fn passwd_from_picks(chars: &Vec<u8>, picks: &Vec<usize>) -> (r: String)
    requires
        forall|i: int| 0 <= i < picks@.len() ==> picks@[i] < chars@.len(),
    ensures
        r@ == picked(chars@, picks@),
{
    let mut password = String::new();
    let mut i: usize = 0;
    while i < picks.len()
        invariant
            i <= picks@.len(),
            forall|k: int| 0 <= k < picks@.len() ==> picks@[k] < chars@.len(),
            password@ == picked(chars@, picks@).take(i as int),
        decreases picks@.len() - i,
    {
        password.push(chars[picks[i]] as char);
        i += 1;
    }
    password
}

/// A random password of `len` characters, each drawn from the chosen
/// classes: capital letters, small letters, digits, and the signs
/// `)(*&^%$#@!~`. A chosen class need not occur in the password. The
/// password is empty where `len` is 0 or no class is chosen.
pub fn gen_passwd(up: bool, down: bool, num: bool, punc: bool, len: usize) -> (r: String)
    ensures
        len == 0 || charset(up, down, num, punc).len() == 0 ==> r@.len() == 0,
        len > 0 && charset(up, down, num, punc).len() > 0 ==> exists|picks: Seq<usize>|
            picks.len() == len && (forall|i: int|
                0 <= i < len ==> picks[i] < charset(up, down, num, punc).len()) && r@ == picked(
                charset(up, down, num, punc),
                picks,
            ),
{
    if len == 0 {
        return String::new();
    }
    let chars = charset_of(up, down, num, punc);
    let chars_len = chars.len();
    if chars_len == 0 {
        return String::new();
    }
    let mut picks: Vec<usize> = Vec::new();
    let mut i: usize = 0;
    while i < len
        invariant
            i <= len,
            chars_len == chars@.len(),
            chars_len > 0,
            picks@.len() == i,
            forall|k: int| 0 <= k < i ==> picks@[k] < chars_len,
        decreases len - i,
    {
        picks.push(random_below(chars_len));
        i += 1;
    }
    passwd_from_picks(&chars, &picks)
}

} // verus!
