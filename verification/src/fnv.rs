use vstd::prelude::*;

use vstd::utf8::encode_utf8;

use crate::text::{decimal, decimal_string, push_char, push_str};

verus! {

/// The FNV-1a 64-bit offset basis.
pub open spec fn fnv_offset_basis() -> u64 {
    14_695_981_039_346_656_037
}

/// The FNV-1a 64-bit prime.
pub open spec fn fnv_prime() -> u64 {
    1_099_511_628_211
}

/// One FNV-1a step: xor in the byte, multiply by the prime modulo 2^64.
pub open spec fn fnv_step(hash: u64, byte: u8) -> u64 {
    (hash ^ (byte as u64)).wrapping_mul(fnv_prime())
}

/// FNV-1a over `bytes`, continuing from `hash`.
pub open spec fn fnv_fold(hash: u64, bytes: Seq<u8>) -> u64
    decreases bytes.len(),
{
    if bytes.len() == 0 {
        hash
    } else {
        fnv_fold(fnv_step(hash, bytes[0]), bytes.drop_first())
    }
}

pub proof fn lemma_fnv_fold_push(hash: u64, bytes: Seq<u8>, b: u8)
    ensures
        fnv_fold(hash, bytes.push(b)) == fnv_step(fnv_fold(hash, bytes), b),
    decreases bytes.len(),
{
    let pushed = bytes.push(b);
    if bytes.len() == 0 {
        assert(pushed.drop_first() =~= Seq::<u8>::empty());
        assert(fnv_fold(fnv_step(hash, b), Seq::<u8>::empty()) == fnv_step(hash, b));
        assert(fnv_fold(hash, pushed) == fnv_fold(fnv_step(hash, pushed[0]), pushed.drop_first()));
    } else {
        assert(pushed.drop_first() =~= bytes.drop_first().push(b));
        assert(pushed[0] == bytes[0]);
        lemma_fnv_fold_push(fnv_step(hash, bytes[0]), bytes.drop_first(), b);
        assert(fnv_fold(hash, pushed) == fnv_fold(fnv_step(hash, pushed[0]), pushed.drop_first()));
    }
}

/// Continues an FNV-1a hash over `bytes`.
pub fn update_input_fingerprint_hash(hash: u64, bytes: &[u8]) -> (r: u64)
    ensures
        r == fnv_fold(hash, bytes@),
{
    let mut h = hash;
    let mut i: usize = 0;
    while i < bytes.len()
        invariant
            i <= bytes@.len(),
            h == fnv_fold(hash, bytes@.take(i as int)),
        decreases bytes@.len() - i,
    {
        proof {
            lemma_fnv_fold_push(hash, bytes@.take(i as int), bytes@[i as int]);
            assert(bytes@.take(i + 1) =~= bytes@.take(i as int).push(bytes@[i as int]));
        }
        h = h ^ (bytes[i] as u64);
        h = h.wrapping_mul(1_099_511_628_211);
        i = i + 1;
    }
    assert(bytes@.take(bytes@.len() as int) =~= bytes@);
    h
}

/// A lowercase hexadecimal digit.
pub open spec fn hex_digit(d: nat) -> char {
    if d < 10 {
        ((d + 48) as u8) as char
    } else {
        ((d + 87) as u8) as char
    }
}

/// The last `width` hexadecimal digits of `n`, zero-padded.
pub open spec fn hex_fixed(n: nat, width: nat) -> Seq<char>
    decreases width,
{
    if width == 0 {
        Seq::empty()
    } else {
        hex_fixed(n / 16, (width - 1) as nat).push(hex_digit(n % 16))
    }
}

fn hex_digit_exec(d: u64) -> (c: char)
    requires
        d < 16,
    ensures
        c == hex_digit(d as nat),
{
    if d < 10 {
        ((d + 48) as u8) as char
    } else {
        ((d + 87) as u8) as char
    }
}

/// Appends the last `width` hexadecimal digits of `n`.
pub fn push_hex_fixed(s: &mut String, n: u64, width: u64)
    ensures
        final(s)@ == old(s)@ + hex_fixed(n as nat, width as nat),
    decreases width,
{
    if width == 0 {
        assert(s@ =~= old(s)@ + hex_fixed(n as nat, width as nat));
    } else {
        push_hex_fixed(s, n / 16, width - 1);
        push_char(s, hex_digit_exec(n % 16));
        assert(s@ =~= old(s)@ + hex_fixed(n as nat, width as nat));
    }
}

/// The text of a fingerprint: the algorithm's name and sixteen lowercase hexadecimal digits.
pub open spec fn fingerprint_text(hash: u64) -> Seq<char> {
    "fnv1a64:"@ + hex_fixed(hash as nat, 16)
}

/// Renders a hash as a fingerprint text.
pub fn render_fingerprint(hash: u64) -> (r: String)
    ensures
        r@ == fingerprint_text(hash),
{
    let mut s = String::new();
    push_str(&mut s, "fnv1a64:");
    push_hex_fixed(&mut s, hash, 16);
    s
}

/// One input file of a publish readiness fingerprint: its workspace-relative
/// path and its bytes.
pub struct InputFile {
    pub relative_path: String,
    pub contents: Vec<u8>,
}

/// The tag that every publish readiness input hash starts from.
pub open spec fn input_domain() -> Seq<char> {
    "monochange.publishReadiness.inputs.v1"@
}

/// The hash of the input files, in order: the domain tag, then for each file
/// its path, a zero byte, the decimal length of its contents, a zero byte,
/// the contents and a zero byte.
pub open spec fn inputs_hash(files: Seq<InputFile>) -> u64
    decreases files.len(),
{
    if files.len() == 0 {
        fnv_fold(fnv_offset_basis(), encode_utf8(input_domain()))
    } else {
        let f = files.last();
        let h0 = inputs_hash(files.drop_last());
        let h1 = fnv_fold(h0, encode_utf8(f.relative_path@));
        let h2 = fnv_fold(h1, seq![0u8]);
        let h3 = fnv_fold(h2, encode_utf8(decimal(f.contents@.len())));
        let h4 = fnv_fold(h3, seq![0u8]);
        let h5 = fnv_fold(h4, f.contents@);
        fnv_fold(h5, seq![0u8])
    }
}

/// The fingerprint of the publish readiness inputs, given in path order.
pub fn input_fingerprint(files: &[InputFile]) -> (r: String)
    ensures
        r@ == fingerprint_text(inputs_hash(files@)),
{
    let zero: [u8; 1] = [0u8];
    assert(zero@ == seq![0u8]);
    let mut hash: u64 = 14_695_981_039_346_656_037;
    hash = update_input_fingerprint_hash(hash, "monochange.publishReadiness.inputs.v1".as_bytes());
    let mut i: usize = 0;
    while i < files.len()
        invariant
            i <= files@.len(),
            zero@ == seq![0u8],
            hash == inputs_hash(files@.take(i as int)),
        decreases files@.len() - i,
    {
        proof {
            assert(files@.take(i + 1).drop_last() =~= files@.take(i as int));
            assert(files@.take(i + 1).last() == files@[i as int]);
        }
        let f = &files[i];
        hash = update_input_fingerprint_hash(hash, f.relative_path.as_str().as_bytes());
        hash = update_input_fingerprint_hash(hash, zero.as_slice());
        let len_text = decimal_string(f.contents.len() as u64);
        hash = update_input_fingerprint_hash(hash, len_text.as_str().as_bytes());
        hash = update_input_fingerprint_hash(hash, zero.as_slice());
        hash = update_input_fingerprint_hash(hash, f.contents.as_slice());
        hash = update_input_fingerprint_hash(hash, zero.as_slice());
        i = i + 1;
    }
    assert(files@.take(files@.len() as int) =~= files@);
    render_fingerprint(hash)
}

} // verus!
