//! Mathematical model of the cipher: the state as a sequence and two cursors,
//! and the key schedule, generator step and keystream as spec functions.
use vstd::prelude::*;

verus! {

/// Abstract cipher state: the table as a sequence of bytes and the two cursors.
pub struct CipherState {
    pub table: Seq<u8>,
    pub x: u8,
    pub y: u8,
}

/// Byte addition modulo 256.
pub open spec fn add8(a: u8, b: u8) -> u8 {
    ((a + b) % 256) as u8
}

/// `t` with the entries at `a` and `b` exchanged.
pub open spec fn swap(t: Seq<u8>, a: int, b: int) -> Seq<u8> {
    t.update(a, t[b]).update(b, t[a])
}

/// One generator step: advance `x`, accumulate `table[x]` into `y`, swap the two entries.
pub open spec fn step(s: CipherState) -> CipherState {
    let x = add8(s.x, 1);
    let y = add8(s.y, s.table[x as int]);
    CipherState { table: swap(s.table, x as int, y as int), x, y }
}

/// The byte that the generator emits when it steps from `s`.
pub open spec fn output(s: CipherState) -> u8 {
    let t = step(s);
    t.table[add8(t.table[t.x as int], t.table[t.y as int]) as int]
}

/// The state after `n` generator steps from `s`.
pub open spec fn advance(s: CipherState, n: nat) -> CipherState
    decreases n,
{
    if n == 0 {
        s
    } else {
        step(advance(s, (n - 1) as nat))
    }
}

/// The first `n` bytes the generator emits from `s`.
pub open spec fn keystream(s: CipherState, n: nat) -> Seq<u8> {
    Seq::new(n, |i: int| output(advance(s, i as nat)))
}

/// `data` combined with `ks` byte by byte by exclusive-or.
pub open spec fn xor_bytes(data: Seq<u8>, ks: Seq<u8>) -> Seq<u8> {
    Seq::new(data.len(), |i: int| data[i] ^ ks[i])
}

/// The transform of a whole buffer from state `s`.
pub open spec fn transform(s: CipherState, data: Seq<u8>) -> Seq<u8> {
    xor_bytes(data, keystream(s, data.len()))
}

/// The stream transform: each element pulled from `src` is combined with the
/// byte of one generator step, front to back.
pub open spec fn stream_apply(s: CipherState, src: Seq<u8>) -> Seq<u8>
    decreases src.len(),
{
    if src.len() == 0 {
        Seq::empty()
    } else {
        seq![src[0] ^ output(s)] + stream_apply(step(s), src.drop_first())
    }
}

/// The table before mixing: slot 0 keeps `t0`, slots 1 to 255 hold their own index.
pub open spec fn fill(t0: u8) -> Seq<u8> {
    Seq::new(256, |i: int| if i == 0 { t0 } else { i as u8 })
}

/// The table and the accumulator `j` after the mixing rounds for counters `1..=c`.
/// Round `c` reads key byte `(c - 1) mod key.len()`.
pub open spec fn mix(t: Seq<u8>, key: Seq<u8>, c: nat) -> (Seq<u8>, u8)
    decreases c,
{
    if c == 0 {
        (t, 0u8)
    } else {
        let (p, j0) = mix(t, key, (c - 1) as nat);
        let j = add8(add8(j0, key[(c - 1) % (key.len() as int)]), p[c as int]);
        (swap(p, c as int, j as int), j)
    }
}

/// The state that scheduling `key` produces over a table whose slot 0 holds `table[0]`.
pub open spec fn schedule(table: Seq<u8>, key: Seq<u8>) -> CipherState {
    CipherState { table: mix(fill(table[0]), key, 255).0, x: 0, y: 0 }
}

/// Every byte value occurs in `t`, at exactly one of its 256 positions.
pub open spec fn is_permutation(t: Seq<u8>) -> bool {
    &&& t.len() == 256
    &&& forall|v: u8| #[trigger] t.contains(v)
    &&& forall|i: int, j: int| 0 <= i < 256 && 0 <= j < 256 && i != j ==> t[i] != t[j]
}

} // verus!
