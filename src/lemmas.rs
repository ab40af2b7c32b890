//! Facts about the model, and the laws the cipher obeys.
use crate::model::{
    advance, fill, is_permutation, keystream, mix, schedule, step, stream_apply, swap,
    transform, xor_bytes, CipherState,
};
use vstd::arithmetic::div_mod::{lemma_add_mod_noop, lemma_small_mod};
use vstd::prelude::*;

verus! {

/// Mixing keeps the length of the table.
pub proof fn lemma_mix_len(t: Seq<u8>, key: Seq<u8>, c: nat)
    requires
        t.len() == 256,
        c <= 255,
    ensures
        mix(t, key, c).0.len() == t.len(),
    decreases c,
{
    if c > 0 {
        lemma_mix_len(t, key, (c - 1) as nat);
    }
}

/// Advancing an index modulo `m` by one.
pub proof fn lemma_next_index(a: nat, m: nat)
    requires
        m > 0,
    ensures
        ((a % m) + 1) % m == (a + 1) % m,
{
    lemma_add_mod_noop(a as int, 1, m as int);
    if m > 1 {
        assert(1int % (m as int) == 1) by {
            lemma_small_mod(1, m);
        }
    }
}

/// Stepping first and then advancing `i` steps is advancing `i + 1` steps.
pub proof fn lemma_advance_shift(s: CipherState, i: nat)
    ensures
        advance(step(s), i) == advance(s, i + 1),
    decreases i,
{
    if i > 0 {
        lemma_advance_shift(s, (i - 1) as nat);
    } else {
        assert(advance(s, 0) == s);
    }
}

/// Combining twice with the same keystream gives the data back.
pub proof fn lemma_xor_twice(data: Seq<u8>, ks: Seq<u8>)
    requires
        ks.len() >= data.len(),
    ensures
        xor_bytes(xor_bytes(data, ks), ks) == data,
{
    assert forall|i: int| 0 <= i < data.len() implies #[trigger] xor_bytes(
        xor_bytes(data, ks),
        ks,
    )[i] == data[i] by {
        let (a, k) = (data[i], ks[i]);
        assert((a ^ k) ^ k == a) by (bit_vector);
    }
    assert(xor_bytes(xor_bytes(data, ks), ks) =~= data);
}

/// Streaming and buffering agree: pulling the stream transform element by
/// element over `src` yields byte for byte what the buffer transform yields
/// from the same state.
pub proof fn lemma_stream_matches_buffer(s: CipherState, src: Seq<u8>)
    ensures
        stream_apply(s, src) == transform(s, src),
    decreases src.len(),
{
    if src.len() > 0 {
        let rest = src.drop_first();
        lemma_stream_matches_buffer(step(s), rest);
        assert forall|i: int| 0 <= i < src.len() implies #[trigger] stream_apply(s, src)[i]
            == transform(s, src)[i] by {
            if i > 0 {
                lemma_advance_shift(s, (i - 1) as nat);
                assert(stream_apply(s, src)[i] == transform(step(s), rest)[i - 1]);
            }
        }
        assert(stream_apply(s, src) =~= transform(s, src));
    }
}

/// The schedule reads only slot 0 of the table it overwrites.
pub proof fn lemma_schedule_slot_zero(t1: Seq<u8>, t2: Seq<u8>, key: Seq<u8>)
    requires
        t1[0] == t2[0],
    ensures
        schedule(t1, key) == schedule(t2, key),
{
}

/// Round trip: transform a buffer from a state scheduled with `key`, schedule
/// the resulting state again with the same key, and transform the result:
/// the original buffer comes back. Scheduling keeps slot 0 of the table, so
/// this holds when slot 0 after the first transform holds what it held before
/// the first schedule.
pub proof fn lemma_round_trip(table: Seq<u8>, key: Seq<u8>, plain: Seq<u8>)
    requires
        advance(schedule(table, key), plain.len()).table[0] == table[0],
    ensures
        ({
            let first = schedule(table, key);
            let cipher = transform(first, plain);
            let second = schedule(advance(first, plain.len()).table, key);
            transform(second, cipher) == plain
        }),
{
    let first = schedule(table, key);
    lemma_schedule_slot_zero(advance(first, plain.len()).table, table, key);
    lemma_xor_twice(plain, keystream(first, plain.len()));
}

/// Round trip over two states whose slot 0 agrees (two freshly created
/// states, say): transforming with one and then with the other, both
/// scheduled with `key`, gives the buffer back.
pub proof fn lemma_round_trip_fresh(t1: Seq<u8>, t2: Seq<u8>, key: Seq<u8>, plain: Seq<u8>)
    requires
        t1[0] == t2[0],
    ensures
        transform(schedule(t2, key), transform(schedule(t1, key), plain)) == plain,
{
    lemma_schedule_slot_zero(t1, t2, key);
    lemma_xor_twice(plain, keystream(schedule(t1, key), plain.len()));
}

/// Determinism: two tables with the same slot 0, scheduled with the same key,
/// give the same state, and so the same output for the same input.
pub proof fn lemma_deterministic(t1: Seq<u8>, t2: Seq<u8>, key: Seq<u8>, data: Seq<u8>)
    requires
        t1[0] == t2[0],
    ensures
        schedule(t1, key) == schedule(t2, key),
        transform(schedule(t1, key), data) == transform(schedule(t2, key), data),
{
    lemma_schedule_slot_zero(t1, t2, key);
}

/// Exchanging two entries keeps a permutation a permutation.
pub proof fn lemma_swap_permutation(t: Seq<u8>, a: int, b: int)
    requires
        is_permutation(t),
        0 <= a < 256,
        0 <= b < 256,
    ensures
        is_permutation(swap(t, a, b)),
{
    let u = swap(t, a, b);
    assert forall|v: u8| #[trigger] u.contains(v) by {
        assert(t.contains(v));
        let i = choose|i: int| 0 <= i < t.len() && t[i] == v;
        let k = if i == a {
            b
        } else if i == b {
            a
        } else {
            i
        };
        assert(u[k] == v);
    }
}

/// A generator step keeps the table a permutation.
pub proof fn lemma_step_permutation(s: CipherState)
    requires
        is_permutation(s.table),
    ensures
        is_permutation(step(s).table),
{
    let x = step(s).x;
    let y = step(s).y;
    lemma_swap_permutation(s.table, x as int, y as int);
}

/// Permutation invariant of the generator: after any number of steps from a
/// state whose table is a permutation, the table is still a permutation.
pub proof fn lemma_advance_permutation(s: CipherState, n: nat)
    requires
        is_permutation(s.table),
    ensures
        is_permutation(advance(s, n).table),
    decreases n,
{
    if n > 0 {
        lemma_advance_permutation(s, (n - 1) as nat);
        lemma_step_permutation(advance(s, (n - 1) as nat));
    }
}

/// Mixing rounds keep a permutation a permutation.
pub proof fn lemma_mix_permutation(t: Seq<u8>, key: Seq<u8>, c: nat)
    requires
        is_permutation(t),
        c <= 255,
    ensures
        is_permutation(mix(t, key, c).0),
    decreases c,
{
    if c > 0 {
        lemma_mix_permutation(t, key, (c - 1) as nat);
        let (p, j) = mix(t, key, c);
        let prev = mix(t, key, (c - 1) as nat);
        lemma_swap_permutation(prev.0, c as int, j as int);
    }
}

/// Permutation invariant of the schedule: scheduling over a table whose slot 0
/// holds 0 (as a freshly created state's does) yields a permutation.
pub proof fn lemma_schedule_permutation(table: Seq<u8>, key: Seq<u8>)
    requires
        table[0] == 0,
    ensures
        is_permutation(schedule(table, key).table),
{
    let f = fill(0);
    assert forall|v: u8| #[trigger] f.contains(v) by {
        assert(f[v as int] == v);
    }
    lemma_mix_permutation(f, key, 255);
}

/// Rounds up to 255 read only the first 255 key bytes.
pub proof fn lemma_mix_key_prefix(t: Seq<u8>, key: Seq<u8>, c: nat)
    requires
        key.len() >= 255,
        c <= 255,
    ensures
        mix(t, key, c) == mix(t, key.subrange(0, 255), c),
    decreases c,
{
    if c > 0 {
        lemma_mix_key_prefix(t, key, (c - 1) as nat);
        lemma_small_mod((c - 1) as nat, key.len());
        lemma_small_mod((c - 1) as nat, 255);
    }
}

/// Key-length boundary: a key of 255 bytes or more schedules exactly as its
/// first 255 bytes do.
pub proof fn lemma_long_key(table: Seq<u8>, key: Seq<u8>)
    requires
        key.len() >= 255,
    ensures
        schedule(table, key) == schedule(table, key.subrange(0, 255)),
{
    lemma_mix_key_prefix(fill(table[0]), key, 255);
}

/// Non-identity: the transform changes a buffer exactly when one of the
/// generator bytes it uses is not zero.
pub proof fn lemma_non_identity(s: CipherState, data: Seq<u8>)
    ensures
        transform(s, data) != data <==> exists|i: int|
            0 <= i < data.len() && #[trigger] keystream(s, data.len())[i] != 0,
{
    let ks = keystream(s, data.len());
    let out = transform(s, data);
    if out != data {
        if forall|i: int| 0 <= i < data.len() ==> #[trigger] ks[i] == 0 {
            assert forall|i: int| 0 <= i < data.len() implies out[i] == data[i] by {
                let (a, k) = (data[i], ks[i]);
                assert(k == 0 ==> a ^ k == a) by (bit_vector);
            }
            assert(out =~= data);
        }
    }
    if exists|i: int| 0 <= i < data.len() && #[trigger] ks[i] != 0 {
        let i = choose|i: int| 0 <= i < data.len() && #[trigger] ks[i] != 0;
        let (a, k) = (data[i], ks[i]);
        assert(k != 0 ==> a ^ k != a) by (bit_vector);
        assert(out[i] != data[i]);
    }
}

} // verus!
