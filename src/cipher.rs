//! The executable cipher: key schedule, byte generator, buffer and stream transforms.
use crate::lemmas::{lemma_mix_len, lemma_next_index};
use crate::model::{advance, fill, mix, output, schedule, step, swap, transform, CipherState};
use vstd::prelude::*;

verus! {

/// Why a key cannot be scheduled.
#[derive(Debug, Clone, Copy, PartialEq, Eq, Structural)]
pub enum KeyError {
    /// The key holds no bytes.
    InvalidKey,
}

/// The cipher state: a table of 256 bytes and two byte cursors.
pub struct RC4Key {
    pub state: [u8; 256],
    pub x: u8,
    pub y: u8,
}

impl View for RC4Key {
    type V = CipherState;

    open spec fn view(&self) -> CipherState {
        CipherState { table: self.state@, x: self.x, y: self.y }
    }
}

/// Exchanges the entries of `t` at `a` and `b`.
fn swap_entries(t: &mut [u8; 256], a: usize, b: usize)
    requires
        a < 256,
        b < 256,
    ensures
        final(t)@ == swap(old(t)@, a as int, b as int),
{
    let ta = t[a];
    let tb = t[b];
    t[a] = tb;
    t[b] = ta;
}

impl RC4Key {
    /// A state with an all-zero table and both cursors at zero; schedule it before use.
    pub fn new() -> (r: Self)
        ensures
            r@.table == Seq::new(256, |i: int| 0u8),
            r@.x == 0,
            r@.y == 0,
    {
        let r = RC4Key { state: [0u8; 256], x: 0, y: 0 };
        assert(r@.table =~= Seq::new(256, |i: int| 0u8));
        r
    }

    /// Key scheduling. Slots 1 to 255 of the table are set to their own index
    /// (slot 0 keeps its value), both cursors are reset, and 255 mixing rounds
    /// run over the counters 1 to 255, cycling through the key. Only the first
    /// 255 key bytes can take part. An empty key is refused and the state is
    /// left as it was.
    pub fn init(&mut self, key_data: &[u8]) -> (r: Result<(), KeyError>)
        ensures
            key_data@.len() == 0 ==> r == Err::<(), KeyError>(KeyError::InvalidKey)
                && final(self)@ == old(self)@,
            key_data@.len() > 0 ==> r is Ok && final(self)@ == schedule(old(self)@.table, key_data@),
    {
        if key_data.len() == 0 {
            return Err(KeyError::InvalidKey);
        }
        let ghost t0 = self.state@[0];
        let mut c: usize = 1;
        while c < 256
            invariant
                1 <= c <= 256,
                self.state@[0] == t0,
                forall|k: int| 1 <= k < c ==> self.state@[k] == k as u8,
            decreases 256 - c,
        {
            self.state[c] = c as u8;
            c += 1;
        }
        assert(self.state@ =~= fill(t0));
        self.x = 0;
        self.y = 0;
        let len = key_data.len();
        let mut i: usize = 0;
        let mut j: u8 = 0;
        let mut c: usize = 1;
        while c < 256
            invariant
                1 <= c <= 256,
                len == key_data@.len(),
                len > 0,
                i == (c - 1) % (len as int),
                (self.state@, j) == mix(fill(t0), key_data@, (c - 1) as nat),
                self.x == 0,
                self.y == 0,
            decreases 256 - c,
        {
            proof {
                lemma_mix_len(fill(t0), key_data@, (c - 1) as nat);
                lemma_next_index((c - 1) as nat, len as nat);
            }
            j = j.wrapping_add(key_data[i]).wrapping_add(self.state[c]);
            swap_entries(&mut self.state, c, j as usize);
            i = (i + 1) % len;
            c += 1;
        }
        assert(fill(t0)[0] == t0);
        Ok(())
    }

    /// The byte generator: one step of the state, and the byte it emits.
    pub fn next_byte(&mut self) -> (r: u8)
        ensures
            final(self)@ == step(old(self)@),
            r == output(old(self)@),
    {
        self.x = self.x.wrapping_add(1);
        self.y = self.y.wrapping_add(self.state[self.x as usize]);
        swap_entries(&mut self.state, self.x as usize, self.y as usize);
        let i = self.state[self.x as usize].wrapping_add(self.state[self.y as usize]);
        self.state[i as usize]
    }
}

/// The stream transform for one pulled element: combines `b` with the byte of
/// one generator step.
pub fn rc4_g(b: u8, k: &mut RC4Key) -> (r: u8)
    ensures
        final(k)@ == step(old(k)@),
        r == b ^ output(old(k)@),
{
    b ^ k.next_byte()
}

} // verus!

verus! {

/// The buffer transform: combines each byte of `buf`, in order, with the byte
/// of one generator step, in place.
pub fn rc4(buf: &mut [u8], k: &mut RC4Key)
    ensures
        final(buf)@ == transform(old(k)@, old(buf)@),
        final(k)@ == advance(old(k)@, old(buf)@.len()),
{
    let ghost s0 = k@;
    let ghost b0 = buf@;
    let n = buf.len();
    let mut i: usize = 0;
    while i < n
        invariant
            0 <= i <= n,
            n == b0.len(),
            buf@.len() == n,
            k@ == advance(s0, i as nat),
            forall|m: int| 0 <= m < i ==> buf@[m] == b0[m] ^ output(advance(s0, m as nat)),
            forall|m: int| i <= m < n ==> buf@[m] == b0[m],
        decreases n - i,
    {
        let b = buf[i];
        buf[i] = b ^ k.next_byte();
        i += 1;
    }
    assert(buf@ =~= transform(s0, b0));
}

} // verus!
