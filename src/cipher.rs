//! The RC4 stream cipher, which obscures the guest's console output.
use vstd::prelude::*;

verus! {

/// `s` with the entries at `a` and `b` exchanged.
pub open spec fn swapped(s: Seq<u8>, a: int, b: int) -> Seq<u8> {
    s.update(a, s[b]).update(b, s[a])
}

/// The state and second index after the first `n` rounds of key scheduling.
pub open spec fn key_schedule(key: Seq<u8>, n: nat) -> (Seq<u8>, u8)
    decreases n,
{
    if n == 0 {
        (Seq::new(256, |i: int| i as u8), 0u8)
    } else {
        let (s, j) = key_schedule(key, (n - 1) as nat);
        let i = n - 1;
        let j2 = ((j as int + s[i] as int + key[i % key.len() as int] as int) % 256) as u8;
        (swapped(s, i, j2 as int), j2)
    }
}

/// The state, the two indices and the keystream after `n` bytes of output.
pub open spec fn generate(key: Seq<u8>, n: nat) -> (Seq<u8>, u8, u8, Seq<u8>)
    decreases n,
{
    if n == 0 {
        (key_schedule(key, 256).0, 0u8, 0u8, Seq::empty())
    } else {
        let (s, i, j, ks) = generate(key, (n - 1) as nat);
        let i2 = ((i as int + 1) % 256) as u8;
        let j2 = ((j as int + s[i2 as int] as int) % 256) as u8;
        let s2 = swapped(s, i2 as int, j2 as int);
        let k = s2[((s2[i2 as int] as int + s2[j2 as int] as int) % 256)];
        (s2, i2, j2, ks.push(k))
    }
}

/// The first `n` keystream bytes for `key`.
pub open spec fn keystream(key: Seq<u8>, n: nat) -> Seq<u8> {
    generate(key, n).3
}

/// `data` enciphered with `key`: each byte xored with the keystream byte at
/// its position.
pub open spec fn rc4_spec(data: Seq<u8>, key: Seq<u8>) -> Seq<u8> {
    Seq::new(data.len(), |i: int| data[i] ^ keystream(key, data.len())[i])
}

proof fn lemma_key_schedule_len(key: Seq<u8>, n: nat)
    requires
        key.len() > 0,
        n <= 256,
    ensures
        key_schedule(key, n).0.len() == 256,
    decreases n,
{
    if n > 0 {
        lemma_key_schedule_len(key, (n - 1) as nat);
    }
}

proof fn lemma_generate(key: Seq<u8>, n: nat)
    requires
        key.len() > 0,
    ensures
        generate(key, n).0.len() == 256,
        generate(key, n).3.len() == n,
    decreases n,
{
    lemma_key_schedule_len(key, 256);
    if n > 0 {
        lemma_generate(key, (n - 1) as nat);
    }
}

/// A keystream is a prefix of every longer one.
pub proof fn lemma_keystream_prefix(key: Seq<u8>, m: nat, n: nat)
    requires
        key.len() > 0,
        m <= n,
    ensures
        keystream(key, n).len() == n,
        forall|i: int| 0 <= i < m ==> keystream(key, n)[i] == keystream(key, m)[i],
    decreases n,
{
    lemma_generate(key, n);
    if m < n {
        lemma_keystream_prefix(key, m, (n - 1) as nat);
        lemma_generate(key, (n - 1) as nat);
    }
}

fn swap_at(s: &mut Vec<u8>, a: usize, b: usize)
    requires
        a < old(s)@.len(),
        b < old(s)@.len(),
    ensures
        final(s)@ == swapped(old(s)@, a as int, b as int),
{
    let t = s[a];
    let u = s[b];
    s.set(a, u);
    s.set(b, t);
}

/// Appends to `out` the bytes of `data` enciphered with RC4 under `key`.
pub fn rc4(data: &[u8], key: &[u8], out: &mut Vec<u8>)
    requires
        key@.len() > 0,
    ensures
        final(out)@ == old(out)@ + rc4_spec(data@, key@),
{
    let mut state: Vec<u8> = Vec::with_capacity(256);
    let mut n: usize = 0;
    while n < 256
        invariant
            n <= 256,
            state@ == Seq::new(n as nat, |i: int| i as u8),
        decreases 256 - n,
    {
        state.push(n as u8);
        n += 1;
        assert(state@ =~= Seq::new(n as nat, |i: int| i as u8));
    }
    let klen = key.len();
    let mut j: u8 = 0;
    let mut i: usize = 0;
    while i < 256
        invariant
            i <= 256,
            klen == key@.len(),
            klen > 0,
            (state@, j) == key_schedule(key@, i as nat),
            state@.len() == 256,
        decreases 256 - i,
    {
        proof {
            lemma_key_schedule_len(key@, i as nat);
        }
        let j2 = ((j as usize + state[i] as usize + key[i % klen] as usize) % 256) as u8;
        swap_at(&mut state, i, j2 as usize);
        j = j2;
        i += 1;
    }
    let ghost start = out@;
    let mut a: u8 = 0;
    let mut b: u8 = 0;
    let mut m: usize = 0;
    proof {
        lemma_generate(key@, 0);
    }
    while m < data.len()
        invariant
            m <= data@.len(),
            key@.len() > 0,
            (state@, a, b, keystream(key@, m as nat)) == generate(key@, m as nat),
            state@.len() == 256,
            keystream(key@, m as nat).len() == m,
            out@ == start + Seq::new(m as nat, |k: int| data@[k] ^ keystream(key@, m as nat)[k]),
        decreases data@.len() - m,
    {
        let a2 = ((a as usize + 1) % 256) as u8;
        let b2 = ((b as usize + state[a2 as usize] as usize) % 256) as u8;
        swap_at(&mut state, a2 as usize, b2 as usize);
        let k = state[((state[a2 as usize] as usize + state[b2 as usize] as usize) % 256)];
        out.push(data[m] ^ k);
        a = a2;
        b = b2;
        proof {
            lemma_generate(key@, (m + 1) as nat);
            lemma_keystream_prefix(key@, m as nat, (m + 1) as nat);
            assert(out@ =~= start + Seq::new((m + 1) as nat, |x: int| data@[x] ^ keystream(key@, (m + 1) as nat)[x]));
        }
        m += 1;
    }
    assert(Seq::new(m as nat, |k: int| data@[k] ^ keystream(key@, m as nat)[k]) =~= rc4_spec(data@, key@));
}

} // verus!
