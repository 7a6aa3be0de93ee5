//! Properties of the cipher that relate several calls, proved over the model.
use crate::model::{word_count, xor_words, Mode, State, INITKONST};
use vstd::prelude::*;

verus! {

/// Processing a sequence of chunks one call after another: the state after
/// the last and everything written, in order.
pub open spec fn run_chunks(s: State, m: Mode, parts: Seq<Seq<u8>>) -> (State, Seq<u8>)
    decreases parts.len(),
{
    if parts.len() == 0 {
        (s, Seq::empty())
    } else {
        let (t, out) = s.run(m, parts[0]);
        let (u, rest) = run_chunks(t, m, parts.drop_first());
        (u, out + rest)
    }
}

/// Processing a prefix reads no byte beyond it.
pub proof fn lemma_run_prefix_agree(s: State, m: Mode, p: Seq<u8>, q: Seq<u8>, k: nat)
    requires
        k <= p.len(),
        k <= q.len(),
        forall|j: int| 0 <= j < k ==> p[j] == q[j],
    ensures
        s.run_prefix(m, p, k) == s.run_prefix(m, q, k),
    decreases k,
{
    if k > 0 {
        lemma_run_prefix_agree(s, m, p, q, (k - 1) as nat);
    }
}

/// One byte written for each byte processed.
pub proof fn lemma_run_prefix_len(s: State, m: Mode, p: Seq<u8>, k: nat)
    ensures
        s.run_prefix(m, p, k).1.len() == k,
    decreases k,
{
    if k > 0 {
        lemma_run_prefix_len(s, m, p, (k - 1) as nat);
    }
}

/// Processing `p1` and then `p2` in two calls is processing `p1 + p2` in one.
pub proof fn lemma_run_concat(s: State, m: Mode, p1: Seq<u8>, p2: Seq<u8>)
    ensures
        ({
            let (t, o1) = s.run(m, p1);
            let (u, o2) = t.run(m, p2);
            s.run(m, p1 + p2) == (u, o1 + o2)
        }),
{
    let p = p1 + p2;
    let (t, o1) = s.run(m, p1);
    lemma_run_prefix_agree(s, m, p, p1, p1.len());
    lemma_run_concat_from(s, m, p1, p2, p2.len());
    assert(p.len() == p1.len() + p2.len());
}

proof fn lemma_run_concat_from(s: State, m: Mode, p1: Seq<u8>, p2: Seq<u8>, k: nat)
    requires
        k <= p2.len(),
        s.run_prefix(m, p1 + p2, p1.len()) == s.run(m, p1),
    ensures
        ({
            let (t, o1) = s.run(m, p1);
            let (u, o2) = t.run_prefix(m, p2, k);
            s.run_prefix(m, p1 + p2, p1.len() + k) == (u, o1 + o2)
        }),
    decreases k,
{
    let (t, o1) = s.run(m, p1);
    if k == 0 {
        assert(o1 + Seq::<u8>::empty() =~= o1);
    } else {
        lemma_run_concat_from(s, m, p1, p2, (k - 1) as nat);
        let (u, o2) = t.run_prefix(m, p2, (k - 1) as nat);
        assert((p1 + p2)[p1.len() + k - 1] == p2[k - 1]);
        let (v, b) = u.step(m, p2[k - 1]);
        assert(o1 + o2.push(b) =~= (o1 + o2).push(b));
    }
}

/// Chunking independence: processing the chunks of a message in separate
/// calls writes the same bytes and leaves the same state, hence gives the
/// same MAC, as processing the whole message in one call. This holds in
/// every mode.
pub proof fn lemma_chunking(s: State, m: Mode, parts: Seq<Seq<u8>>)
    ensures
        run_chunks(s, m, parts) == s.run(m, parts.flatten()),
    decreases parts.len(),
{
    if parts.len() > 0 {
        let (t, out) = s.run(m, parts[0]);
        lemma_chunking(t, m, parts.drop_first());
        lemma_run_concat(s, m, parts[0], parts.drop_first().flatten());
        assert(parts.flatten() == parts[0] + parts.drop_first().flatten());
    } else {
        assert(s.run(m, Seq::empty()) == (s, Seq::<u8>::empty()));
    }
}

/// Decrypting one byte of ciphertext undoes its encryption and leaves the
/// same state.
proof fn lemma_step_inverse(s: State, b: u8)
    ensures
        s.step(Mode::Decrypt, s.step(Mode::Encrypt, b).1) == (s.step(Mode::Encrypt, b).0, b),
{
    let k = (if s.nbuf == 0 {
        s.opened()
    } else {
        s
    }).key_byte();
    assert((b ^ k) ^ k == b) by (bit_vector);
}

proof fn lemma_run_inverse(s: State, p: Seq<u8>)
    ensures
        ({
            let (a, c) = s.run(Mode::Encrypt, p);
            s.run(Mode::Decrypt, c) == (a, p)
        }),
    decreases p.len(),
{
    let (a, c) = s.run(Mode::Encrypt, p);
    lemma_run_prefix_len(s, Mode::Encrypt, p, p.len());
    if p.len() == 0 {
        assert(c =~= p);
    } else {
        let q = p.drop_last();
        lemma_run_inverse(s, q);
        lemma_run_prefix_agree(s, Mode::Encrypt, p, q, q.len());
        let (a1, c1) = s.run(Mode::Encrypt, q);
        lemma_run_prefix_len(s, Mode::Encrypt, q, q.len());
        assert(c == c1.push(c[c.len() - 1]));
        assert(c.drop_last() =~= c1);
        lemma_run_prefix_agree(s, Mode::Decrypt, c, c1, c1.len());
        lemma_step_inverse(a1, p.last());
        assert(q.push(p.last()) =~= p);
    }
}

/// Decryption inverts encryption: two contexts keyed with `key` and seeded
/// with `nonce`, one encrypting `p` and the other decrypting the result,
/// recover `p`, end in the same state and so give the same MAC of any
/// length `n`.
pub proof fn lemma_decrypt_inverts_encrypt(key: Seq<u8>, nonce: Seq<u8>, p: Seq<u8>, n: nat)
    ensures
        ({
            let s = State::keyed(key).nonced(nonce);
            let (a, c) = s.run(Mode::Encrypt, p);
            let (b, q) = s.run(Mode::Decrypt, c);
            &&& q == p
            &&& b == a
            &&& b.finished(n).1 == a.finished(n).1
        }),
{
    lemma_run_inverse(State::keyed(key).nonced(nonce), p);
}

proof fn lemma_run_same_state(s: State, p: Seq<u8>, k: nat)
    ensures
        s.run_prefix(Mode::Encrypt, p, k).0 == s.run_prefix(Mode::MacOnly, p, k).0,
    decreases k,
{
    if k > 0 {
        lemma_run_same_state(s, p, (k - 1) as nat);
    }
}

/// Encryption and MAC-only processing of the same plaintext leave the same
/// state, so the MAC of an encrypted message is the MAC of its plaintext
/// taken alone.
pub proof fn lemma_encrypt_mac_is_maconly_mac(s: State, p: Seq<u8>, n: nat)
    ensures
        s.run(Mode::Encrypt, p).0 == s.run(Mode::MacOnly, p).0,
        s.run(Mode::Encrypt, p).0.finished(n) == s.run(Mode::MacOnly, p).0.finished(n),
{
    lemma_run_same_state(s, p, p.len());
}

proof fn lemma_stream_prefix(s: State, p: Seq<u8>, q: Seq<u8>, k: nat)
    requires
        k <= p.len(),
        k <= q.len(),
    ensures
        s.run_prefix(Mode::Stream, p, k) == s.run_prefix(Mode::Stream, q, k),
        s.run_prefix(Mode::Stream, p, k).0.crc == s.crc,
    decreases k,
{
    if k > 0 {
        lemma_stream_prefix(s, p, q, (k - 1) as nat);
    }
}

/// Keystream output takes nothing into the MAC: the CRC accumulator is left
/// as it was, and what is written depends on the length of the buffer alone,
/// never on the bytes it held.
pub proof fn lemma_stream_leaves_mac(s: State, p: Seq<u8>, q: Seq<u8>)
    requires
        p.len() == q.len(),
    ensures
        s.run(Mode::Stream, p).0.crc == s.crc,
        s.run(Mode::Stream, p) == s.run(Mode::Stream, q),
{
    lemma_stream_prefix(s, p, q, p.len());
}

proof fn lemma_diffused_frame(a: State, b: State, n: nat)
    requires
        a.r == b.r,
        a.konst == b.konst,
        a.init_r == b.init_r,
        a.crc == b.crc,
        a.sbuf == b.sbuf || n > 0,
    ensures
        a.diffused(n).r == b.diffused(n).r,
        a.diffused(n).sbuf == b.diffused(n).sbuf,
        a.diffused(n).crc == b.diffused(n).crc,
        a.diffused(n).konst == b.diffused(n).konst,
        a.diffused(n).init_r == a.init_r,
        a.diffused(n).mbuf == a.mbuf,
        a.diffused(n).nbuf == a.nbuf,
        b.diffused(n).init_r == b.init_r,
    decreases n,
{
    if n > 1 {
        lemma_diffused_frame(a, b, (n - 1) as nat);
    } else if n == 1 {
        lemma_diffused_frame(a, a, 0);
        lemma_diffused_frame(b, b, 0);
    }
}

proof fn lemma_absorbed_frame(a: State, b: State, key: Seq<u8>, k: nat)
    requires
        a.r == b.r,
        a.konst == b.konst,
        a.init_r == b.init_r,
    ensures
        a.absorbed(key, k).r == b.absorbed(key, k).r,
        a.absorbed(key, k).konst == b.absorbed(key, k).konst,
        a.absorbed(key, k).init_r == a.init_r,
        b.absorbed(key, k).init_r == b.init_r,
    decreases k,
{
    if k > 0 {
        lemma_absorbed_frame(a, b, key, (k - 1) as nat);
    }
}

/// Loading material into two states that agree on the register, the round
/// constant and the saved register gives states that agree on everything
/// but the partial-word buffer.
proof fn lemma_loaded_frame(a: State, b: State, key: Seq<u8>)
    requires
        a.r == b.r,
        a.konst == b.konst,
        a.init_r == b.init_r,
    ensures
        (State { mbuf: 0, nbuf: 0, ..a.loaded(key) }) == (State { mbuf: 0, nbuf: 0, ..b.loaded(key) }),
        a.loaded(key).init_r == a.init_r,
{
    let k = word_count(key.len());
    lemma_absorbed_frame(a, b, key, k);
    let sa = a.absorbed(key, k).keyed_with(key.len() as u32).cycled();
    let sb = b.absorbed(key, k).keyed_with(key.len() as u32).cycled();
    lemma_diffused_frame(State { crc: sa.r, ..sa }, State { crc: sb.r, ..sb }, 16);
}

proof fn lemma_run_keeps_init_r(s: State, m: Mode, p: Seq<u8>, k: nat)
    ensures
        s.run_prefix(m, p, k).0.init_r == s.init_r,
    decreases k,
{
    if k > 0 {
        lemma_run_keeps_init_r(s, m, p, (k - 1) as nat);
    }
}

proof fn lemma_squeezed_keeps_init_r(s: State, k: nat)
    ensures
        s.squeezed(k).0.init_r == s.init_r,
    decreases k,
{
    if k > 0 {
        lemma_squeezed_keeps_init_r(s, (k - 1) as nat);
    }
}

/// A nonce re-seeds a context completely: after a message of any length in
/// any mode, finished with a MAC of any length, the nonce `next` leaves the
/// context just as a fresh context keyed with `key` and seeded with `next`.
pub proof fn lemma_nonce_resets(
    key: Seq<u8>,
    nonce: Seq<u8>,
    m: Mode,
    p: Seq<u8>,
    n: nat,
    next: Seq<u8>,
)
    ensures
        State::keyed(key).nonced(nonce).run(m, p).0.finished(n).0.nonced(next) == State::keyed(
            key,
        ).nonced(next),
{
    let f = State::keyed(key);
    let s = f.nonced(nonce);
    lemma_loaded_frame(
        State { r: f.init_r, konst: INITKONST, ..f },
        State { r: f.init_r, konst: INITKONST, ..f },
        nonce,
    );
    assert(s.init_r == f.init_r);
    let a = s.run(m, p).0;
    lemma_run_keeps_init_r(s, m, p, p.len());
    let s1 = if a.nbuf != 0 {
        a.mac_fed(a.mbuf)
    } else {
        a
    };
    let c = s1.cycled().keyed_with(INITKONST ^ ((a.nbuf as u32) << 3u32));
    let g = State { r: xor_words(c.r, c.crc), mbuf: 0, nbuf: 0, ..c };
    lemma_diffused_frame(g, g, 16);
    let cl = a.closed();
    lemma_squeezed_keeps_init_r(cl, word_count(n));
    let t = a.finished(n).0;
    assert(t.init_r == f.init_r);
    lemma_loaded_frame(
        State { r: t.init_r, konst: INITKONST, ..t },
        State { r: f.init_r, konst: INITKONST, ..f },
        next,
    );
}

} // verus!
