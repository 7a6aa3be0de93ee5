//! The executable cipher context.
use crate::bytes::{be_bytes, le_bytes, read_le, to_be, write_le};
use crate::model::{
    Mode, State, INITKONST, KEYP, N, spec_rotl, spec_sbox1, spec_sbox2, word_count, key_word,
    xor_words, padded_byte, lemma_run_word, fibonacci,
};
use vstd::prelude::*;

verus! {

/// Left rotation of `w` by `x` bits.
fn rotl(w: u32, x: u32) -> (r: u32)
    requires
        0 < x < 32,
    ensures
        r == spec_rotl(w, x),
{
    (w << x) | (w >> (32 - x))
}

/// The first nonlinear mixing function.
fn sbox1(w: u32) -> (r: u32)
    ensures
        r == spec_sbox1(w),
{
    let v = w ^ (rotl(w, 5) | rotl(w, 7));
    v ^ (rotl(v, 19) | rotl(v, 22))
}

/// The second nonlinear mixing function.
fn sbox2(w: u32) -> (r: u32)
    ensures
        r == spec_sbox2(w),
{
    let v = w ^ (rotl(w, 7) | rotl(w, 22));
    v ^ (rotl(v, 5) | rotl(v, 19))
}

/// One cipher context: one direction of one session.
#[derive(Clone, Copy)]
pub struct Shannon {
    /// The nonlinear feedback shift register.
    pub R: [u32; 16],
    /// The CRC accumulator over MAC-covered plaintext.
    pub CRC: [u32; 16],
    /// The register as it stood after keying.
    pub initR: [u32; 16],
    /// The round constant mixed into every step.
    pub konst: u32,
    /// The keystream word of the latest step.
    pub sbuf: u32,
    /// The partial plaintext word being assembled.
    pub mbuf: u32,
    /// Bits still missing from the partial word; zero when none is open.
    pub nbuf: usize,
}

impl View for Shannon {
    type V = State;

    open spec fn view(&self) -> State {
        State {
            r: self.R@,
            crc: self.CRC@,
            init_r: self.initR@,
            konst: self.konst,
            sbuf: self.sbuf,
            mbuf: if self.nbuf == 0 {
                0
            } else {
                self.mbuf
            },
            nbuf: self.nbuf as nat,
        }
    }
}

impl Shannon {
    /// The context is in a shape that the processing calls accept.
    pub open spec fn wf(&self) -> bool {
        self@.wf()
    }

    /// A fresh context keyed with `key`, ready for a nonce.
    pub fn new(key: &[u8]) -> (c: Shannon)
        ensures
            c.wf(),
            c@ == State::keyed(key@),
    {
        // The register starts as the Fibonacci numbers.
        let mut c = Shannon {
            R: [1, 1, 2, 3, 5, 8, 13, 21, 34, 55, 89, 144, 233, 377, 610, 987],
            CRC: [0u32; 16],
            initR: [0u32; 16],
            konst: INITKONST,
            sbuf: 0,
            mbuf: 0,
            nbuf: 0,
        };
        assert(c.R@ =~= fibonacci());
        assert(c.CRC@ =~= Seq::new(N as nat, |j: int| 0u32));
        assert(c.initR@ =~= Seq::new(N as nat, |j: int| 0u32));
        c.loadkey(key);
        c.genkonst();
        c.savestate();
        c
    }

    fn savestate(&mut self)
        ensures
            final(self)@ == (State { init_r: old(self)@.r, ..old(self)@ }),
            final(self).nbuf == old(self).nbuf,
    {
        self.initR = self.R;
    }

    fn reloadstate(&mut self)
        ensures
            final(self)@ == (State { r: old(self)@.init_r, ..old(self)@ }),
            final(self).nbuf == old(self).nbuf,
    {
        self.R = self.initR;
    }

    fn genkonst(&mut self)
        ensures
            final(self)@ == old(self)@.with_konst(),
            final(self).nbuf == old(self).nbuf,
    {
        self.konst = self.R[0];
    }

    /// One step of the register; the keystream word lands in `sbuf`.
    fn cycle(&mut self)
        ensures
            final(self)@ == old(self)@.cycled(),
            final(self).nbuf == old(self).nbuf,
            final(self).mbuf == old(self).mbuf,
    {
        let mut t = self.R[12] ^ self.R[13] ^ self.konst;
        t = sbox1(t) ^ rotl(self.R[0], 1);
        let ghost r0 = self.R@;
        let mut i: usize = 1;
        while i < N
            invariant
                1 <= i <= N,
                self.R@.len() == N,
                forall|j: int| 0 <= j < i - 1 ==> self.R@[j] == r0[j + 1],
                forall|j: int| i - 1 <= j < N ==> self.R@[j] == r0[j],
                self.nbuf == old(self).nbuf,
                self.mbuf == old(self).mbuf,
                self.konst == old(self).konst,
                self.sbuf == old(self).sbuf,
                self.CRC == old(self).CRC,
                self.initR == old(self).initR,
                r0 == old(self).R@,
            decreases N - i,
        {
            self.R[i - 1] = self.R[i];
            i += 1;
        }
        self.R[N - 1] = t;
        assert(self.R@ =~= r0.skip(1).push(t));
        t = sbox2(self.R[2] ^ self.R[15]);
        self.R[0] ^= t;
        self.sbuf = t ^ self.R[8] ^ self.R[12];
        assert(self@.r =~= old(self)@.cycled().r);
    }

    /// Sixteen steps with no data mixed in.
    fn diffuse(&mut self)
        ensures
            final(self)@ == old(self)@.diffused(N as nat),
            final(self).nbuf == old(self).nbuf,
            final(self).mbuf == old(self).mbuf,
    {
        let mut i: usize = 0;
        while i < N
            invariant
                i <= N,
                self@ == old(self)@.diffused(i as nat),
                self.nbuf == old(self).nbuf,
                self.mbuf == old(self).mbuf,
            decreases N - i,
        {
            self.cycle();
            i += 1;
        }
    }

    /// Folds `w` into the key input slot of the register.
    fn key_input(&mut self, w: u32)
        ensures
            final(self)@ == old(self)@.keyed_with(w),
            final(self).nbuf == old(self).nbuf,
            final(self).mbuf == old(self).mbuf,
    {
        self.R[KEYP] ^= w;
        assert(self@.r =~= old(self)@.keyed_with(w).r);
    }

    /// Folds the CRC accumulator into the register, word by word.
    fn fold_crc(&mut self)
        ensures
            final(self)@ == (State { r: xor_words(old(self)@.r, old(self)@.crc), ..old(self)@ }),
            final(self).nbuf == old(self).nbuf,
            final(self).mbuf == old(self).mbuf,
    {
        let ghost d = self@;
        let mut j: usize = 0;
        while j < N
            invariant
                j <= N,
                d == old(self)@,
                d.r.len() == N,
                d.crc.len() == N,
                self@ == (State { r: self@.r, ..d }),
                self@.r.len() == N,
                forall|q: int| 0 <= q < j ==> self@.r[q] == d.r[q] ^ d.crc[q],
                forall|q: int| j <= q < N ==> self@.r[q] == d.r[q],
                self.nbuf == old(self).nbuf,
                self.mbuf == old(self).mbuf,
            decreases N - j,
        {
            self.R[j] ^= self.CRC[j];
            j += 1;
        }
        assert(self@.r =~= xor_words(d.r, d.crc));
    }

    /// Loads key or nonce material; the CRC accumulator is overwritten.
    fn loadkey(&mut self, key: &[u8])
        ensures
            final(self)@ == old(self)@.loaded(key@),
            final(self).nbuf == old(self).nbuf,
            final(self).mbuf == old(self).mbuf,
    {
        let len = key.len();
        let mut i: usize = 0;
        let ghost mut k: nat = 0;
        while i < len
            invariant
                i == (if 4 * k < len {
                    4 * k as int
                } else {
                    len as int
                }),
                4 * k <= len + 3,
                len == key@.len(),
                k <= word_count(len as nat),
                self@ == old(self)@.absorbed(key@, k),
                self.nbuf == old(self).nbuf,
                self.mbuf == old(self).mbuf,
            decreases len - i,
        {
            let w = if len - i >= 4 {
                read_le(key, i)
            } else {
                // A short final word is padded with zero bytes.
                let mut xtra = [0u8; 4];
                let mut j: usize = 0;
                while j < len - i
                    invariant
                        i < len,
                        j <= len - i,
                        len - i < 4,
                        len == key@.len(),
                        xtra@.len() == 4,
                        forall|q: int| 0 <= q < 4 ==> #[trigger] xtra@[q] == if q < j {
                            key@[i + q]
                        } else {
                            0u8
                        },
                    decreases len - i - j,
                {
                    xtra[j] = key[i + j];
                    j += 1;
                }
                assert(forall|q: int| 0 <= q < 4 ==> #[trigger] xtra@[q] == padded_byte(key@, i + q));
                read_le(&xtra, 0)
            };
            assert(w == key_word(key@, k as int));
            self.key_input(w);
            self.cycle();
            proof {
                k = k + 1;
            }
            i = if len - i >= 4 {
                i + 4
            } else {
                len
            };
        }
        assert(k == word_count(len as nat));
        self.key_input(#[verifier::truncate] (len as u32));
        self.cycle();
        self.CRC = self.R;
        self.diffuse();
        self.fold_crc();
    }

    /// One step of the CRC accumulator over the word `i`.
    fn crcfunc(&mut self, i: u32)
        ensures
            final(self)@ == old(self)@.crc_fed(i),
            final(self).nbuf == old(self).nbuf,
            final(self).mbuf == old(self).mbuf,
    {
        let t = self.CRC[0] ^ self.CRC[2] ^ self.CRC[15] ^ i;
        let ghost c0 = self.CRC@;
        let mut j: usize = 1;
        while j < N
            invariant
                1 <= j <= N,
                self.CRC@.len() == N,
                forall|q: int| 0 <= q < j - 1 ==> self.CRC@[q] == c0[q + 1],
                forall|q: int| j - 1 <= q < N ==> self.CRC@[q] == c0[q],
                self.nbuf == old(self).nbuf,
                self.mbuf == old(self).mbuf,
                self.konst == old(self).konst,
                self.sbuf == old(self).sbuf,
                self.R == old(self).R,
                self.initR == old(self).initR,
                c0 == old(self).CRC@,
            decreases N - j,
        {
            self.CRC[j - 1] = self.CRC[j];
            j += 1;
        }
        self.CRC[N - 1] = t;
        assert(self.CRC@ =~= c0.skip(1).push(t));
    }

    /// A plaintext word taken into the MAC: the CRC and the register both.
    fn macfunc(&mut self, i: u32)
        ensures
            final(self)@ == old(self)@.mac_fed(i),
            final(self).nbuf == old(self).nbuf,
            final(self).mbuf == old(self).mbuf,
    {
        self.crcfunc(i);
        self.key_input(i);
    }

    /// Processes the single byte `buf[i]`, opening a partial word first
    /// when none is open.
    fn step_byte(&mut self, buf: &mut [u8], i: usize, m: Mode)
        requires
            old(self).wf(),
            i < old(buf)@.len(),
        ensures
            final(self).wf(),
            (final(self)@, final(buf)@[i as int]) == old(self)@.step(m, old(buf)@[i as int]),
            final(buf)@ == old(buf)@.update(i as int, final(buf)@[i as int]),
    {
        if self.nbuf == 0 {
            self.cycle();
            self.mbuf = 0;
            self.nbuf = 32;
        }
        let sh: u32 = (32 - self.nbuf) as u32;
        let k: u8 = ((self.sbuf >> sh) & 0xff) as u8;
        let b = buf[i];
        match m {
            Mode::Stream => {
                buf[i] = k;
            },
            Mode::MacOnly => {
                self.mbuf ^= (b as u32) << sh;
            },
            Mode::Encrypt => {
                self.mbuf ^= (b as u32) << sh;
                buf[i] = b ^ k;
            },
            Mode::Decrypt => {
                let plain = b ^ k;
                self.mbuf ^= (plain as u32) << sh;
                buf[i] = plain;
            },
        }
        self.nbuf -= 8;
        if self.nbuf == 0 {
            match m {
                Mode::Stream => {},
                _ => {
                    let w = self.mbuf;
                    self.macfunc(w);
                },
            }
        }
        assert(buf@ =~= old(buf)@.update(i as int, buf@[i as int]));
    }

    /// Processes a whole buffer in mode `m`: first the bytes that complete a
    /// partial word left by an earlier call, then whole words, then a
    /// trailing partial word.
    fn process(&mut self, buf: &mut [u8], m: Mode)
        requires
            old(self).wf(),
        ensures
            final(self).wf(),
            (final(self)@, final(buf)@) == old(self)@.run(m, old(buf)@),
    {
        let n = buf.len();
        let ghost s0 = self@;
        let ghost p = buf@;
        let mut i: usize = 0;
        assert(buf@.take(0) =~= Seq::<u8>::empty());
        while self.nbuf > 0 && i < n
            invariant
                n == buf@.len(),
                p.len() == n,
                i <= n,
                self.wf(),
                (self@, buf@.take(i as int)) == s0.run_prefix(m, p, i as nat),
                forall|j: int| i <= j < n ==> buf@[j] == p[j],
            decreases n - i,
        {
            self.step_byte(buf, i, m);
            assert(buf@.take(i + 1) =~= buf@.take(i as int).push(buf@[i as int]));
            i += 1;
        }
        while n - i >= 4
            invariant
                n == buf@.len(),
                p.len() == n,
                i <= n,
                self.wf(),
                self.nbuf == 0 || i == n,
                (self@, buf@.take(i as int)) == s0.run_prefix(m, p, i as nat),
                forall|j: int| i <= j < n ==> buf@[j] == p[j],
            decreases n - i,
        {
            proof {
                lemma_run_word(s0, m, p, i as nat);
            }
            let ghost before = buf@;
            self.cycle();
            let w = read_le(buf, i);
            match m {
                Mode::Stream => {
                    write_le(buf, i, self.sbuf);
                },
                Mode::MacOnly => {
                    self.macfunc(w);
                },
                Mode::Encrypt => {
                    self.macfunc(w);
                    write_le(buf, i, w ^ self.sbuf);
                },
                Mode::Decrypt => {
                    let plain = w ^ self.sbuf;
                    self.macfunc(plain);
                    write_le(buf, i, plain);
                },
            }
            assert(buf@.take(i + 4) =~= before.take(i as int) + if m == Mode::MacOnly {
                p.subrange(i as int, i + 4)
            } else {
                buf@.subrange(i as int, i + 4)
            });
            i += 4;
        }
        while i < n
            invariant
                n == buf@.len(),
                p.len() == n,
                i <= n,
                self.wf(),
                (self@, buf@.take(i as int)) == s0.run_prefix(m, p, i as nat),
                forall|j: int| i <= j < n ==> buf@[j] == p[j],
            decreases n - i,
        {
            self.step_byte(buf, i, m);
            assert(buf@.take(i + 1) =~= buf@.take(i as int).push(buf@[i as int]));
            i += 1;
        }
        assert(buf@.take(n as int) =~= buf@);
    }

    /// Encrypts `buf` in place; its plaintext is taken into the MAC.
    pub fn encrypt(&mut self, buf: &mut [u8])
        requires
            old(self).wf(),
        ensures
            final(self).wf(),
            (final(self)@, final(buf)@) == old(self)@.run(Mode::Encrypt, old(buf)@),
    {
        self.process(buf, Mode::Encrypt)
    }

    /// Decrypts `buf` in place; the recovered plaintext is taken into the MAC.
    pub fn decrypt(&mut self, buf: &mut [u8])
        requires
            old(self).wf(),
        ensures
            final(self).wf(),
            (final(self)@, final(buf)@) == old(self)@.run(Mode::Decrypt, old(buf)@),
    {
        self.process(buf, Mode::Decrypt)
    }

    /// Fills `buf` with keystream; the MAC is not touched.
    pub fn stream(&mut self, buf: &mut [u8])
        requires
            old(self).wf(),
        ensures
            final(self).wf(),
            (final(self)@, final(buf)@) == old(self)@.run(Mode::Stream, old(buf)@),
    {
        self.process(buf, Mode::Stream)
    }

    /// Takes `buf` into the MAC without producing any output.
    pub fn maconly(&mut self, buf: &[u8])
        requires
            old(self).wf(),
        ensures
            final(self).wf(),
            final(self)@ == old(self)@.run(Mode::MacOnly, buf@).0,
    {
        let mut copy = vstd::slice::slice_to_vec(buf);
        self.process(copy.as_mut_slice(), Mode::MacOnly)
    }

    /// Ends the message: fills `buf` with its MAC, as long as `buf` is.
    /// The context is spent until the next nonce.
    pub fn finish(&mut self, buf: &mut [u8])
        requires
            old(self).wf(),
        ensures
            final(self).wf(),
            (final(self)@, final(buf)@) == old(self)@.finished(old(buf)@.len()),
            final(buf)@.len() == old(buf)@.len(),
    {
        let nb = self.nbuf;
        if self.nbuf != 0 {
            let m = self.mbuf;
            self.macfunc(m);
        }
        // Mark the end of input in a way no plaintext can.
        self.cycle();
        self.key_input(INITKONST ^ ((nb as u32) << 3u32));
        self.nbuf = 0;
        self.fold_crc();
        self.diffuse();
        let ghost c = self@;
        assert(c == old(self)@.closed());
        let n = buf.len();
        let mut i: usize = 0;
        let ghost mut k: nat = 0;
        while i < n
            invariant
                n == buf@.len(),
                i == (if 4 * k < n {
                    4 * k as int
                } else {
                    n as int
                }),
                4 * k <= n + 3,
                self@ == c.squeezed(k).0,
                c.squeezed(k).1.len() == 4 * k,
                buf@.take(i as int) == c.squeezed(k).1.take(i as int),
                self.nbuf == 0,
            decreases n - i,
        {
            self.cycle();
            let ghost before = buf@;
            let ghost out = c.squeezed(k).1;
            let ghost i0 = i;
            assert(out.take(i as int) =~= out);
            if n - i >= 4 {
                write_le(buf, i, self.sbuf);
                i = i + 4;
            } else {
                let mut j: usize = 0;
                while j < n - i
                    invariant
                        i < n,
                        n - i < 4,
                        j <= n - i,
                        n == buf@.len(),
                        before.len() == n,
                        forall|q: int| 0 <= q < i ==> buf@[q] == before[q],
                        forall|q: int| 0 <= q < j ==> buf@[i + q] == #[trigger] le_bytes(
                            self.sbuf,
                        )[q],
                    decreases n - i - j,
                {
                    buf[i + j] = #[verifier::truncate] (((self.sbuf >> (8 * j as u32)) & 0xff) as u8);
                    assert(buf@[i + j] == le_bytes(self.sbuf)[j as int]);
                    j += 1;
                }
                i = n;
            }
            proof {
                k = k + 1;
                let next = c.squeezed(k).1;
                assert(next == out + le_bytes(self.sbuf));
                assert forall|q: int| 0 <= q < i implies buf@[q] == next[q] by {
                    if q < i0 {
                        assert(buf@[q] == before.take(i0 as int)[q]);
                    }
                }
                assert(buf@.take(i as int) =~= next.take(i as int));
            }
        }
        assert(k == word_count(n as nat));
        assert(buf@ =~= buf@.take(n as int));
    }

    /// Compares, in time that does not depend on where they differ, the MAC
    /// of the message with `expected`, which also chooses its length.
    pub fn check_mac(&mut self, expected: &[u8]) -> (r: Result<(), MacMismatch>)
        requires
            old(self).wf(),
        ensures
            final(self).wf(),
            final(self)@ == old(self)@.finished(expected@.len()).0,
            r is Ok <==> old(self)@.finished(expected@.len()).1 == expected@,
    {
        let n = expected.len();
        let mut actual: Vec<u8> = Vec::new();
        while actual.len() < n
            invariant
                actual@.len() <= n,
            decreases n - actual.len(),
        {
            actual.push(0);
        }
        self.finish(actual.as_mut_slice());
        let mut diff: u8 = 0;
        let mut i: usize = 0;
        while i < n
            invariant
                i <= n,
                n == expected@.len(),
                actual@.len() == n,
                diff == 0 <==> forall|q: int| 0 <= q < i ==> actual@[q] == expected@[q],
            decreases n - i,
        {
            proof {
                lemma_fold_diff(diff, actual@[i as int], expected@[i as int]);
            }
            diff = diff | (actual[i] ^ expected[i]);
            i += 1;
        }
        if diff == 0 {
            assert(actual@ =~= expected@);
            Ok(())
        } else {
            Err(MacMismatch)
        }
    }

    /// Re-seeds the context with the big-endian bytes of `n`.
    pub fn nonce_u32(&mut self, n: u32)
        ensures
            final(self)@ == old(self)@.nonced(be_bytes(n)),
            final(self).wf(),
    {
        let bytes = to_be(n);
        self.nonce(&bytes);
    }

    /// Re-seeds the context with `nonce`, keeping the key schedule.
    pub fn nonce(&mut self, nonce: &[u8])
        ensures
            final(self)@ == old(self)@.nonced(nonce@),
            final(self).wf(),
    {
        self.reloadstate();
        self.konst = INITKONST;
        self.loadkey(nonce);
        self.genkonst();
        self.nbuf = 0;
    }
}

/// The MAC computed by a context did not match the one expected.
#[derive(Debug, Clone, Copy, PartialEq, Eq, Structural)]
pub struct MacMismatch;

/// A difference folded into `d` leaves it zero only when there is none.
proof fn lemma_fold_diff(d: u8, a: u8, b: u8)
    ensures
        (d | (a ^ b)) == 0 <==> (d == 0 && a == b),
{
    assert((d | (a ^ b)) == 0 <==> (d == 0 && a == b)) by (bit_vector);
}

} // verus!
