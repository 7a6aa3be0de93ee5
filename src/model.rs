//! The mathematical model of the cipher: its state and every transformation
//! of it, written as spec functions.
use crate::bytes::{byte_of, le_bytes, le_word, lemma_assemble, lemma_mask};
use vstd::prelude::*;

verus! {

/// The round constant used while key or nonce material is being loaded.
pub const INITKONST: u32 = 0x6996c53a;

/// The register slot into which key material and MAC words are folded.
pub const KEYP: usize = 13;

/// Number of words in the register and in the CRC accumulator.
pub const N: usize = 16;

/// Left rotation of `w` by `k` bits, `0 < k < 32`.
pub open spec fn spec_rotl(w: u32, k: u32) -> u32 {
    (w << k) | (w >> ((32 - k) as u32))
}

/// The first nonlinear mixing function.
pub open spec fn spec_sbox1(w: u32) -> u32 {
    let v = w ^ (spec_rotl(w, 5) | spec_rotl(w, 7));
    v ^ (spec_rotl(v, 19) | spec_rotl(v, 22))
}

/// The second nonlinear mixing function.
pub open spec fn spec_sbox2(w: u32) -> u32 {
    let v = w ^ (spec_rotl(w, 7) | spec_rotl(w, 22));
    v ^ (spec_rotl(v, 5) | spec_rotl(v, 19))
}

/// The first sixteen Fibonacci numbers, the register before any key.
pub open spec fn fibonacci() -> Seq<u32> {
    seq![1u32, 1, 2, 3, 5, 8, 13, 21, 34, 55, 89, 144, 233, 377, 610, 987]
}

/// Word-by-word exclusive or of two sequences of equal length.
pub open spec fn xor_words(a: Seq<u32>, b: Seq<u32>) -> Seq<u32> {
    Seq::new(a.len(), |i: int| a[i] ^ b[i])
}

/// Byte `i` of `key`, reading past its end as zero.
pub open spec fn padded_byte(key: Seq<u8>, i: int) -> u8 {
    if 0 <= i < key.len() {
        key[i]
    } else {
        0
    }
}

/// Word `j` of `key` read little-endian, the last one zero-padded.
pub open spec fn key_word(key: Seq<u8>, j: int) -> u32 {
    le_word(
        padded_byte(key, 4 * j),
        padded_byte(key, 4 * j + 1),
        padded_byte(key, 4 * j + 2),
        padded_byte(key, 4 * j + 3),
    )
}

/// Number of words, the last possibly short, that `n` bytes make.
pub open spec fn word_count(n: nat) -> nat {
    (n + 3) as nat / 4
}

/// What a processing call does with the bytes it is given.
#[derive(Clone, Copy, PartialEq, Eq, Structural)]
pub enum Mode {
    /// Replace each byte by keystream; the MAC is not touched.
    Stream,
    /// Accumulate the bytes into the MAC; no output.
    MacOnly,
    /// Accumulate plaintext into the MAC and mask it with keystream.
    Encrypt,
    /// Unmask ciphertext with keystream and accumulate the plaintext.
    Decrypt,
}

/// The complete state of one cipher context.
///
/// `mbuf` holds the partial plaintext word still being assembled; it is zero
/// whenever `nbuf` is zero, that is when no partial word is open.
pub struct State {
    pub r: Seq<u32>,
    pub crc: Seq<u32>,
    pub init_r: Seq<u32>,
    pub konst: u32,
    pub sbuf: u32,
    pub mbuf: u32,
    pub nbuf: nat,
}

impl State {
    /// The shapes every reachable state has.
    pub open spec fn wf(self) -> bool {
        &&& self.r.len() == N
        &&& self.crc.len() == N
        &&& self.init_r.len() == N
        &&& self.nbuf <= 32
        &&& self.nbuf % 8 == 0
        &&& self.nbuf == 0 ==> self.mbuf == 0
    }

    /// One step of the register, producing one keystream word in `sbuf`.
    pub open spec fn cycled(self) -> State {
        let t = spec_sbox1(self.r[12] ^ self.r[13] ^ self.konst) ^ spec_rotl(self.r[0], 1);
        let shifted = self.r.skip(1).push(t);
        let u = spec_sbox2(shifted[2] ^ shifted[15]);
        let r = shifted.update(0, shifted[0] ^ u);
        State { r, sbuf: u ^ r[8] ^ r[12], ..self }
    }

    /// `n` steps of the register with no data mixed in.
    pub open spec fn diffused(self, n: nat) -> State
        decreases n,
    {
        if n == 0 {
            self
        } else {
            self.diffused((n - 1) as nat).cycled()
        }
    }

    /// The state with `w` folded into the key input slot of the register.
    pub open spec fn keyed_with(self, w: u32) -> State {
        State { r: self.r.update(KEYP as int, self.r[KEYP as int] ^ w), ..self }
    }

    /// One step of the CRC accumulator over the word `i`.
    pub open spec fn crc_fed(self, i: u32) -> State {
        let t = self.crc[0] ^ self.crc[2] ^ self.crc[15] ^ i;
        State { crc: self.crc.skip(1).push(t), ..self }
    }

    /// A plaintext word taken into the MAC: the CRC and the register both.
    pub open spec fn mac_fed(self, i: u32) -> State {
        self.crc_fed(i).keyed_with(i)
    }

    /// The first `k` words of `key` folded in, one step after each.
    pub open spec fn absorbed(self, key: Seq<u8>, k: nat) -> State
        decreases k,
    {
        if k == 0 {
            self
        } else {
            self.absorbed(key, (k - 1) as nat).keyed_with(key_word(key, k - 1)).cycled()
        }
    }

    /// Key (or nonce) material loaded into the register; the CRC ends up
    /// holding the register as it stood before diffusion.
    pub open spec fn loaded(self, key: Seq<u8>) -> State {
        let s = self.absorbed(key, word_count(key.len())).keyed_with(key.len() as u32).cycled();
        let d = State { crc: s.r, ..s }.diffused(N as nat);
        State { r: xor_words(d.r, d.crc), ..d }
    }

    /// The round constant taken from the register.
    pub open spec fn with_konst(self) -> State {
        State { konst: self.r[0], ..self }
    }

    /// A fresh context keyed with `key`.
    pub open spec fn keyed(key: Seq<u8>) -> State {
        let s0 = State {
            r: fibonacci(),
            crc: Seq::new(N as nat, |i: int| 0u32),
            init_r: Seq::new(N as nat, |i: int| 0u32),
            konst: INITKONST,
            sbuf: 0,
            mbuf: 0,
            nbuf: 0,
        };
        let s = s0.loaded(key).with_konst();
        State { init_r: s.r, ..s }
    }

    /// The context re-seeded with `nonce`; the key schedule is kept.
    pub open spec fn nonced(self, nonce: Seq<u8>) -> State {
        let s = State { r: self.init_r, konst: INITKONST, ..self }.loaded(nonce).with_konst();
        State { mbuf: 0, nbuf: 0, ..s }
    }

    /// The position in `mbuf` of the next byte of an open partial word.
    pub open spec fn shift(self) -> u32 {
        (32 - self.nbuf) as u32
    }

    /// The keystream byte for the next byte of an open partial word.
    pub open spec fn key_byte(self) -> u8 {
        byte_of(self.sbuf, self.shift())
    }

    /// The state with a partial word opened: one step, an empty accumulator.
    pub open spec fn opened(self) -> State {
        State { mbuf: 0, nbuf: 32, ..self.cycled() }
    }

    /// One byte `b` processed in mode `m`: the new state and the byte written.
    pub open spec fn step(self, m: Mode, b: u8) -> (State, u8) {
        let s = if self.nbuf == 0 {
            self.opened()
        } else {
            self
        };
        let k = s.key_byte();
        let out = match m {
            Mode::Stream => k,
            Mode::MacOnly => b,
            Mode::Encrypt => b ^ k,
            Mode::Decrypt => b ^ k,
        };
        let plain = match m {
            Mode::Decrypt => out,
            _ => b,
        };
        let mbuf = match m {
            Mode::Stream => s.mbuf,
            _ => s.mbuf ^ ((plain as u32) << s.shift()),
        };
        let t = State { mbuf, nbuf: (s.nbuf - 8) as nat, ..s };
        if t.nbuf == 0 {
            let u = if m == Mode::Stream {
                t
            } else {
                t.mac_fed(mbuf)
            };
            (State { mbuf: 0, ..u }, out)
        } else {
            (t, out)
        }
    }

    /// The first `k` bytes of `p` processed in mode `m`: the state after them
    /// and the bytes written.
    pub open spec fn run_prefix(self, m: Mode, p: Seq<u8>, k: nat) -> (State, Seq<u8>)
        decreases k,
    {
        if k == 0 {
            (self, Seq::empty())
        } else {
            let (s, out) = self.run_prefix(m, p, (k - 1) as nat);
            let (t, b) = s.step(m, p[k - 1]);
            (t, out.push(b))
        }
    }

    /// A whole word `w` processed in mode `m` from a word boundary: the new
    /// state and the word written.
    pub open spec fn word_step(self, m: Mode, w: u32) -> (State, u32) {
        let c = self.cycled();
        match m {
            Mode::Stream => (c, c.sbuf),
            Mode::MacOnly => (c.mac_fed(w), w),
            Mode::Encrypt => (c.mac_fed(w), w ^ c.sbuf),
            Mode::Decrypt => (c.mac_fed(w ^ c.sbuf), w ^ c.sbuf),
        }
    }

    /// All of `p` processed in mode `m`.
    pub open spec fn run(self, m: Mode, p: Seq<u8>) -> (State, Seq<u8>) {
        self.run_prefix(m, p, p.len())
    }

    /// The message closed: the partial word taken into the MAC, the end of
    /// input marked in the register, the CRC folded in and diffused.
    pub open spec fn closed(self) -> State {
        let s = if self.nbuf != 0 {
            self.mac_fed(self.mbuf)
        } else {
            self
        };
        let c = s.cycled().keyed_with(INITKONST ^ ((self.nbuf as u32) << 3u32));
        let f = State { r: xor_words(c.r, c.crc), mbuf: 0, nbuf: 0, ..c };
        f.diffused(N as nat)
    }

    /// `k` keystream words drawn, with their little-endian bytes.
    pub open spec fn squeezed(self, k: nat) -> (State, Seq<u8>)
        decreases k,
    {
        if k == 0 {
            (self, Seq::empty())
        } else {
            let (s, out) = self.squeezed((k - 1) as nat);
            let t = s.cycled();
            (t, out + le_bytes(t.sbuf))
        }
    }

    /// The message finished with a MAC of `n` bytes: the spent state and the MAC.
    pub open spec fn finished(self, n: nat) -> (State, Seq<u8>) {
        let (s, out) = self.closed().squeezed(word_count(n));
        (s, out.take(n as int))
    }
}

/// Four bytes processed one at a time from a word boundary do what one
/// word step does on their little-endian word.
pub proof fn lemma_run_word(s0: State, m: Mode, p: Seq<u8>, i: nat)
    requires
        s0.run_prefix(m, p, i).0.wf(),
        s0.run_prefix(m, p, i).0.nbuf == 0,
        i + 4 <= p.len(),
    ensures
        ({
            let (s, out) = s0.run_prefix(m, p, i);
            let (t, w) = s.word_step(m, le_word(p[i as int], p[i as int + 1], p[i as int + 2], p[i as int + 3]));
            s0.run_prefix(m, p, i + 4) == (t, out + if m == Mode::MacOnly {
                p.subrange(i as int, i as int + 4)
            } else {
                le_bytes(w)
            })
        }),
{
    let (s, out) = s0.run_prefix(m, p, i);
    let (b0, b1, b2, b3) = (p[i as int], p[i as int + 1], p[i as int + 2], p[i as int + 3]);
    let (t1, o0) = s.step(m, b0);
    let (t2, o1) = t1.step(m, b1);
    let (t3, o2) = t2.step(m, b2);
    let (t4, o3) = t3.step(m, b3);
    assert(s0.run_prefix(m, p, i + 1) == (t1, out.push(o0)));
    assert(s0.run_prefix(m, p, i + 2) == (t2, out.push(o0).push(o1)));
    assert(s0.run_prefix(m, p, i + 3) == (t3, out.push(o0).push(o1).push(o2)));
    assert(s0.run_prefix(m, p, i + 4) == (t4, out.push(o0).push(o1).push(o2).push(o3)));
    let c = s.cycled();
    let x = c.sbuf;
    lemma_assemble(b0, b1, b2, b3);
    lemma_mask(b0, b1, b2, b3, x);
    let w = le_word(b0, b1, b2, b3);
    if m == Mode::Decrypt {
        lemma_assemble(b0 ^ byte_of(x, 0), b1 ^ byte_of(x, 8), b2 ^ byte_of(x, 16), b3 ^ byte_of(
            x,
            24,
        ));
    }
    let (t, ow) = s.word_step(m, w);
    assert(t4 == t);
    let tail = if m == Mode::MacOnly {
        p.subrange(i as int, i as int + 4)
    } else {
        le_bytes(ow)
    };
    assert(out.push(o0).push(o1).push(o2).push(o3) =~= out + tail);
}

} // verus!
