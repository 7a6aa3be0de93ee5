//! The message layer of a secure channel: one cipher context per direction,
//! each re-seeded for every message with a 32-bit counter, and a 4-byte MAC
//! after every message. Moving the bytes is left to the caller.
use crate::bytes::be_bytes;
use crate::cipher::{MacMismatch, Shannon};
use crate::model::{Mode, State};
use vstd::prelude::*;

verus! {

/// The counter of the message after the one numbered `n`; it wraps at 2^32.
pub open spec fn next_count(n: u32) -> u32 {
    if n == u32::MAX {
        0
    } else {
        (n + 1) as u32
    }
}

/// Both directions of a channel between two peers.
pub struct Framed {
    /// The context that encrypts outgoing messages.
    pub send: Shannon,
    /// The context that decrypts incoming messages.
    pub recv: Shannon,
    /// The number of the outgoing message in progress.
    pub send_nonce: u32,
    /// The number of the incoming message in progress.
    pub recv_nonce: u32,
}

impl Framed {
    /// Both contexts are in a shape the processing calls accept.
    pub open spec fn wf(&self) -> bool {
        &&& self.send.wf()
        &&& self.recv.wf()
    }

    /// A channel whose first messages in both directions are numbered zero.
    pub fn new(send_key: &[u8], recv_key: &[u8]) -> (f: Framed)
        ensures
            f.wf(),
            f.send_nonce == 0,
            f.recv_nonce == 0,
            f.send@ == State::keyed(send_key@).nonced(be_bytes(0)),
            f.recv@ == State::keyed(recv_key@).nonced(be_bytes(0)),
    {
        let mut send = Shannon::new(send_key);
        send.nonce_u32(0);
        let mut recv = Shannon::new(recv_key);
        recv.nonce_u32(0);
        Framed { send, recv, send_nonce: 0, recv_nonce: 0 }
    }

    /// Encrypts outgoing bytes of the current message in place.
    pub fn seal(&mut self, buf: &mut [u8])
        requires
            old(self).wf(),
        ensures
            final(self).wf(),
            (final(self).send@, final(buf)@) == old(self).send@.run(Mode::Encrypt, old(buf)@),
            final(self).recv == old(self).recv,
            final(self).send_nonce == old(self).send_nonce,
            final(self).recv_nonce == old(self).recv_nonce,
    {
        self.send.encrypt(buf);
    }

    /// Decrypts incoming bytes of the current message in place.
    pub fn open(&mut self, buf: &mut [u8])
        requires
            old(self).wf(),
        ensures
            final(self).wf(),
            (final(self).recv@, final(buf)@) == old(self).recv@.run(Mode::Decrypt, old(buf)@),
            final(self).send == old(self).send,
            final(self).send_nonce == old(self).send_nonce,
            final(self).recv_nonce == old(self).recv_nonce,
    {
        self.recv.decrypt(buf);
    }

    /// Ends the outgoing message: returns its 4-byte MAC, to be sent after
    /// it, and seeds the send context for the next message.
    pub fn end_send(&mut self) -> (mac: [u8; 4])
        requires
            old(self).wf(),
        ensures
            final(self).wf(),
            mac@ == old(self).send@.finished(4).1,
            final(self).send_nonce == next_count(old(self).send_nonce),
            final(self).send@ == old(self).send@.finished(4).0.nonced(
                be_bytes(next_count(old(self).send_nonce)),
            ),
            final(self).recv == old(self).recv,
            final(self).recv_nonce == old(self).recv_nonce,
    {
        let mut mac = [0u8; 4];
        self.send.finish(&mut mac);
        self.send_nonce = if self.send_nonce == u32::MAX {
            0
        } else {
            self.send_nonce + 1
        };
        self.send.nonce_u32(self.send_nonce);
        mac
    }

    /// Ends the incoming message, whose MAC as received is `mac`. When it
    /// matches, the receive context is seeded for the next message; when it
    /// does not, the channel is no longer in step with its peer and the
    /// counter is left as it was.
    pub fn end_recv(&mut self, mac: &[u8]) -> (r: Result<(), MacMismatch>)
        requires
            old(self).wf(),
        ensures
            final(self).wf(),
            r is Ok <==> old(self).recv@.finished(mac@.len()).1 == mac@,
            r is Ok ==> final(self).recv_nonce == next_count(old(self).recv_nonce),
            r is Ok ==> final(self).recv@ == old(self).recv@.finished(mac@.len()).0.nonced(
                be_bytes(next_count(old(self).recv_nonce)),
            ),
            r is Err ==> final(self).recv_nonce == old(self).recv_nonce,
            r is Err ==> final(self).recv@ == old(self).recv@.finished(mac@.len()).0,
            final(self).send == old(self).send,
            final(self).send_nonce == old(self).send_nonce,
    {
        let checked = self.recv.check_mac(mac);
        match checked {
            Ok(()) => {
                self.recv_nonce = if self.recv_nonce == u32::MAX {
                    0
                } else {
                    self.recv_nonce + 1
                };
                self.recv.nonce_u32(self.recv_nonce);
                Ok(())
            },
            Err(e) => Err(e),
        }
    }
}

} // verus!
