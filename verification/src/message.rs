//! The protocol's structs and their fixed-size byte forms: the fields in
//! order, integers lowest byte first, curve elements in their compressed form.

use vstd::prelude::*;
use crate::bytes::{
    i64_bytes, i64_from_bytes, i64_of_bytes, i64_to_bytes, le_bytes, le_nat, lemma_le_bytes_len,
    put, take, u16_from_bytes, u16_to_bytes, u64_from_bytes, u64_to_bytes, xor_seq,
};
use crate::cshake::Sponge;
use crate::cshake_customs::HANDSHAKE_CIPHER;
use crate::curve25519::{group_order, EdLikeSignature, PK};
use crate::error::Error;

verus! {

/// What a peer signs to prove its identity: a timestamp, the kind of its key
/// and the key.
pub struct PKInfoInner {
    pub ts: i64,
    pub keytype: u16,
    pub pk: PK,
}

/// A `PKInfoInner` with its owner's signature over its 42 bytes.
pub struct PKInfo {
    pub inner: PKInfoInner,
    pub sig: EdLikeSignature,
}

/// The user id that the server found for the client, with the server's
/// signature over its 8 bytes.
pub struct LoginVerify {
    pub uid: u64,
    pub sig: EdLikeSignature,
}

/// The header that goes ahead of a frame's payload.
pub struct FrameAheadHeader {
    pub req_id: u16,
    pub frame_len: u16,
    pub mac: [u8; 32],
}

/// The header that goes behind a frame's payload.
pub struct FrameBehindHeader {
    pub mac: [u8; 32],
    pub msg_id: u16,
    pub frame_id: u16,
}

/// The 42 bytes of a timestamp, a key type and a key.
pub open spec fn pkinfo_inner_bytes(ts: i64, keytype: u16, pk: Seq<u8>) -> Seq<u8> {
    i64_bytes(ts) + le_bytes(keytype as nat, 2) + pk
}

/// The 36 bytes of a header ahead.
pub open spec fn ahead_bytes(req_id: u16, frame_len: u16, mac: Seq<u8>) -> Seq<u8> {
    le_bytes(req_id as nat, 2) + le_bytes(frame_len as nat, 2) + mac
}

/// The 36 bytes of a header behind.
pub open spec fn behind_bytes(mac: Seq<u8>, msg_id: u16, frame_id: u16) -> Seq<u8> {
    mac + le_bytes(msg_id as nat, 2) + le_bytes(frame_id as nat, 2)
}

impl PKInfoInner {
    /// The byte form: the fields in order.
    pub open spec fn bytes(&self) -> Seq<u8> {
        pkinfo_inner_bytes(self.ts, self.keytype, self.pk@)
    }

    /// Reads the value from its bytes.
    pub fn from_bytes(bytes: [u8; 42]) -> (inner: PKInfoInner)
        ensures
            inner.bytes() == bytes@,
            inner.ts == i64_of_bytes(bytes@.subrange(0, 8)),
            inner.keytype == le_nat(bytes@.subrange(8, 10)),
            inner.pk@ == bytes@.subrange(10, 42),
    {
        let ts_bytes = take::<8>(&bytes, 0);
        let keytype_bytes = take::<2>(&bytes, 8);
        let inner = PKInfoInner {
            ts: i64_from_bytes(&ts_bytes),
            keytype: u16_from_bytes(&keytype_bytes),
            pk: PK::from_bytes(take::<32>(&bytes, 10)),
        };
        assert(inner.bytes() =~= bytes@);
        inner
    }

    /// The bytes of this value.
    pub fn to_bytes(&self) -> (bytes: [u8; 42])
        ensures
            bytes@ == self.bytes(),
    {
        let mut bytes = [0u8; 42];
        put(&mut bytes, 0, &i64_to_bytes(self.ts));
        put(&mut bytes, 8, &u16_to_bytes(self.keytype));
        put(&mut bytes, 10, &self.pk.to_bytes());
        proof {
            lemma_le_bytes_len(self.keytype as nat, 2);
            lemma_i64_bytes_len(self.ts);
            assert(bytes@ =~= self.bytes());
        }
        bytes
    }
}

/// A signed 64-bit number takes eight bytes.
pub proof fn lemma_i64_bytes_len(x: i64)
    ensures
        i64_bytes(x).len() == 8,
{
    lemma_le_bytes_len(
        if x >= 0 {
            x as nat
        } else {
            (x + 0x1_0000_0000_0000_0000) as nat
        },
        8,
    );
}

impl PKInfo {
    /// The byte form: the fields in order.
    pub open spec fn bytes(&self) -> Seq<u8> {
        self.inner.bytes() + self.sig@
    }

    /// Reads a signed `PKInfo`. The signature's scalar has to be canonical.
    pub fn from_bytes(bytes: [u8; 106]) -> (res: Result<PKInfo, Error>)
        ensures
            res is Ok == (le_nat(bytes@.subrange(74, 106)) < group_order()),
            res matches Ok(info) ==> {
                &&& info.bytes() == bytes@
                &&& info.inner.bytes() == bytes@.subrange(0, 42)
                &&& info.sig@ == bytes@.subrange(42, 106)
                &&& info.inner.ts == i64_of_bytes(bytes@.subrange(0, 8))
                &&& info.inner.pk@ == bytes@.subrange(10, 42)
            },
            res matches Err(e) ==> e == Error::MalformedInput,
    {
        let inner_bytes = take::<42>(&bytes, 0);
        let sig_bytes = take::<64>(&bytes, 42);
        assert(sig_bytes@.subrange(32, 64) =~= bytes@.subrange(74, 106));
        assert(inner_bytes@.subrange(0, 8) =~= bytes@.subrange(0, 8));
        assert(inner_bytes@.subrange(10, 42) =~= bytes@.subrange(10, 42));
        match EdLikeSignature::from_bytes(sig_bytes) {
            Ok(sig) => {
                let info = PKInfo { inner: PKInfoInner::from_bytes(inner_bytes), sig };
                assert(info.bytes() =~= bytes@);
                Ok(info)
            },
            Err(e) => Err(e),
        }
    }

    /// The bytes of this value.
    pub fn to_bytes(&self) -> (bytes: [u8; 106])
        ensures
            bytes@ == self.bytes(),
    {
        let mut bytes = [0u8; 106];
        put(&mut bytes, 0, &self.inner.to_bytes());
        put(&mut bytes, 42, &self.sig.to_bytes());
        assert(bytes@ =~= self.bytes());
        bytes
    }

    /// Reads a `PKInfo` that was encrypted with the handshake cipher's next
    /// 106 bytes.
    pub fn decrypt(bytes: [u8; 106], cipher: &mut Sponge<HANDSHAKE_CIPHER>) -> (res: Result<
        PKInfo,
        Error,
    >)
        ensures
            final(cipher)@ == old(cipher)@.squeeze(106),
            res is Ok == (le_nat(xor_seq(bytes@, old(cipher)@.output(106)).subrange(74, 106))
                < group_order()),
            res matches Ok(info) ==> {
                let plain = xor_seq(bytes@, old(cipher)@.output(106));
                &&& info.bytes() == plain
                &&& info.inner.bytes() == plain.subrange(0, 42)
                &&& info.sig@ == plain.subrange(42, 106)
                &&& info.inner.ts == i64_of_bytes(plain.subrange(0, 8))
                &&& info.inner.pk@ == plain.subrange(10, 42)
            },
            res matches Err(e) ==> e == Error::MalformedInput,
    {
        let mut bytes = bytes;
        cipher.squeeze_xor_array::<106>(&mut bytes);
        PKInfo::from_bytes(bytes)
    }

    /// The bytes of this `PKInfo`, encrypted with the handshake cipher's next
    /// 106 bytes.
    pub fn encrypt(&self, cipher: &mut Sponge<HANDSHAKE_CIPHER>) -> (bytes: [u8; 106])
        ensures
            final(cipher)@ == old(cipher)@.squeeze(106),
            bytes@ == xor_seq(self.bytes(), old(cipher)@.output(106)),
    {
        let mut bytes = self.to_bytes();
        cipher.squeeze_xor_array::<106>(&mut bytes);
        bytes
    }
}

impl LoginVerify {
    /// The byte form: the fields in order.
    pub open spec fn bytes(&self) -> Seq<u8> {
        le_bytes(self.uid as nat, 8) + self.sig@
    }

    /// Reads a `LoginVerify`. The signature's scalar has to be canonical.
    pub fn from_bytes(bytes: [u8; 72]) -> (res: Result<LoginVerify, Error>)
        ensures
            res is Ok == (le_nat(bytes@.subrange(40, 72)) < group_order()),
            res matches Ok(verify) ==> {
                &&& verify.bytes() == bytes@
                &&& verify.uid == le_nat(bytes@.subrange(0, 8))
                &&& verify.sig@ == bytes@.subrange(8, 72)
            },
            res matches Err(e) ==> e == Error::MalformedInput,
    {
        let uid_bytes = take::<8>(&bytes, 0);
        let sig_bytes = take::<64>(&bytes, 8);
        assert(sig_bytes@.subrange(32, 64) =~= bytes@.subrange(40, 72));
        match EdLikeSignature::from_bytes(sig_bytes) {
            Ok(sig) => {
                let verify = LoginVerify { uid: u64_from_bytes(&uid_bytes), sig };
                assert(verify.bytes() =~= bytes@);
                Ok(verify)
            },
            Err(e) => Err(e),
        }
    }

    /// The bytes of this value.
    pub fn to_bytes(&self) -> (bytes: [u8; 72])
        ensures
            bytes@ == self.bytes(),
    {
        let mut bytes = [0u8; 72];
        put(&mut bytes, 0, &u64_to_bytes(self.uid));
        put(&mut bytes, 8, &self.sig.to_bytes());
        proof {
            lemma_le_bytes_len(self.uid as nat, 8);
            assert(bytes@ =~= self.bytes());
        }
        bytes
    }

    /// Reads a `LoginVerify` that was encrypted with the handshake cipher's
    /// next 72 bytes.
    pub fn decrypt(bytes: [u8; 72], cipher: &mut Sponge<HANDSHAKE_CIPHER>) -> (res: Result<
        LoginVerify,
        Error,
    >)
        ensures
            final(cipher)@ == old(cipher)@.squeeze(72),
            res is Ok == (le_nat(xor_seq(bytes@, old(cipher)@.output(72)).subrange(40, 72))
                < group_order()),
            res matches Ok(verify) ==> {
                let plain = xor_seq(bytes@, old(cipher)@.output(72));
                &&& verify.bytes() == plain
                &&& verify.uid == le_nat(plain.subrange(0, 8))
                &&& verify.sig@ == plain.subrange(8, 72)
            },
            res matches Err(e) ==> e == Error::MalformedInput,
    {
        let mut bytes = bytes;
        cipher.squeeze_xor_array::<72>(&mut bytes);
        LoginVerify::from_bytes(bytes)
    }

    /// The bytes of this `LoginVerify`, encrypted with the handshake cipher's
    /// next 72 bytes.
    pub fn encrypt(&self, cipher: &mut Sponge<HANDSHAKE_CIPHER>) -> (bytes: [u8; 72])
        ensures
            final(cipher)@ == old(cipher)@.squeeze(72),
            bytes@ == xor_seq(self.bytes(), old(cipher)@.output(72)),
    {
        let mut bytes = self.to_bytes();
        cipher.squeeze_xor_array::<72>(&mut bytes);
        bytes
    }
}

impl FrameAheadHeader {
    /// The byte form: the fields in order.
    pub open spec fn bytes(&self) -> Seq<u8> {
        ahead_bytes(self.req_id, self.frame_len, self.mac@)
    }

    /// Reads the value from its bytes.
    pub fn from_bytes(bytes: [u8; 36]) -> (header: FrameAheadHeader)
        ensures
            header.bytes() == bytes@,
            header.req_id == le_nat(bytes@.subrange(0, 2)),
            header.frame_len == le_nat(bytes@.subrange(2, 4)),
            header.mac@ == bytes@.subrange(4, 36),
    {
        let req_id_bytes = take::<2>(&bytes, 0);
        let frame_len_bytes = take::<2>(&bytes, 2);
        let header = FrameAheadHeader {
            req_id: u16_from_bytes(&req_id_bytes),
            frame_len: u16_from_bytes(&frame_len_bytes),
            mac: take::<32>(&bytes, 4),
        };
        assert(header.bytes() =~= bytes@);
        header
    }

    /// The bytes of this value.
    pub fn to_bytes(&self) -> (bytes: [u8; 36])
        ensures
            bytes@ == self.bytes(),
    {
        let mut bytes = [0u8; 36];
        put(&mut bytes, 0, &u16_to_bytes(self.req_id));
        put(&mut bytes, 2, &u16_to_bytes(self.frame_len));
        put(&mut bytes, 4, &self.mac);
        proof {
            lemma_le_bytes_len(self.req_id as nat, 2);
            lemma_le_bytes_len(self.frame_len as nat, 2);
            assert(bytes@ =~= self.bytes());
        }
        bytes
    }
}

impl FrameBehindHeader {
    /// The byte form: the fields in order.
    pub open spec fn bytes(&self) -> Seq<u8> {
        behind_bytes(self.mac@, self.msg_id, self.frame_id)
    }

    /// Reads the value from its bytes.
    pub fn from_bytes(bytes: [u8; 36]) -> (header: FrameBehindHeader)
        ensures
            header.bytes() == bytes@,
            header.mac@ == bytes@.subrange(0, 32),
            header.msg_id == le_nat(bytes@.subrange(32, 34)),
            header.frame_id == le_nat(bytes@.subrange(34, 36)),
    {
        let msg_id_bytes = take::<2>(&bytes, 32);
        let frame_id_bytes = take::<2>(&bytes, 34);
        let header = FrameBehindHeader {
            mac: take::<32>(&bytes, 0),
            msg_id: u16_from_bytes(&msg_id_bytes),
            frame_id: u16_from_bytes(&frame_id_bytes),
        };
        assert(header.bytes() =~= bytes@);
        header
    }

    /// The bytes of this value.
    pub fn to_bytes(&self) -> (bytes: [u8; 36])
        ensures
            bytes@ == self.bytes(),
    {
        let mut bytes = [0u8; 36];
        put(&mut bytes, 0, &self.mac);
        put(&mut bytes, 32, &u16_to_bytes(self.msg_id));
        put(&mut bytes, 34, &u16_to_bytes(self.frame_id));
        proof {
            lemma_le_bytes_len(self.msg_id as nat, 2);
            lemma_le_bytes_len(self.frame_id as nat, 2);
            assert(bytes@ =~= self.bytes());
        }
        bytes
    }
}

} // verus!
