//! Stream encryption: AES-128 operated in 8-bit cipher-feedback mode.
//! Each byte is XORed with the first byte of the block encryption of a
//! 16-byte feedback register, and the register then shifts one byte,
//! taking the ciphertext byte in at the end; the cipher is a continuous
//! byte stream whose state depends on every prior ciphertext byte.

use vstd::prelude::*;
use aes::cipher::{BlockEncrypt, KeyInit};

verus! {

/// What AES-128 returns for one block under one key: a function of the
/// key and block alone.
pub uninterp spec fn aes_block_of(key: Seq<u8>, block: Seq<u8>) -> Seq<u8>;

/// Relies on `aes::Aes128` (`encrypt_block` of the `cipher` traits): one
/// block encryption, deterministic in key and block, 16 bytes out.
#[verifier::external_body]
fn aes_encrypt_block(key: &Vec<u8>, block: &Vec<u8>) -> (r: Vec<u8>)
    requires
        key@.len() == 16,
        block@.len() == 16,
    ensures
        r@ == aes_block_of(key@, block@),
        r@.len() == 16,
{
    let cipher = aes::Aes128::new_from_slice(key.as_slice()).unwrap();
    let mut b = aes::cipher::generic_array::GenericArray::clone_from_slice(block.as_slice());
    cipher.encrypt_block(&mut b);
    b.to_vec()
}

/// The ciphertext of `data` under CFB8 with the given key and register.
pub open spec fn cfb8_encrypt(key: Seq<u8>, reg: Seq<u8>, data: Seq<u8>) -> Seq<u8>
    decreases data.len(),
{
    if data.len() == 0 {
        seq![]
    } else {
        let ks = aes_block_of(key, reg)[0];
        let c = data[0] ^ ks;
        seq![c] + cfb8_encrypt(key, reg.skip(1).push(c), data.skip(1))
    }
}

/// The feedback register after encrypting `data`.
pub open spec fn cfb8_encrypt_reg(key: Seq<u8>, reg: Seq<u8>, data: Seq<u8>) -> Seq<u8>
    decreases data.len(),
{
    if data.len() == 0 {
        reg
    } else {
        let ks = aes_block_of(key, reg)[0];
        let c = data[0] ^ ks;
        cfb8_encrypt_reg(key, reg.skip(1).push(c), data.skip(1))
    }
}

/// The plaintext of `data` under CFB8 with the given key and register.
pub open spec fn cfb8_decrypt(key: Seq<u8>, reg: Seq<u8>, data: Seq<u8>) -> Seq<u8>
    decreases data.len(),
{
    if data.len() == 0 {
        seq![]
    } else {
        let ks = aes_block_of(key, reg)[0];
        let p = data[0] ^ ks;
        seq![p] + cfb8_decrypt(key, reg.skip(1).push(data[0]), data.skip(1))
    }
}

/// The feedback register after decrypting `data`.
pub open spec fn cfb8_decrypt_reg(key: Seq<u8>, reg: Seq<u8>, data: Seq<u8>) -> Seq<u8>
    decreases data.len(),
{
    if data.len() == 0 {
        reg
    } else {
        cfb8_decrypt_reg(key, reg.skip(1).push(data[0]), data.skip(1))
    }
}

/// Appending one byte to the stream appends one ciphertext byte and
/// shifts the final register.
pub proof fn lemma_cfb8_encrypt_snoc(key: Seq<u8>, reg: Seq<u8>, d: Seq<u8>, x: u8)
    ensures
        ({
            let r = cfb8_encrypt_reg(key, reg, d);
            let c = x ^ aes_block_of(key, r)[0];
            &&& cfb8_encrypt(key, reg, d.push(x)) == cfb8_encrypt(key, reg, d).push(c)
            &&& cfb8_encrypt_reg(key, reg, d.push(x)) == r.skip(1).push(c)
        }),
    decreases d.len(),
{
    if d.len() == 0 {
        assert(d.push(x)[0] == x);
        assert(d.push(x).skip(1) =~= Seq::<u8>::empty());
        let ks = aes_block_of(key, reg)[0];
        let c = x ^ ks;
        assert(cfb8_encrypt(key, reg.skip(1).push(c), Seq::<u8>::empty()) == Seq::<u8>::empty());
        assert(cfb8_encrypt_reg(key, reg.skip(1).push(c), Seq::<u8>::empty()) == reg.skip(1).push(
            c,
        ));
        assert(cfb8_encrypt(key, reg, d.push(x)) =~= seq![c]);
        assert(cfb8_encrypt(key, reg, d).push(c) =~= seq![c]);
        assert(cfb8_encrypt_reg(key, reg, d) == reg);
    } else {
        assert(d.push(x)[0] == d[0]);
        assert(d.push(x).skip(1) =~= d.skip(1).push(x));
        let ks = aes_block_of(key, reg)[0];
        let c0 = d[0] ^ ks;
        lemma_cfb8_encrypt_snoc(key, reg.skip(1).push(c0), d.skip(1), x);
        let r = cfb8_encrypt_reg(key, reg, d);
        let c = x ^ aes_block_of(key, r)[0];
        assert(cfb8_encrypt(key, reg, d.push(x)) =~= cfb8_encrypt(key, reg, d).push(c));
    }
}

/// The same for decryption: the register takes the input byte.
pub proof fn lemma_cfb8_decrypt_snoc(key: Seq<u8>, reg: Seq<u8>, d: Seq<u8>, x: u8)
    ensures
        ({
            let r = cfb8_decrypt_reg(key, reg, d);
            let p = x ^ aes_block_of(key, r)[0];
            &&& cfb8_decrypt(key, reg, d.push(x)) == cfb8_decrypt(key, reg, d).push(p)
            &&& cfb8_decrypt_reg(key, reg, d.push(x)) == r.skip(1).push(x)
        }),
    decreases d.len(),
{
    if d.len() == 0 {
        assert(d.push(x)[0] == x);
        assert(d.push(x).skip(1) =~= Seq::<u8>::empty());
        let ks = aes_block_of(key, reg)[0];
        let p = x ^ ks;
        assert(cfb8_decrypt(key, reg.skip(1).push(x), Seq::<u8>::empty()) == Seq::<u8>::empty());
        assert(cfb8_decrypt_reg(key, reg.skip(1).push(x), Seq::<u8>::empty()) == reg.skip(1).push(
            x,
        ));
        assert(cfb8_decrypt(key, reg, d.push(x)) =~= seq![p]);
        assert(cfb8_decrypt(key, reg, d).push(p) =~= seq![p]);
        assert(cfb8_decrypt_reg(key, reg, d) == reg);
    } else {
        assert(d.push(x)[0] == d[0]);
        assert(d.push(x).skip(1) =~= d.skip(1).push(x));
        lemma_cfb8_decrypt_snoc(key, reg.skip(1).push(d[0]), d.skip(1), x);
        let r = cfb8_decrypt_reg(key, reg, d);
        let p = x ^ aes_block_of(key, r)[0];
        assert(cfb8_decrypt(key, reg, d.push(x)) =~= cfb8_decrypt(key, reg, d).push(p));
    }
}

/// Decrypting what was encrypted, starting from the same key and
/// register, returns the plaintext exactly, and both sides end with the
/// same register: the two stream states stay in lock step because each
/// feeds the ciphertext byte back.
pub proof fn lemma_cfb8_roundtrip(key: Seq<u8>, reg: Seq<u8>, data: Seq<u8>)
    ensures
        cfb8_decrypt(key, reg, cfb8_encrypt(key, reg, data)) == data,
        cfb8_decrypt_reg(key, reg, cfb8_encrypt(key, reg, data)) == cfb8_encrypt_reg(
            key,
            reg,
            data,
        ),
    decreases data.len(),
{
    if data.len() == 0 {
        assert(cfb8_encrypt(key, reg, data) =~= Seq::<u8>::empty());
        assert(cfb8_decrypt(key, reg, Seq::<u8>::empty()) =~= Seq::<u8>::empty());
        assert(data =~= Seq::<u8>::empty());
    } else {
        let ks = aes_block_of(key, reg)[0];
        let c = data[0] ^ ks;
        let enc = cfb8_encrypt(key, reg, data);
        assert(enc[0] == c);
        assert(enc.skip(1) =~= cfb8_encrypt(key, reg.skip(1).push(c), data.skip(1)));
        let d0 = data[0];
        assert((d0 ^ ks) ^ ks == d0) by (bit_vector);
        lemma_cfb8_roundtrip(key, reg.skip(1).push(c), data.skip(1));
        assert(cfb8_decrypt(key, reg, enc) =~= data);
    }
}

/// One direction of a CFB8 stream: the key and the current feedback
/// register.
#[derive(Clone, Debug)]
pub struct Cfb8 {
    pub key: Vec<u8>,
    pub register: Vec<u8>,
}

impl Cfb8 {
    /// Both key and register hold sixteen bytes.
    pub open spec fn wf(&self) -> bool {
        self.key@.len() == 16 && self.register@.len() == 16
    }

    /// Start a stream from a shared secret: it serves as both key and
    /// initialization vector.
    pub fn new(secret: &Vec<u8>) -> (r: Cfb8)
        requires
            secret@.len() == 16,
        ensures
            r.wf(),
            r.key@ == secret@,
            r.register@ == secret@,
    {
        Cfb8 { key: secret.clone(), register: secret.clone() }
    }

    /// Encrypt bytes in send order, advancing the register.
    pub fn encrypt(&mut self, data: &Vec<u8>) -> (r: Vec<u8>)
        requires
            old(self).wf(),
        ensures
            final(self).wf(),
            final(self).key@ == old(self).key@,
            r@ == cfb8_encrypt(old(self).key@, old(self).register@, data@),
            final(self).register@ == cfb8_encrypt_reg(old(self).key@, old(self).register@, data@),
    {
        let ghost key0 = self.key@;
        let ghost reg0 = self.register@;
        let mut out: Vec<u8> = Vec::new();
        let mut i: usize = 0;
        proof {
            assert(data@.take(0int) =~= Seq::<u8>::empty());
        }
        while i < data.len()
            invariant
                i <= data@.len(),
                self.wf(),
                self.key@ == key0,
                out@ == cfb8_encrypt(key0, reg0, data@.take(i as int)),
                self.register@ == cfb8_encrypt_reg(key0, reg0, data@.take(i as int)),
            decreases data@.len() - i,
        {
            let block = aes_encrypt_block(&self.key, &self.register);
            let c = data[i] ^ block[0];
            out.push(c);
            self.register.remove(0);
            self.register.push(c);
            proof {
                lemma_cfb8_encrypt_snoc(key0, reg0, data@.take(i as int), data@[i as int]);
                assert(data@.take(i as int + 1) =~= data@.take(i as int).push(data@[i as int]));
            }
            i = i + 1;
        }
        assert(data@.take(data@.len() as int) =~= data@);
        out
    }

    /// Decrypt bytes in arrival order, advancing the register.
    pub fn decrypt(&mut self, data: &Vec<u8>) -> (r: Vec<u8>)
        requires
            old(self).wf(),
        ensures
            final(self).wf(),
            final(self).key@ == old(self).key@,
            r@ == cfb8_decrypt(old(self).key@, old(self).register@, data@),
            final(self).register@ == cfb8_decrypt_reg(old(self).key@, old(self).register@, data@),
    {
        let ghost key0 = self.key@;
        let ghost reg0 = self.register@;
        let mut out: Vec<u8> = Vec::new();
        let mut i: usize = 0;
        proof {
            assert(data@.take(0int) =~= Seq::<u8>::empty());
        }
        while i < data.len()
            invariant
                i <= data@.len(),
                self.wf(),
                self.key@ == key0,
                out@ == cfb8_decrypt(key0, reg0, data@.take(i as int)),
                self.register@ == cfb8_decrypt_reg(key0, reg0, data@.take(i as int)),
            decreases data@.len() - i,
        {
            let block = aes_encrypt_block(&self.key, &self.register);
            let p = data[i] ^ block[0];
            out.push(p);
            let c = data[i];
            self.register.remove(0);
            self.register.push(c);
            proof {
                lemma_cfb8_decrypt_snoc(key0, reg0, data@.take(i as int), data@[i as int]);
                assert(data@.take(i as int + 1) =~= data@.take(i as int).push(data@[i as int]));
            }
            i = i + 1;
        }
        assert(data@.take(data@.len() as int) =~= data@);
        out
    }
}

} // verus!
