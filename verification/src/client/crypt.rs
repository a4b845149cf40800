//! The sealed messages of a login: how a text is sealed for the remote
//! store, how its answer is opened, and how a login is signed.

use crate::client::auth::dict_text;
use crate::client::auth::RecAuth;
use crate::client::auth::TextPair;
use crate::text::append_chars;
use crate::text::chars_of;
use crate::text::string_of;
use crate::text::utf8_text;
use vstd::prelude::*;
use vstd::utf8::decode_utf8;
use vstd::utf8::encode_utf8;
use vstd::utf8::valid_utf8;

verus! {

/// The number by which this client is known to the remote store.
pub const CLIENTID: &'static str = "d5485a8c-fecb-11e9-b690-005056b70c02";

/// The secret that leads the signing text of a login.
pub const SIGNATURE: &'static str = "VZPDF6HxKyh0hhqFqY2Tk6udzlambRgK";

/// The number of bytes in a key and in a block of the cipher.
pub const BLOCK_LEN: usize = 16;

/// The number of bytes that lead an opened login answer and are no part of
/// it.
pub const ANSWER_HEAD_LEN: usize = 16;

/// The key under which messages are sealed.
pub open spec fn aes_key() -> Seq<u8> {
    seq![103u8, 90u8, 77u8, 108u8, 86u8, 102u8, 50u8, 101u8, 106u8, 119u8, 108u8, 48u8, 86u8, 105u8,
        71u8, 52u8]
}

/// The first block that the cipher is chained from: the key backwards.
pub open spec fn aes_iv() -> Seq<u8> {
    aes_key().reverse()
}

/// Why a message cannot be sealed or opened.
#[derive(Clone, Copy, Debug, PartialEq, Eq, Structural)]
pub enum CryptError {
    /// The text is longer than a sealed message can say.
    TooLong,
    /// The sealed message is no base64.
    BadBase64,
    /// The opened message is shorter than its head.
    TooShort,
    /// The opened message is no text.
    BadText,
}

/// What AES-128 in CBC mode with PKCS7 padding makes of `data` under `key`,
/// chained from `iv`.
pub uninterp spec fn cbc_encrypted(key: Seq<u8>, iv: Seq<u8>, data: Seq<u8>) -> Seq<u8>;

/// What AES-128 in CBC mode gives back for `data` under `key`, chained from
/// `iv`, the padding taken off; nothing where `data` is no run of whole
/// blocks.
pub uninterp spec fn cbc_decrypted(key: Seq<u8>, iv: Seq<u8>, data: Seq<u8>) -> Seq<u8>;

/// The standard base64 text of `data`, padded.
pub uninterp spec fn base64_text(data: Seq<u8>) -> Seq<char>;

/// The bytes that a standard base64 text stands for; `None` where the text
/// is none.
pub uninterp spec fn base64_bytes(text: Seq<char>) -> Option<Seq<u8>>;

/// The MD5 digest of `data`, as 32 hexadecimal digits in upper case.
pub uninterp spec fn md5_hex(data: Seq<u8>) -> Seq<char>;

/// `libaes::Cipher::new_128` and `cbc_encrypt` on it, with padding as the
/// cipher has it when new.
#[verifier::external_body]
fn cbc_encrypt(key: &[u8], iv: &[u8], data: &[u8]) -> (r: Vec<u8>)
    requires
        key@.len() == BLOCK_LEN,
        iv@.len() == BLOCK_LEN,
    ensures
        r@ == cbc_encrypted(key@, iv@, data@),
{
    libaes::Cipher::new_128(key.try_into().unwrap()).cbc_encrypt(iv, data)
}

/// `libaes::Cipher::new_128` and `cbc_decrypt` on it, with padding as the
/// cipher has it when new.
#[verifier::external_body]
fn cbc_decrypt(key: &[u8], iv: &[u8], data: &[u8]) -> (r: Vec<u8>)
    requires
        key@.len() == BLOCK_LEN,
        iv@.len() == BLOCK_LEN,
    ensures
        r@ == cbc_decrypted(key@, iv@, data@),
{
    libaes::Cipher::new_128(key.try_into().unwrap()).cbc_decrypt(iv, data)
}

/// `base64::encode`.
#[verifier::external_body]
fn base64_encode(data: &[u8]) -> (r: String)
    ensures
        r@ == base64_text(data@),
{
    base64::encode(data)
}

/// `base64::decode`.
#[verifier::external_body]
fn base64_decode(text: &str) -> (r: Option<Vec<u8>>)
    ensures
        bytes_of(r) == base64_bytes(text@),
{
    match base64::decode(text) {
        Ok(bytes) => Some(bytes),
        Err(_) => None,
    }
}

/// `md5::compute`, written with `{:X}`.
#[verifier::external_body]
fn md5_upper_hex(data: &[u8]) -> (r: String)
    ensures
        r@ == md5_hex(data@),
{
    format!("{:X}", md5::compute(data))
}

/// What optional bytes hold.
pub open spec fn bytes_of(o: Option<Vec<u8>>) -> Option<Seq<u8>> {
    match o {
        Some(b) => Some(b@),
        None => None,
    }
}

/// The four bytes of `n`, most significant first.
pub open spec fn be_bytes(n: u32) -> Seq<u8> {
    seq![
        (n / 0x100_0000) as u8,
        (n / 0x1_0000 % 0x100) as u8,
        (n / 0x100 % 0x100) as u8,
        (n % 0x100) as u8,
    ]
}

/// A message as it is sealed: its length in four bytes, then its bytes.
pub open spec fn framed(data: Seq<u8>) -> Seq<u8> {
    be_bytes(data.len() as u32) + data
}

/// The sealed form of a text: its UTF-8 bytes, framed, encrypted, in
/// base64. A text of more bytes than a `u32` can count is refused.
pub open spec fn sealed(text: Seq<char>) -> Result<Seq<char>, CryptError> {
    let data = encode_utf8(text);
    if data.len() > u32::MAX {
        Err(CryptError::TooLong)
    } else {
        Ok(base64_text(cbc_encrypted(aes_key(), aes_iv(), framed(data))))
    }
}

/// The text of a decrypted message: with `strip` without its first
/// [`ANSWER_HEAD_LEN`] bytes, read as UTF-8.
pub open spec fn plain_text(plain: Seq<u8>, strip: bool) -> Result<Seq<char>, CryptError> {
    if strip && plain.len() < ANSWER_HEAD_LEN {
        Err(CryptError::TooShort)
    } else {
        let body = if strip {
            plain.skip(ANSWER_HEAD_LEN as int)
        } else {
            plain
        };
        if valid_utf8(body) {
            Ok(decode_utf8(body))
        } else {
            Err(CryptError::BadText)
        }
    }
}

/// The text of a sealed message: the base64 decoded and decrypted, then
/// read as [`plain_text`] says.
pub open spec fn opened(text: Seq<char>, strip: bool) -> Result<Seq<char>, CryptError> {
    match base64_bytes(text) {
        None => Err(CryptError::BadBase64),
        Some(data) => plain_text(cbc_decrypted(aes_key(), aes_iv(), data), strip),
    }
}

/// What leads the text of a login before it is sealed: twelve times `A`.
pub open spec fn login_head() -> Seq<char> {
    "AAAAAAAAAAAA"@
}

/// The signing text of a login: the secret, then the ticket and the sealed
/// message as a dictionary.
pub open spec fn sign_text(tempticket: Seq<char>, encrypted: Seq<char>) -> Seq<char> {
    SIGNATURE@ + dict_text(seq![("tempticket"@, tempticket), ("msg_encrypt"@, encrypted)])
}

/// The signature of a login.
pub open spec fn login_signature(tempticket: Seq<char>, encrypted: Seq<char>) -> Seq<char> {
    md5_hex(encode_utf8(sign_text(tempticket, encrypted)))
}

/// The path of the login call.
pub open spec fn login_path_of(tempticket: Seq<char>, sign: Seq<char>) -> Seq<char> {
    "user/login?tempticket="@ + tempticket + "&sign="@ + sign
}

/// What a text, or the error in its place, holds.
pub open spec fn text_result(r: Result<String, CryptError>) -> Result<Seq<char>, CryptError> {
    match r {
        Ok(s) => Ok(s@),
        Err(e) => Err(e),
    }
}

/// The key under which messages are sealed.
pub fn key_bytes() -> (k: Vec<u8>)
    ensures
        k@ == aes_key(),
{
    let mut k: Vec<u8> = Vec::new();
    k.push(103);
    k.push(90);
    k.push(77);
    k.push(108);
    k.push(86);
    k.push(102);
    k.push(50);
    k.push(101);
    k.push(106);
    k.push(119);
    k.push(108);
    k.push(48);
    k.push(86);
    k.push(105);
    k.push(71);
    k.push(52);
    assert(k@ == aes_key());
    k
}

/// The bytes of `v` in the opposite order.
pub fn reversed(v: &[u8]) -> (r: Vec<u8>)
    ensures
        r@ == v@.reverse(),
{
    let mut r: Vec<u8> = Vec::new();
    let mut i: usize = v.len();
    while i > 0
        invariant
            i <= v.len(),
            r@.len() == v.len() - i,
            forall|k: int| 0 <= k < r@.len() ==> r@[k] == v@[v.len() - 1 - k],
        decreases i,
    {
        i -= 1;
        r.push(v[i]);
    }
    assert(r@ =~= v@.reverse());
    r
}

/// A message as it is sealed: its length in four bytes, then its bytes.
pub fn frame(data: &[u8]) -> (r: Vec<u8>)
    requires
        data.len() <= u32::MAX,
    ensures
        r@ == framed(data@),
{
    let n: u32 = data.len() as u32;
    let mut r: Vec<u8> = Vec::new();
    r.push((n / 0x100_0000) as u8);
    r.push((n / 0x1_0000 % 0x100) as u8);
    r.push((n / 0x100 % 0x100) as u8);
    r.push((n % 0x100) as u8);
    assert(r@ == be_bytes(n));
    let mut i: usize = 0;
    while i < data.len()
        invariant
            i <= data.len(),
            r@ == be_bytes(n) + data@.take(i as int),
        decreases data.len() - i,
    {
        r.push(data[i]);
        assert(data@.take(i + 1) == data@.take(i as int).push(data@[i as int]));
        i += 1;
    }
    assert(data@.take(data.len() as int) == data@);
    r
}

impl RecAuth {
    /// Seals `data` for the remote store.
    pub fn aes_encrypt(data: &str) -> (r: Result<String, CryptError>)
        ensures
            text_result(r) == sealed(data@),
    {
        let bytes = data.as_bytes();
        if bytes.len() > u32::MAX as usize {
            return Err(CryptError::TooLong);
        }
        let key = key_bytes();
        let iv = reversed(key.as_slice());
        let payload = frame(bytes);
        let encrypted = cbc_encrypt(key.as_slice(), iv.as_slice(), payload.as_slice());
        Ok(base64_encode(encrypted.as_slice()))
    }

    /// Opens a message that the remote store sealed. With `strip` the
    /// message is the answer to a login, whose head is left out.
    pub fn aes_decrypt(data: &str, strip: bool) -> (r: Result<String, CryptError>)
        ensures
            text_result(r) == opened(data@, strip),
    {
        let encrypted = match base64_decode(data) {
            Some(e) => e,
            None => {
                return Err(CryptError::BadBase64);
            },
        };
        let key = key_bytes();
        let iv = reversed(key.as_slice());
        let plain = cbc_decrypt(key.as_slice(), iv.as_slice(), encrypted.as_slice());
        RecAuth::plain_text(plain, strip)
    }

    /// The text of a decrypted message. With `strip` the message is the
    /// answer to a login, whose head is left out.
    pub fn plain_text(plain: Vec<u8>, strip: bool) -> (r: Result<String, CryptError>)
        ensures
            text_result(r) == plain_text(plain@, strip),
    {
        let mut body = plain;
        if strip {
            if body.len() < ANSWER_HEAD_LEN {
                return Err(CryptError::TooShort);
            }
            body = body.split_off(ANSWER_HEAD_LEN);
        }
        match utf8_text(body) {
            Some(s) => Ok(s),
            None => Err(CryptError::BadText),
        }
    }

    /// The text of a login before it is sealed: twelve times `A`, then the
    /// credentials as JSON.
    pub fn login_plain(credentials: &str) -> (r: String)
        ensures
            r@ == login_head() + credentials@,
    {
        let mut v = chars_of("AAAAAAAAAAAA");
        let c = chars_of(credentials);
        append_chars(&mut v, c.as_slice());
        string_of(v.as_slice())
    }

    /// The signature of a login with this ticket and this sealed message.
    pub fn login_sign(tempticket: &str, encrypted: &str) -> (r: String)
        ensures
            r@ == login_signature(tempticket@, encrypted@),
    {
        let mut dict: Vec<(String, String)> = Vec::new();
        dict.push(("tempticket".to_owned(), tempticket.to_owned()));
        dict.push(("msg_encrypt".to_owned(), encrypted.to_owned()));
        let ghost pairs: Seq<TextPair> = seq![
            ("tempticket"@, tempticket@),
            ("msg_encrypt"@, encrypted@),
        ];
        assert(crate::client::auth::pairs_view(dict@) =~= pairs);
        let text = RecAuth::serialize_dict(dict.as_slice());
        let mut v = chars_of(SIGNATURE);
        let t = chars_of(text.as_str());
        append_chars(&mut v, t.as_slice());
        let sign = string_of(v.as_slice());
        md5_upper_hex(sign.as_str().as_bytes())
    }

    /// The path of the login call with this ticket and this signature.
    pub fn login_path(tempticket: &str, sign: &str) -> (r: String)
        ensures
            r@ == login_path_of(tempticket@, sign@),
    {
        let mut v = chars_of("user/login?tempticket=");
        let t = chars_of(tempticket);
        append_chars(&mut v, t.as_slice());
        let a = chars_of("&sign=");
        append_chars(&mut v, a.as_slice());
        let s = chars_of(sign);
        append_chars(&mut v, s.as_slice());
        string_of(v.as_slice())
    }
}

} // verus!
