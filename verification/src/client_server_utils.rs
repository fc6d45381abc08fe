//! The server's password check against an RSA-encrypted secret, and the
//! choice of the machine's address among its network interfaces.

use openssl::error::ErrorStack;
use openssl::pkey::Private;
use openssl::rsa::Rsa;
use vstd::prelude::*;
use vstd::utf8::decode_utf8;
use vstd::utf8::valid_utf8;
use crate::text::all_space;
use crate::text::lemma_trim_ignores_padding;
use crate::text::same_text;
use crate::text::trim;
use crate::text::trimmed;

verus! {

/// `openssl::rsa::Rsa`, an RSA key; opaque here.
#[verifier::external_type_specification]
#[verifier::external_body]
#[verifier::reject_recursive_types(T)]
pub struct ExRsa<T>(Rsa<T>);

/// `openssl::pkey::Private`, the tag of keys with private components.
#[verifier::external_type_specification]
#[verifier::external_body]
pub struct ExPrivate(Private);

/// `openssl::error::ErrorStack`, the errors OpenSSL reports; opaque here.
#[verifier::external_type_specification]
#[verifier::external_body]
pub struct ExErrorStack(ErrorStack);

/// `Rsa::size` of the key read from these PEM bytes: its modulus in bytes.
pub uninterp spec fn rsa_modulus_bytes(pem: Seq<u8>) -> u32;

/// The plaintext that `Rsa::private_decrypt` with PKCS#1 padding gives for
/// `ciphertext` under the key read from `pem`, where it succeeds. It is fixed
/// by the key and the ciphertext: a properly padded ciphertext gives the
/// message it carries, and where OpenSSL (3.2 on) answers a badly padded one
/// with a substitute, that substitute is derived from the key and the
/// ciphertext alone. Where the call fails, this names nothing that is used.
pub uninterp spec fn pkcs1_plaintext(pem: Seq<u8>, ciphertext: Seq<u8>) -> Seq<u8>;

/// What `String::from_utf8_lossy` makes of `bytes`.
pub uninterp spec fn lossy_decoding(bytes: Seq<u8>) -> Seq<char>;

/// An RSA private key, together with the PEM text it was read from, which
/// is what it stands for in contracts.
struct PrivateKey {
    rsa: Rsa<Private>,
    pem: Ghost<Seq<u8>>,
}

impl View for PrivateKey {
    type V = Seq<u8>;

    closed spec fn view(&self) -> Seq<u8> {
        self.pem@
    }
}

/// Calls `Rsa::private_key_from_pem`. Claimed: a key it hands back stands
/// for the PEM text it was read from. Which texts it accepts is not stated:
/// that can depend on the OpenSSL library linked in, on the providers its
/// configuration loads, and, for a key locked by a passphrase, on what is
/// typed at OpenSSL's prompt. It panics on a text longer than `c_int::MAX`
/// bytes, which `requires` leaves out.
#[verifier::external_body]
fn read_private_key(pem: &[u8]) -> (res: Result<PrivateKey, ErrorStack>)
    requires
        pem@.len() <= i32::MAX,
    ensures
        res matches Ok(key) ==> key@ == pem@,
{
    match Rsa::private_key_from_pem(pem) {
        Ok(rsa) => Ok(PrivateKey { rsa, pem: Ghost(pem@) }),
        Err(e) => Err(e),
    }
}

/// Calls `Rsa::size`. Claimed: the result is `rsa_modulus_bytes` of the key.
#[verifier::external_body]
fn modulus_bytes(key: &PrivateKey) -> (n: u32)
    ensures
        n == rsa_modulus_bytes(key@),
{
    key.rsa.size()
}

/// Calls `Rsa::private_decrypt` with `Padding::PKCS1`. Claimed: it keeps the
/// length of `to`; on success the count `n` it returns is within `to`, and
/// the first `n` bytes of `to` are `pkcs1_plaintext` of the key and `from`.
/// Whether it succeeds is not stated: that depends on the OpenSSL library
/// linked in (before 3.2 a badly padded ciphertext is an error, from 3.2 on
/// it gives a substitute plaintext). It panics where `from` is longer than
/// `i32::MAX` bytes or `to` is shorter than the modulus, which `requires`
/// leaves out.
#[verifier::external_body]
fn private_decrypt_pkcs1(key: &PrivateKey, from: &[u8], to: &mut Vec<u8>) -> (res: Result<
    usize,
    ErrorStack,
>)
    requires
        from@.len() <= i32::MAX,
        old(to)@.len() >= rsa_modulus_bytes(key@),
    ensures
        final(to)@.len() == old(to)@.len(),
        res matches Ok(n) ==> n <= old(to)@.len() && final(to)@.subrange(0, n as int)
            == pkcs1_plaintext(key@, from@),
{
    key.rsa.private_decrypt(from, to.as_mut_slice(), openssl::rsa::Padding::PKCS1)
}

/// Calls `String::from_utf8_lossy` and takes the text as a `String`.
/// Claimed: the result is `lossy_decoding` of the bytes, and on valid UTF-8
/// it is the decoded text.
#[verifier::external_body]
fn decode_lossy(bytes: &[u8]) -> (s: String)
    ensures
        s@ == lossy_decoding(bytes@),
        valid_utf8(bytes@) ==> s@ == decode_utf8(bytes@),
{
    String::from_utf8_lossy(bytes).into_owned()
}

/// Why a password could not be checked.
#[derive(Debug, Clone, Copy, PartialEq, Eq)]
pub enum PasswordError {
    /// The PEM text is not an RSA private key.
    InvalidPrivateKey,
    /// The encrypted password does not decrypt under the key.
    DecryptionFailed,
}

/// Whether the typed password and the decrypted secret agree once both are
/// trimmed.
pub open spec fn passwords_agree(password: Seq<char>, secret: Seq<u8>) -> bool {
    trimmed(password) == trimmed(lossy_decoding(secret))
}

/// The verdict on `password` against a decrypted `secret`, as
/// `password_matches` gives it; on valid UTF-8 the secret's text is its
/// decoding.
pub open spec fn verdict_on(password: Seq<char>, secret: Seq<u8>, b: bool) -> bool {
    &&& b == passwords_agree(password, secret)
    &&& valid_utf8(secret) ==> b == (trimmed(password) == trimmed(decode_utf8(secret)))
}

/// Whether `password` matches the decrypted `secret`: both are decoded as
/// text, trimmed and compared.
pub fn password_matches(password: &str, secret: &[u8]) -> (b: bool)
    ensures
        b == passwords_agree(password@, secret@),
        valid_utf8(secret@) ==> b == (trimmed(password@) == trimmed(decode_utf8(secret@))),
{
    let decrypted = decode_lossy(secret);
    let expected = trim(decrypted.as_str());
    let given = trim(password);
    same_text(given, expected)
}

/// A vector of `n` zero bytes.
fn zeroed(n: usize) -> (v: Vec<u8>)
    ensures
        v@.len() == n,
{
    let mut v: Vec<u8> = Vec::new();
    while v.len() < n
        invariant
            v@.len() <= n,
        decreases n - v@.len(),
    {
        v.push(0);
    }
    v
}

/// Checks `password` against the secret that `encrypted_password` holds,
/// encrypted with PKCS#1 padding for the RSA key whose private half
/// `private_key_pem` holds. `Ok(true)` where the trimmed texts agree.
/// `Err(InvalidPrivateKey)` where OpenSSL does not read the key,
/// `Err(DecryptionFailed)` where it does not decrypt the password; which
/// inputs those are rests with the OpenSSL library linked in. On success the
/// verdict is that of `password_matches` on `pkcs1_plaintext` of the key and
/// the encrypted password.
pub fn decrypt_password_rsa(password: &str, private_key_pem: &[u8], encrypted_password: &[u8]) -> (res:
    Result<bool, PasswordError>)
    requires
        private_key_pem@.len() <= i32::MAX,
        encrypted_password@.len() <= i32::MAX,
    ensures
        res matches Ok(b) ==> verdict_on(
            password@,
            pkcs1_plaintext(private_key_pem@, encrypted_password@),
            b,
        ),
{
    let key = match read_private_key(private_key_pem) {
        Ok(key) => key,
        Err(_) => {
            return Err(PasswordError::InvalidPrivateKey);
        },
    };
    let size = modulus_bytes(&key);
    let mut buffer = zeroed(size as usize);
    match private_decrypt_pkcs1(&key, encrypted_password, &mut buffer) {
        Ok(n) => {
            let secret = vstd::slice::slice_subrange(buffer.as_slice(), 0, n);
            verdict_for(password, Some(secret))
        },
        Err(_) => verdict_for(password, None),
    }
}

/// The address of a network interface of this machine.
#[derive(Debug, Clone, Copy, PartialEq, Eq)]
pub enum InterfaceAddr {
    /// An IPv4 address, by its four octets.
    V4([u8; 4]),
    /// An IPv6 address, by its eight segments.
    V6([u16; 8]),
}

/// Whether an interface address is a loopback one: `127.x.x.x` for IPv4,
/// `::1` for IPv6.
pub open spec fn is_loopback_addr(a: InterfaceAddr) -> bool {
    match a {
        InterfaceAddr::V4(o) => o@[0] == 127,
        InterfaceAddr::V6(s) => s@ == seq![0u16, 0, 0, 0, 0, 0, 0, 1],
    }
}

impl InterfaceAddr {
    /// Whether this is a loopback address.
    pub fn is_loopback(&self) -> (b: bool)
        ensures
            b == is_loopback_addr(*self),
    {
        match self {
            InterfaceAddr::V4(o) => o[0] == 127,
            InterfaceAddr::V6(s) => {
                let r = s[0] == 0 && s[1] == 0 && s[2] == 0 && s[3] == 0 && s[4] == 0 && s[5] == 0
                    && s[6] == 0 && s[7] == 1;
                assert(r ==> s@ =~= seq![0u16, 0, 0, 0, 0, 0, 0, 1]);
                r
            },
        }
    }
}

/// The octets of the first interface address that is IPv4 and not loopback.
pub open spec fn first_public_ipv4(addrs: Seq<InterfaceAddr>) -> Option<[u8; 4]>
    decreases addrs.len(),
{
    if addrs.len() == 0 {
        None
    } else {
        match addrs[0] {
            InterfaceAddr::V4(o) => if o@[0] != 127 {
                Some(o)
            } else {
                first_public_ipv4(addrs.drop_first())
            },
            InterfaceAddr::V6(_) => first_public_ipv4(addrs.drop_first()),
        }
    }
}

/// The decimal digit `d`.
pub open spec fn digit_char(d: int) -> char {
    seq!['0', '1', '2', '3', '4', '5', '6', '7', '8', '9'][d]
}

/// `n` in decimal, without leading zeros.
pub open spec fn decimal(n: nat) -> Seq<char>
    decreases n,
{
    if n < 10 {
        seq![digit_char(n as int)]
    } else {
        decimal(n / 10) + seq![digit_char((n % 10) as int)]
    }
}

/// The dotted-decimal form of an IPv4 address, as `Ipv4Addr` prints it.
pub open spec fn dotted_quad(o: [u8; 4]) -> Seq<char> {
    decimal(o@[0] as nat) + seq!['.'] + decimal(o@[1] as nat) + seq!['.'] + decimal(
        o@[2] as nat,
    ) + seq!['.'] + decimal(o@[3] as nat)
}

/// The text of the digit `d`.
fn digit_text(d: u8) -> (t: &'static str)
    requires
        d < 10,
    ensures
        t@ == seq![digit_char(d as int)],
{
    proof {
        reveal_strlit("0");
        reveal_strlit("1");
        reveal_strlit("2");
        reveal_strlit("3");
        reveal_strlit("4");
        reveal_strlit("5");
        reveal_strlit("6");
        reveal_strlit("7");
        reveal_strlit("8");
        reveal_strlit("9");
    }
    match d {
        0 => "0",
        1 => "1",
        2 => "2",
        3 => "3",
        4 => "4",
        5 => "5",
        6 => "6",
        7 => "7",
        8 => "8",
        _ => "9",
    }
}

/// Appends `n` in decimal to `s`.
fn push_decimal(s: &mut String, n: u8)
    ensures
        final(s)@ == old(s)@ + decimal(n as nat),
{
    let ghost start = s@;
    if n >= 100 {
        s.append(digit_text(n / 100));
        s.append(digit_text((n / 10) % 10));
        s.append(digit_text(n % 10));
        assert(decimal((n / 10) as nat) == decimal((n / 100) as nat) + seq![
            digit_char(((n / 10) % 10) as int),
        ]);
        assert(decimal(n as nat) == decimal((n / 10) as nat) + seq![digit_char((n % 10) as int)]);
        assert(s@ =~= start + decimal(n as nat));
    } else if n >= 10 {
        s.append(digit_text(n / 10));
        s.append(digit_text(n % 10));
        assert(decimal(n as nat) == decimal((n / 10) as nat) + seq![digit_char((n % 10) as int)]);
        assert(s@ =~= start + decimal(n as nat));
    } else {
        s.append(digit_text(n));
    }
}

/// The dotted-decimal text of an IPv4 address.
pub fn format_ipv4(o: [u8; 4]) -> (s: String)
    ensures
        s@ == dotted_quad(o),
{
    proof {
        reveal_strlit(".");
    }
    let mut s = String::new();
    push_decimal(&mut s, o[0]);
    s.append(".");
    push_decimal(&mut s, o[1]);
    s.append(".");
    push_decimal(&mut s, o[2]);
    s.append(".");
    push_decimal(&mut s, o[3]);
    assert(s@ =~= dotted_quad(o));
    s
}

/// The first non-loopback IPv4 address among the machine's interface
/// addresses, in dotted-decimal form; `None` where there is none.
pub fn get_ipv4(interfaces: &Vec<InterfaceAddr>) -> (res: Option<String>)
    ensures
        match first_public_ipv4(interfaces@) {
            None => res is None,
            Some(o) => res matches Some(s) && s@ == dotted_quad(o),
        },
        res matches Some(s) ==> exists|i: int|
            0 <= i < interfaces@.len() && (match #[trigger] interfaces@[i] {
                InterfaceAddr::V4(o) => o@[0] != 127 && s@ == dotted_quad(o),
                InterfaceAddr::V6(_) => false,
            }) && forall|j: int| 0 <= j < i ==> !is_public_v4(#[trigger] interfaces@[j]),
        res is None ==> forall|j: int|
            0 <= j < interfaces@.len() ==> !is_public_v4(#[trigger] interfaces@[j]),
{
    let mut k: usize = 0;
    assert(interfaces@.skip(0) =~= interfaces@);
    while k < interfaces.len()
        invariant
            k <= interfaces@.len(),
            first_public_ipv4(interfaces@) == first_public_ipv4(interfaces@.skip(k as int)),
            forall|j: int| 0 <= j < k ==> !is_public_v4(#[trigger] interfaces@[j]),
        decreases interfaces@.len() - k,
    {
        let iface = interfaces[k];
        proof {
            let rest = interfaces@.skip(k as int);
            assert(rest[0] == iface);
            assert(rest.drop_first() =~= interfaces@.skip(k + 1));
        }
        if !iface.is_loopback() {
            if let InterfaceAddr::V4(o) = iface {
                let s = format_ipv4(o);
                assert(interfaces@[k as int] == iface);
                return Some(s);
            }
        }
        k = k + 1;
    }
    proof {
        assert(interfaces@.skip(k as int).len() == 0);
    }
    None
}

/// The address chosen is one of the machine's IPv4 addresses, and not a
/// loopback one; where there is none, the only IPv4 addresses are loopback.
pub proof fn lemma_chosen_address_is_public(addrs: Seq<InterfaceAddr>)
    ensures
        first_public_ipv4(addrs) matches Some(o) ==> o@[0] != 127 && addrs.contains(
            InterfaceAddr::V4(o),
        ),
        first_public_ipv4(addrs) is None ==> forall|i: int|
            0 <= i < addrs.len() && (#[trigger] addrs[i] is V4) ==> is_loopback_addr(addrs[i]),
    decreases addrs.len(),
{
    if addrs.len() > 0 {
        let rest = addrs.drop_first();
        lemma_chosen_address_is_public(rest);
        if let Some(o) = first_public_ipv4(addrs) {
            if addrs[0] != InterfaceAddr::V4(o) {
                let k = choose|k: int| 0 <= k < rest.len() && rest[k] == InterfaceAddr::V4(o);
                assert(addrs[k + 1] == InterfaceAddr::V4(o));
            } else {
                assert(addrs[0] == InterfaceAddr::V4(o));
            }
        } else {
            assert forall|i: int|
                0 <= i < addrs.len() && (#[trigger] addrs[i] is V4) implies is_loopback_addr(addrs[i]) by {
                if i > 0 {
                    assert(addrs[i] == rest[i - 1]);
                }
            }
        }
    }
}

/// The verdict on a password is a function of the password and the secret:
/// two checks against the same encrypted password under the same key that
/// both succeed agree, and whitespace added before or after the typed
/// password (none at all, too) does not change the verdict.
pub proof fn lemma_verdict_ignores_padding(
    password: Seq<char>,
    before: Seq<char>,
    after: Seq<char>,
    secret: Seq<u8>,
    b1: bool,
    b2: bool,
)
    requires
        all_space(before),
        all_space(after),
        verdict_on(password, secret, b1),
        verdict_on(before + password + after, secret, b2),
    ensures
        b1 == b2,
{
    lemma_trim_ignores_padding(before, password, after);
}

/// Whether an interface address is one the server may announce: IPv4 and
/// not in `127.0.0.0/8`.
pub open spec fn is_public_v4(a: InterfaceAddr) -> bool {
    match a {
        InterfaceAddr::V4(o) => o@[0] != 127,
        InterfaceAddr::V6(_) => false,
    }
}

/// The address picked is the first public IPv4 one in interface order: it
/// stands at some position, and no interface before it is a public IPv4
/// address; where none is picked, there is none.
pub proof fn lemma_first_public_is_first(addrs: Seq<InterfaceAddr>)
    ensures
        first_public_ipv4(addrs) matches Some(o) ==> exists|i: int|
            0 <= i < addrs.len() && #[trigger] addrs[i] == InterfaceAddr::V4(o) && o@[0] != 127
                && forall|j: int| 0 <= j < i ==> !is_public_v4(#[trigger] addrs[j]),
        first_public_ipv4(addrs) is None ==> forall|j: int|
            0 <= j < addrs.len() ==> !is_public_v4(#[trigger] addrs[j]),
    decreases addrs.len(),
{
    if addrs.len() > 0 {
        let rest = addrs.drop_first();
        lemma_first_public_is_first(rest);
        if is_public_v4(addrs[0]) {
            let o = match addrs[0] {
                InterfaceAddr::V4(o) => o,
                InterfaceAddr::V6(_) => arbitrary(),
            };
            assert(first_public_ipv4(addrs) == Some(o));
            assert(addrs[0] == InterfaceAddr::V4(o));
        } else {
            assert(first_public_ipv4(addrs) == first_public_ipv4(rest));
            if let Some(o) = first_public_ipv4(rest) {
                let i = choose|i: int|
                    0 <= i < rest.len() && #[trigger] rest[i] == InterfaceAddr::V4(o) && o@[0]
                        != 127 && forall|j: int| 0 <= j < i ==> !is_public_v4(#[trigger] rest[j]);
                assert(addrs[i + 1] == rest[i]);
                assert forall|j: int| 0 <= j < i + 1 implies !is_public_v4(#[trigger] addrs[j]) by {
                    if j > 0 {
                        assert(addrs[j] == rest[j - 1]);
                    }
                }
            } else {
                assert forall|j: int| 0 <= j < addrs.len() implies !is_public_v4(
                    #[trigger] addrs[j],
                ) by {
                    if j > 0 {
                        assert(addrs[j] == rest[j - 1]);
                    }
                }
            }
        }
    }
}

/// The verdict on a password, given what the decryption of the stored
/// secret gave: the verdict of `password_matches` on a decrypted secret of
/// any length, and `DecryptionFailed` only where there is none.
pub fn verdict_for(password: &str, decrypted: Option<&[u8]>) -> (res: Result<bool, PasswordError>)
    ensures
        match decrypted {
            Some(secret) => res == Ok::<bool, PasswordError>(passwords_agree(password@, secret@)),
            None => res == Err::<bool, PasswordError>(PasswordError::DecryptionFailed),
        },
        decrypted matches Some(secret) ==> res matches Ok(b) && verdict_on(password@, secret@, b),
{
    match decrypted {
        Some(secret) => Ok(password_matches(password, secret)),
        None => Err(PasswordError::DecryptionFailed),
    }
}

/// A decrypted secret always gives a verdict, never an error, whatever its
/// length; and a password that is the secret's text, with any whitespace
/// around either, is accepted.
pub proof fn lemma_decrypted_secret_gets_verdict(password: Seq<char>, secret: Seq<u8>)
    requires
        valid_utf8(secret),
        trimmed(password) == trimmed(decode_utf8(secret)),
    ensures
        forall|b: bool| verdict_on(password, secret, b) ==> b,
{
}

} // verus!
