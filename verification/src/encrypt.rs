//! Authenticated encryption of byte buffers to one or more recipients,
//! public-key or passphrase-derived, plus key-pair generation.
//!
//! Key strings have fixed shapes: a public key begins with the
//! recipient prefix, a private key with the secret-key prefix.  A
//! string with neither shape names a stored secret, which these
//! functions cannot resolve.

use vstd::prelude::*;
use std::io::Read;
use std::io::Write;
use age::secrecy::ExposeSecret;
use vstd::string::StringExecFns;
use crate::strutil::{
    chars_of, is_prefix_of, split_nonempty, split_nonempty_chars, str_starts_with, string_of_chars,
    trim_ws, trimmed,
};

verus! {

/// Why an encryption or decryption request failed.
#[derive(Debug, Clone, Copy, PartialEq, Eq, Structural)]
pub enum AgeError {
    /// An empty recipient list is caller misuse.
    NoRecipients,
    /// An empty identity list is caller misuse.
    NoIdentities,
    /// A recipient string is not a well-formed public key.
    InvalidRecipient,
    /// An identity string is not a well-formed private key.
    InvalidIdentity,
    /// A key string names a stored secret, which cannot be resolved
    /// here.
    SecretName,
    /// The input does not decrypt under the given keys or passphrase.
    DecryptFailed,
}

/// Whether a string parses as an X25519 public key.
pub uninterp spec fn is_x25519_recipient_str(s: Seq<char>) -> bool;

/// Whether a string parses as an X25519 private key.
pub uninterp spec fn is_x25519_identity_str(s: Seq<char>) -> bool;

/// The two strings render one X25519 key pair: the private key is the
/// identity whose public half the recipient string carries.
pub uninterp spec fn x25519_pair_str(public_key: Seq<char>, private_key: Seq<char>) -> bool;

/// What X25519 decryption yields for an identity-string list and a
/// ciphertext: the plaintext when some identity opens it, nothing
/// otherwise; a function of the strings and bytes alone.
pub uninterp spec fn x25519_decrypt_of(identities: Seq<Seq<char>>, data: Seq<u8>) -> Option<
    Seq<u8>,
>;

/// What passphrase decryption under the pinned work-factor cap yields
/// for given ciphertext: the plaintext, or nothing when the ciphertext
/// does not decrypt under the passphrase within that cap; with the cap
/// pinned, a function of the two inputs alone.
pub uninterp spec fn scrypt_decrypt_of(passphrase: Seq<char>, data: Seq<u8>) -> Option<Seq<u8>>;

/// Relies on age::x25519::Recipient::from_str: acceptance depends on
/// the string alone.
#[verifier::external_body]
fn recipient_parses(s: &str) -> (r: bool)
    ensures
        r == is_x25519_recipient_str(s@),
{
    s.parse::<age::x25519::Recipient>().is_ok()
}

/// Relies on age::x25519::Identity::from_str: acceptance depends on the
/// string alone.
#[verifier::external_body]
fn identity_parses(s: &str) -> (r: bool)
    ensures
        r == is_x25519_identity_str(s@),
{
    s.parse::<age::x25519::Identity>().is_ok()
}

/// Relies on age::Encryptor with X25519 recipients: encrypting into an
/// in-memory buffer for a non-empty list of parsed recipients cannot
/// fail (a failing OS randomness source panics rather than returning),
/// and the identity corresponding to any one recipient decrypts the
/// ciphertext back to the plaintext.
#[verifier::external_body]
fn x25519_encrypt_raw(data: &[u8], recipient_strs: &Vec<String>) -> (r: Vec<u8>)
    requires
        recipient_strs@.len() > 0,
        forall|j: int|
            0 <= j < recipient_strs@.len() ==> is_x25519_recipient_str(
                #[trigger] recipient_strs.deep_view()[j],
            ),
    ensures
        forall|j: int, sk: Seq<char>|
            0 <= j < recipient_strs.deep_view().len() && #[trigger] x25519_pair_str(
                recipient_strs.deep_view()[j],
                sk,
            ) && is_x25519_identity_str(sk) ==> x25519_decrypt_of(seq![sk], r@) == Option::Some(
                data@,
            ),
{
    let parsed: Vec<age::x25519::Recipient> =
        recipient_strs.iter().map(|s| s.parse().expect("checked by the caller")).collect();
    let encryptor = age::Encryptor::with_recipients(
        parsed.iter().map(|r| r as &dyn age::Recipient),
    ).expect("the list is non-empty and X25519 recipients carry no labels");
    let mut encrypted = Vec::new();
    let mut writer = encryptor.wrap_output(&mut encrypted).expect("writing into a Vec cannot fail");
    writer.write_all(data).expect("writing into a Vec cannot fail");
    writer.finish().expect("writing into a Vec cannot fail");
    encrypted
}

/// Relies on age::Decryptor with X25519 identities: the outcome is a
/// function of the identity strings and the ciphertext alone; it fails
/// when no identity matches or the input is malformed.
#[verifier::external_body]
fn x25519_decrypt_raw(data: &[u8], identity_strs: &Vec<String>) -> (r: Option<Vec<u8>>)
    requires
        identity_strs@.len() > 0,
        forall|j: int|
            0 <= j < identity_strs@.len() ==> is_x25519_identity_str(
                #[trigger] identity_strs.deep_view()[j],
            ),
    ensures
        (r is Some) == (x25519_decrypt_of(identity_strs.deep_view(), data@) is Some),
        r matches Option::Some(v) ==> Option::Some(v@) == x25519_decrypt_of(
            identity_strs.deep_view(),
            data@,
        ),
{
    let parsed: Vec<age::x25519::Identity> =
        identity_strs.iter().map(|s| s.parse().expect("checked by the caller")).collect();
    let decryptor = age::Decryptor::new(data).ok()?;
    let mut reader = decryptor.decrypt(parsed.iter().map(|i| i as &dyn age::Identity)).ok()?;
    let mut decrypted = Vec::new();
    reader.read_to_end(&mut decrypted).ok()?;
    Some(decrypted)
}

/// Relies on age::encrypt with a passphrase recipient at a pinned
/// work factor (the default is a timing measurement of the machine, so
/// it is overridden here): encrypting into an in-memory buffer cannot
/// fail, and the same passphrase decrypts the ciphertext back to the
/// plaintext — the pinned factor lies under the decryptor's pinned cap.
#[verifier::external_body]
fn scrypt_encrypt_raw(data: &[u8], passphrase: &str) -> (r: Vec<u8>)
    ensures
        scrypt_decrypt_of(passphrase@, r@) == Option::Some(data@),
{
    let mut recipient = age::scrypt::Recipient::new(age::secrecy::SecretString::from(
        passphrase.to_string(),
    ));
    recipient.set_work_factor(15);
    age::encrypt(&recipient, data).expect("encrypting into a Vec cannot fail")
}

/// Relies on age::decrypt with a passphrase identity whose work-factor
/// cap is pinned (the default cap is a timing measurement of the
/// machine, so it is overridden here): the outcome then depends on the
/// passphrase and ciphertext alone.
#[verifier::external_body]
fn scrypt_decrypt_raw(data: &[u8], passphrase: &str) -> (r: Option<Vec<u8>>)
    ensures
        (r is Some) == (scrypt_decrypt_of(passphrase@, data@) is Some),
        r matches Option::Some(v) ==> Option::Some(v@) == scrypt_decrypt_of(passphrase@, data@),
{
    let mut identity = age::scrypt::Identity::new(age::secrecy::SecretString::from(
        passphrase.to_string(),
    ));
    identity.set_max_work_factor(22);
    age::decrypt(&identity, data).ok()
}

/// Relies on age::x25519::Identity::generate and the key renderings:
/// the public key carries the recipient prefix and the separator digit,
/// the private key the uppercase secret-key prefix; each parses back as
/// what it renders, and together they are one key pair.
#[verifier::external_body]
fn keygen_raw() -> (r: (String, String))
    ensures
        is_prefix_of("age1"@, r.0@),
        is_prefix_of("AGE-SECRET-KEY-1"@, r.1@),
        is_x25519_recipient_str(r.0@),
        is_x25519_identity_str(r.1@),
        x25519_pair_str(r.0@, r.1@),
{
    let identity = age::x25519::Identity::generate();
    let public_key = identity.to_public().to_string();
    let private_key = identity.to_string().expose_secret().to_string();
    (public_key, private_key)
}

/// A key string that names a stored secret: it has neither the public-
/// nor the private-key shape.
pub open spec fn is_secret_name_spec(s: Seq<char>) -> bool {
    !is_prefix_of("age1"@, s) && !is_prefix_of("AGE-SECRET-KEY-1"@, s)
}

/// Whether a key string names a stored secret rather than carrying a
/// key itself.
pub fn is_secret_name(key_str: &str) -> (r: bool)
    ensures
        r == is_secret_name_spec(key_str@),
{
    let a = str_starts_with(key_str, "age1");
    let b = str_starts_with(key_str, "AGE-SECRET-KEY-1");
    !a && !b
}

/// The trimmed, non-empty fields of a comma-separated list.
pub open spec fn trimmed_nonempty(fields: Seq<Seq<char>>) -> Seq<Seq<char>>
    decreases fields.len(),
{
    if fields.len() == 0 {
        Seq::empty()
    } else {
        let rest = trimmed_nonempty(fields.drop_last());
        if trimmed(fields.last()).len() > 0 {
            rest.push(trimmed(fields.last()))
        } else {
            rest
        }
    }
}

/// What a comma-separated key list denotes.
pub open spec fn csv_items(s: Seq<char>) -> Seq<Seq<char>> {
    trimmed_nonempty(split_nonempty(s, seq![',']))
}

/// Splits a comma-separated list into its trimmed, non-empty fields.
pub fn split_csv_trimmed(s: &str) -> (r: Vec<String>)
    ensures
        r.deep_view() == csv_items(s@),
{
    let v = chars_of(s);
    let seps: Vec<char> = vec![','];
    assert(seps@ =~= seq![',']);
    let fields = split_nonempty_chars(v.as_slice(), seps.as_slice());
    let ghost fdv = fields.deep_view();
    let mut r: Vec<String> = Vec::new();
    let mut i: usize = 0;
    while i < fields.len()
        invariant
            fdv == fields.deep_view(),
            fdv.len() == fields@.len(),
            i <= fields@.len(),
            r.deep_view() == trimmed_nonempty(fdv.take(i as int)),
        decreases fields@.len() - i,
    {
        proof {
            assert(fdv.take(i + 1 as int).drop_last() =~= fdv.take(i as int));
            assert(fdv.take(i + 1 as int).last() == fdv[i as int]);
            assert(fields@[i as int]@ == fdv[i as int]);
        }
        let t = trim_ws(fields[i].as_slice());
        if t.len() > 0 {
            let ghost before = r.deep_view();
            let piece = string_of_chars(t.as_slice());
            r.push(piece);
            proof {
                assert(r.deep_view() =~~= before.push(trimmed(fdv[i as int])));
            }
        }
        i = i + 1;
    }
    proof {
        assert(fdv.take(fields@.len() as int) =~= fdv);
    }
    r
}

/// Generates a key pair: a well-formed public key carrying the
/// recipient prefix and the matching well-formed private key carrying
/// the secret-key prefix, so neither is ever taken for a stored
/// secret's name.
pub fn age_keygen() -> (r: (String, String))
    ensures
        is_prefix_of("age1"@, r.0@),
        is_prefix_of("AGE-SECRET-KEY-1"@, r.1@),
        !is_secret_name_spec(r.0@),
        !is_secret_name_spec(r.1@),
        is_x25519_recipient_str(r.0@),
        is_x25519_identity_str(r.1@),
        x25519_pair_str(r.0@, r.1@),
{
    keygen_raw()
}

/// Builds the statement that stores a key pair under a secret name.
pub fn keygen_secret_sql(name: &str, public_key: &str, private_key: &str) -> (r: String)
    ensures
        r@ == "CREATE SECRET "@ + name@ + " (TYPE age, PUBLIC_KEY '"@ + public_key@
            + "', PRIVATE_KEY '"@ + private_key@ + "');"@,
{
    let mut r = "CREATE SECRET ".to_owned();
    r.append(name);
    r.append(" (TYPE age, PUBLIC_KEY '");
    r.append(public_key);
    r.append("', PRIVATE_KEY '");
    r.append(private_key);
    r.append("');");
    r
}

/// Generates a key pair and renders the statement that stores it under
/// `name`: the full statement shape around some freshly generated,
/// well-formed key pair.
pub fn age_keygen_secret(name: &str) -> (r: String)
    ensures
        is_prefix_of("CREATE SECRET "@ + name@, r@),
        exists|pk: Seq<char>, sk: Seq<char>|
            #[trigger] x25519_pair_str(pk, sk) && is_x25519_recipient_str(pk)
                && is_x25519_identity_str(sk) && r@ == "CREATE SECRET "@ + name@
                + " (TYPE age, PUBLIC_KEY '"@ + pk + "', PRIVATE_KEY '"@ + sk + "');"@,
{
    let (public_key, private_key) = age_keygen();
    let r = keygen_secret_sql(name, public_key.as_str(), private_key.as_str());
    proof {
        let head = "CREATE SECRET "@ + name@;
        assert(r@.subrange(0, head.len() as int) =~= head);
        assert(x25519_pair_str(public_key@, private_key@) && is_x25519_recipient_str(public_key@)
            && is_x25519_identity_str(private_key@) && r@ == "CREATE SECRET "@ + name@
            + " (TYPE age, PUBLIC_KEY '"@ + public_key@ + "', PRIVATE_KEY '"@ + private_key@
            + "');"@);
    }
    r
}

/// Encrypts a buffer to every recipient in the list.  An empty list is
/// misuse, a malformed recipient is misuse; any valid, non-empty list
/// yields ciphertext that the identity matching any one recipient
/// decrypts back to the plaintext.
pub fn age_encrypt_multi(data: &[u8], recipient_strs: &Vec<String>) -> (r: Result<
    Vec<u8>,
    AgeError,
>)
    ensures
        recipient_strs@.len() == 0 <==> r == Result::<Vec<u8>, AgeError>::Err(
            AgeError::NoRecipients,
        ),
        (recipient_strs@.len() > 0 && exists|j: int|
            0 <= j < recipient_strs@.len() && !is_x25519_recipient_str(
                #[trigger] recipient_strs.deep_view()[j],
            )) <==> r == Result::<Vec<u8>, AgeError>::Err(AgeError::InvalidRecipient),
        (recipient_strs@.len() > 0 && forall|j: int|
            0 <= j < recipient_strs@.len() ==> is_x25519_recipient_str(
                #[trigger] recipient_strs.deep_view()[j],
            )) <==> r is Ok,
        r matches Result::Ok(ct) ==> forall|j: int, sk: Seq<char>|
            0 <= j < recipient_strs.deep_view().len() && #[trigger] x25519_pair_str(
                recipient_strs.deep_view()[j],
                sk,
            ) && is_x25519_identity_str(sk) ==> x25519_decrypt_of(seq![sk], ct@) == Option::Some(
                data@,
            ),
{
    let ghost rdv = recipient_strs.deep_view();
    if recipient_strs.len() == 0 {
        return Result::Err(AgeError::NoRecipients);
    }
    let mut i: usize = 0;
    while i < recipient_strs.len()
        invariant
            rdv == recipient_strs.deep_view(),
            rdv.len() == recipient_strs@.len(),
            i <= recipient_strs@.len(),
            forall|t: int| 0 <= t < i ==> is_x25519_recipient_str(#[trigger] rdv[t]),
        decreases recipient_strs@.len() - i,
    {
        assert(rdv[i as int] == recipient_strs@[i as int]@);
        if !recipient_parses(recipient_strs[i].as_str()) {
            return Result::Err(AgeError::InvalidRecipient);
        }
        i = i + 1;
    }
    Result::Ok(x25519_encrypt_raw(data, recipient_strs))
}

/// Decrypts a buffer with any identity in the list.  An empty list is
/// misuse, a malformed identity is misuse; a valid list succeeds
/// exactly when some identity opens the ciphertext, and then yields
/// what X25519 decryption yields for those identities and bytes.
pub fn age_decrypt_multi(data: &[u8], identity_strs: &Vec<String>) -> (r: Result<Vec<u8>, AgeError>)
    ensures
        identity_strs@.len() == 0 <==> r == Result::<Vec<u8>, AgeError>::Err(AgeError::NoIdentities),
        (identity_strs@.len() > 0 && exists|j: int|
            0 <= j < identity_strs@.len() && !is_x25519_identity_str(
                #[trigger] identity_strs.deep_view()[j],
            )) <==> r == Result::<Vec<u8>, AgeError>::Err(AgeError::InvalidIdentity),
        (identity_strs@.len() > 0 && forall|j: int|
            0 <= j < identity_strs@.len() ==> is_x25519_identity_str(
                #[trigger] identity_strs.deep_view()[j],
            )) ==> ((r is Ok) <==> x25519_decrypt_of(identity_strs.deep_view(), data@) is Some),
        r matches Result::Ok(v) ==> Option::Some(v@) == x25519_decrypt_of(
            identity_strs.deep_view(),
            data@,
        ),
        r is Err ==> (r == Result::<Vec<u8>, AgeError>::Err(AgeError::NoIdentities) || r
            == Result::<Vec<u8>, AgeError>::Err(AgeError::InvalidIdentity) || r == Result::<
            Vec<u8>,
            AgeError,
        >::Err(AgeError::DecryptFailed)),
{
    let ghost idv = identity_strs.deep_view();
    if identity_strs.len() == 0 {
        return Result::Err(AgeError::NoIdentities);
    }
    let mut i: usize = 0;
    while i < identity_strs.len()
        invariant
            idv == identity_strs.deep_view(),
            idv.len() == identity_strs@.len(),
            i <= identity_strs@.len(),
            forall|t: int| 0 <= t < i ==> is_x25519_identity_str(#[trigger] idv[t]),
        decreases identity_strs@.len() - i,
    {
        assert(idv[i as int] == identity_strs@[i as int]@);
        if !identity_parses(identity_strs[i].as_str()) {
            return Result::Err(AgeError::InvalidIdentity);
        }
        i = i + 1;
    }
    match x25519_decrypt_raw(data, identity_strs) {
        Option::Some(v) => Result::Ok(v),
        Option::None => Result::Err(AgeError::DecryptFailed),
    }
}

/// Encrypts to a comma-separated recipient list.  A field that names a
/// stored secret cannot be resolved here and is reported as misuse
/// before anything else; otherwise the list behaves as in
/// [`age_encrypt_multi`].
pub fn age_encrypt(data: &[u8], recipients_str: &str) -> (r: Result<Vec<u8>, AgeError>)
    ensures
        (exists|j: int|
            0 <= j < csv_items(recipients_str@).len() && is_secret_name_spec(
                #[trigger] csv_items(recipients_str@)[j],
            )) <==> r == Result::<Vec<u8>, AgeError>::Err(AgeError::SecretName),
        r == Result::<Vec<u8>, AgeError>::Err(AgeError::NoRecipients) ==> csv_items(
            recipients_str@,
        ).len() == 0,
        ((forall|j: int|
            0 <= j < csv_items(recipients_str@).len() ==> !is_secret_name_spec(
                #[trigger] csv_items(recipients_str@)[j],
            )) && csv_items(recipients_str@).len() > 0 && (forall|j: int|
            0 <= j < csv_items(recipients_str@).len() ==> is_x25519_recipient_str(
                #[trigger] csv_items(recipients_str@)[j],
            ))) <==> r is Ok,
        r matches Result::Ok(ct) ==> forall|j: int, sk: Seq<char>|
            0 <= j < csv_items(recipients_str@).len() && #[trigger] x25519_pair_str(
                csv_items(recipients_str@)[j],
                sk,
            ) && is_x25519_identity_str(sk) ==> x25519_decrypt_of(seq![sk], ct@) == Option::Some(
                data@,
            ),
{
    let ghost items = csv_items(recipients_str@);
    let recipients = split_csv_trimmed(recipients_str);
    let mut i: usize = 0;
    while i < recipients.len()
        invariant
            items == csv_items(recipients_str@),
            recipients.deep_view() == items,
            items.len() == recipients@.len(),
            i <= recipients@.len(),
            forall|t: int| 0 <= t < i ==> !is_secret_name_spec(#[trigger] items[t]),
        decreases recipients@.len() - i,
    {
        assert(items[i as int] == recipients@[i as int]@);
        if is_secret_name(recipients[i].as_str()) {
            return Result::Err(AgeError::SecretName);
        }
        i = i + 1;
    }
    age_encrypt_multi(data, &recipients)
}

/// Decrypts with a comma-separated identity list, under the same
/// secret-name policy as encryption; otherwise the list behaves as in
/// [`age_decrypt_multi`], yielding what X25519 decryption yields.
pub fn age_decrypt(data: &[u8], identities_str: &str) -> (r: Result<Vec<u8>, AgeError>)
    ensures
        (exists|j: int|
            0 <= j < csv_items(identities_str@).len() && is_secret_name_spec(
                #[trigger] csv_items(identities_str@)[j],
            )) <==> r == Result::<Vec<u8>, AgeError>::Err(AgeError::SecretName),
        r == Result::<Vec<u8>, AgeError>::Err(AgeError::NoIdentities) ==> csv_items(
            identities_str@,
        ).len() == 0,
        ((forall|j: int|
            0 <= j < csv_items(identities_str@).len() ==> !is_secret_name_spec(
                #[trigger] csv_items(identities_str@)[j],
            )) && csv_items(identities_str@).len() > 0 && (forall|j: int|
            0 <= j < csv_items(identities_str@).len() ==> is_x25519_identity_str(
                #[trigger] csv_items(identities_str@)[j],
            ))) ==> ((r is Ok) <==> x25519_decrypt_of(csv_items(identities_str@), data@) is Some),
        r matches Result::Ok(v) ==> Option::Some(v@) == x25519_decrypt_of(
            csv_items(identities_str@),
            data@,
        ),
{
    let ghost items = csv_items(identities_str@);
    let identities = split_csv_trimmed(identities_str);
    let mut i: usize = 0;
    while i < identities.len()
        invariant
            items == csv_items(identities_str@),
            identities.deep_view() == items,
            items.len() == identities@.len(),
            i <= identities@.len(),
            forall|t: int| 0 <= t < i ==> !is_secret_name_spec(#[trigger] items[t]),
        decreases identities@.len() - i,
    {
        assert(items[i as int] == identities@[i as int]@);
        if is_secret_name(identities[i].as_str()) {
            return Result::Err(AgeError::SecretName);
        }
        i = i + 1;
    }
    age_decrypt_multi(data, &identities)
}

/// Encrypts a buffer under a passphrase.  The cipher salts each call
/// afresh, so two calls differ; what binds the output is that the same
/// passphrase decrypts it back to the plaintext.
pub fn age_encrypt_passphrase(data: &[u8], passphrase: &str) -> (r: Vec<u8>)
    ensures
        scrypt_decrypt_of(passphrase@, r@) == Option::Some(data@),
{
    scrypt_encrypt_raw(data, passphrase)
}

/// Decrypts a buffer under a passphrase: succeeds exactly when the
/// ciphertext decrypts under it, and then yields that plaintext.
pub fn age_decrypt_passphrase(data: &[u8], passphrase: &str) -> (r: Result<Vec<u8>, AgeError>)
    ensures
        match r {
            Result::Ok(v) => scrypt_decrypt_of(passphrase@, data@) == Option::Some(v@),
            Result::Err(e) => e == AgeError::DecryptFailed && scrypt_decrypt_of(
                passphrase@,
                data@,
            ) is None,
        },
{
    match scrypt_decrypt_raw(data, passphrase) {
        Option::Some(v) => Result::Ok(v),
        Option::None => Result::Err(AgeError::DecryptFailed),
    }
}

} // verus!
