use vstd::prelude::*;
use vstd::string::*;

verus! {

/// One delivery from the source-host webhook, as the decision logic reads
/// it. Every field is optional on the wire but the ref and the commits
/// decide whether a build is triggered.
#[derive(Clone, Debug)]
pub struct WebhookPayload {
    pub ref_field: Option<String>,
    pub before: Option<String>,
    pub after: Option<String>,
    pub repository: Option<Repository>,
    pub commits: Option<Vec<Commit>>,
}

#[derive(Clone, Debug)]
pub struct Repository {
    pub name: String,
    pub url: String,
}

#[derive(Clone, Debug)]
pub struct Commit {
    pub id: String,
    pub message: String,
    pub url: String,
    pub distinct: bool,
}

/// The value of one hexadecimal digit, either case.
pub open spec fn hex_digit_val(c: char) -> Option<u8> {
    let i = c as int;
    if '0' as int <= i && i <= '9' as int {
        Some((i - '0' as int) as u8)
    } else if 'a' as int <= i && i <= 'f' as int {
        Some((i - 'a' as int + 10) as u8)
    } else if 'A' as int <= i && i <= 'F' as int {
        Some((i - 'A' as int + 10) as u8)
    } else {
        None
    }
}

/// What a hexadecimal string decodes to: the bytes of its digit pairs, or
/// nothing when its length is odd or any character is no hexadecimal
/// digit.
pub open spec fn hex_decoded(s: Seq<char>) -> Option<Seq<u8>>
    decreases s.len(),
{
    if s.len() % 2 != 0 {
        None
    } else if s.len() == 0 {
        Some(Seq::empty())
    } else {
        match (hex_digit_val(s[0]), hex_digit_val(s[1])) {
            (Some(h), Some(l)) => match hex_decoded(s.skip(2)) {
                Some(rest) => Some(seq![((h as int) * 16 + (l as int)) as u8] + rest),
                None => None,
            },
            _ => None,
        }
    }
}

/// The HMAC-SHA-256 tag of a message under a key.
pub uninterp spec fn hmac_sha256_of(key: Seq<u8>, data: Seq<u8>) -> Seq<u8>;

/// Relies on hmac's `Hmac<Sha256>`: the tag is a function of the key and
/// the message alone and is 32 bytes long; `new_from_slice` accepts a key
/// of any length.
#[verifier::external_body]
fn hmac_sha256(key: &[u8], data: &[u8]) -> (r: Vec<u8>)
    ensures
        r@ == hmac_sha256_of(key@, data@),
        r@.len() == 32,
{
    let mut mac = <hmac::Hmac<sha2::Sha256> as hmac::Mac>::new_from_slice(key).expect(
        "any key length is accepted",
    );
    hmac::Mac::update(&mut mac, data);
    hmac::Mac::finalize(mac).into_bytes().to_vec()
}

/// Relies on hex::decode: an even-length string of hexadecimal digits of
/// either case decodes to its bytes; anything else is rejected.
#[verifier::external_body]
fn hex_decode(s: &str) -> (r: Option<Vec<u8>>)
    ensures
        match r {
            Some(v) => hex_decoded(s@) == Some(v@),
            None => hex_decoded(s@) is None,
        },
{
    hex::decode(s).ok()
}

fn bytes_eq(a: &Vec<u8>, b: &Vec<u8>) -> (r: bool)
    ensures
        r == (a@ == b@),
{
    if a.len() != b.len() {
        return false;
    }
    let mut i: usize = 0;
    while i < a.len()
        invariant
            i <= a.len(),
            a@.len() == b@.len(),
            forall|j: int| 0 <= j < i ==> a@[j] == b@[j],
        decreases a.len() - i,
    {
        if a[i] != b[i] {
            return false;
        }
        i = i + 1;
    }
    proof {
        assert(a@ =~= b@);
    }
    true
}

/// When a delivery's signature header is accepted: the header is present,
/// long enough to carry its seven scheme characters, and what follows them
/// decodes to the HMAC-SHA-256 tag of the body under the shared secret.
pub open spec fn spec_signature_ok(
    secret: Seq<u8>,
    body: Seq<u8>,
    header: Option<Seq<char>>,
) -> bool {
    match header {
        None => false,
        Some(h) => h.len() >= 7 && hex_decoded(h.skip(7)) == Some(hmac_sha256_of(secret, body)),
    }
}

/// Check a delivery's signature header against its body. An absent header,
/// one too short for its scheme prefix, or one whose rest is no valid
/// hexadecimal string is invalid; none of these is a fault that could
/// stop the receiver.
pub fn signature_valid(secret: &[u8], body: &[u8], header: Option<&str>) -> (r: bool)
    ensures
        r == spec_signature_ok(
            secret@,
            body@,
            match header {
                Some(h) => Some(h@),
                None => None::<Seq<char>>,
            },
        ),
{
    match header {
        None => false,
        Some(h) => {
            let n = h.unicode_len();
            if n < 7 {
                false
            } else {
                let hex_part = h.substring_char(7, n);
                proof {
                    assert(hex_part@ =~= h@.skip(7));
                }
                match hex_decode(hex_part) {
                    None => false,
                    Some(v) => {
                        let mac = hmac_sha256(secret, body);
                        bytes_eq(&v, &mac)
                    },
                }
            }
        },
    }
}

/// When a delivery asks for a build: it carries commits and its ref names
/// a branch.
pub open spec fn spec_should_trigger(p: WebhookPayload) -> bool {
    &&& p.commits is Some
    &&& match p.ref_field {
        Some(rf) => rf@.len() >= "refs/heads/"@.len() && rf@.subrange(
            0,
            "refs/heads/"@.len() as int,
        ) == "refs/heads/"@,
        None => false,
    }
}

/// Decide whether an accepted delivery triggers a build.
pub fn should_trigger_build(p: &WebhookPayload) -> (r: bool)
    ensures
        r == spec_should_trigger(*p),
{
    if p.commits.is_none() {
        return false;
    }
    match &p.ref_field {
        None => false,
        Some(rf) => {
            proof {
                reveal_strlit("refs/heads/");
            }
            let n = rf.as_str().unicode_len();
            if n < 11 {
                false
            } else {
                let head = rf.as_str().substring_char(0, 11);
                let expected = String::from_str("refs/heads/");
                head.to_owned() == expected
            }
        },
    }
}

} // verus!
