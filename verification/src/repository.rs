//! The repository manifest that the remote publishes, and the addresses
//! under which its files are fetched.

use vstd::prelude::*;
use crate::md5_digest::{
    digest_of, hasher_input, hex_number, hex_text, is_digest_text, InvalidDigest, Md5Digest,
    Md5Hasher,
};
use crate::text::{
    all_digits, chars_of, decimal_number, ends_with, has_suffix, lemma_decimal_number_grows,
    slashed, string_of, to_slashed, trim_leading, trim_trailing, utf8, without_leading,
    without_trailing,
};

verus! {

/// A mod that the repository lists.
#[derive(Clone, Debug)]
pub struct Mod {
    pub mod_name: String,
    /// Aggregate digest of the mod's manifest.
    pub checksum: Md5Digest,
    pub enabled: bool,
}

/// What a listed mod says.
pub struct ModModel {
    pub mod_name: Seq<char>,
    pub checksum: u128,
    pub enabled: bool,
}

impl View for Mod {
    type V = ModModel;

    open spec fn view(&self) -> ModModel {
        ModModel { mod_name: self.mod_name@, checksum: self.checksum@, enabled: self.enabled }
    }
}

/// What a list of mods says, mod by mod.
pub open spec fn mods_view(mods: Seq<Mod>) -> Seq<ModModel> {
    Seq::new(mods.len(), |i: int| mods[i]@)
}

/// Credentials for a repository behind basic authentication.
#[derive(Clone, Debug)]
pub struct BasicAuth {
    pub username: String,
    pub password: String,
}

/// A game server that the repository announces.
#[derive(Clone, Debug)]
pub struct Server {
    pub name: String,
    /// An IP literal.
    pub address: String,
    pub port: u16,
    pub password: String,
    pub battle_eye: bool,
}

/// The manifest of a repository.
#[derive(Clone, Debug)]
pub struct Repository {
    pub repo_name: String,
    /// Identifier that the publisher gave; consumers never check it.
    pub checksum: Md5Digest,
    pub required_mods: Vec<Mod>,
    pub optional_mods: Vec<Mod>,
    pub client_parameters: String,
    pub repo_basic_authentication: Option<BasicAuth>,
    pub version: String,
    pub servers: Vec<Server>,
}

/// The version of a repository made from nothing.
pub open spec fn default_version() -> Seq<char> {
    seq!['1', '.', '0', '.', '0']
}

/// The launch flags of a repository made from nothing.
pub open spec fn default_parameters() -> Seq<char> {
    seq![
        '-', 'n', 'o', 'P', 'a', 'u', 's', 'e', ' ', '-', 'n', 'o', 'S', 'p', 'l', 'a', 's', 'h',
        ' ', '-', 's', 'k', 'i', 'p', 'I', 'n', 't', 'r', 'o',
    ]
}

impl Mod {
    /// A copy of this entry.
    pub fn duplicate(&self) -> (m: Mod)
        ensures
            m == *self,
    {
        Mod { mod_name: self.mod_name.clone(), checksum: self.checksum, enabled: self.enabled }
    }
}

/// The bytes that the mods of a list add to the checksum of a repository:
/// for each, its name and the text of its digest.
pub open spec fn mods_bytes(mods: Seq<ModModel>) -> Seq<u8>
    decreases mods.len(),
{
    if mods.len() == 0 {
        Seq::empty()
    } else {
        mods_bytes(mods.drop_last()) + utf8(mods.last().mod_name) + utf8(
            hex_text(mods.last().checksum as nat, 32),
        )
    }
}

/// The bytes that the checksum of a repository is the digest of.
pub open spec fn repository_bytes(
    required: Seq<ModModel>,
    optional: Seq<ModModel>,
    version: Seq<char>,
    parameters: Seq<char>,
) -> Seq<u8> {
    mods_bytes(required) + mods_bytes(optional) + utf8(version) + utf8(parameters)
}

/// Feeds the name and digest of each mod of the list.
fn feed_mods(h: &mut Md5Hasher, mods: &Vec<Mod>)
    ensures
        hasher_input(*final(h)) == hasher_input(*old(h)) + mods_bytes(mods_view(mods@)),
{
    let ghost start = hasher_input(*h);
    let ghost all = mods_view(mods@);
    let mut i: usize = 0;
    assert(start + mods_bytes(all.take(0)) == start);
    while i < mods.len()
        invariant
            i <= mods.len(),
            all == mods_view(mods@),
            hasher_input(*h) == start + mods_bytes(all.take(i as int)),
        decreases mods.len() - i,
    {
        let ghost before = hasher_input(*h);
        h.update_text(mods[i].mod_name.as_str());
        let hex = mods[i].checksum.to_string();
        h.update_text(hex.as_str());
        proof {
            let next = all.take(i + 1);
            assert(next.drop_last() == all.take(i as int));
            assert(next.last() == mods@[i as int]@);
            assert(hasher_input(*h) == before + utf8(next.last().mod_name) + utf8(
                hex_text(next.last().checksum as nat, 32),
            ));
            assert(start + mods_bytes(all.take(i as int)) + utf8(next.last().mod_name) + utf8(
                hex_text(next.last().checksum as nat, 32),
            ) == start + mods_bytes(next));
        }
        i += 1;
    }
    assert(all.take(mods.len() as int) == all);
}

impl Repository {
    /// Folds the mods, required before optional, then the version and the
    /// launch flags into the checksum of the repository.
    pub fn compute_checksum(&mut self)
        ensures
            final(self).checksum@ == digest_of(
                repository_bytes(
                    mods_view(old(self).required_mods@),
                    mods_view(old(self).optional_mods@),
                    old(self).version@,
                    old(self).client_parameters@,
                ),
            ),
            final(self).repo_name == old(self).repo_name,
            final(self).required_mods == old(self).required_mods,
            final(self).optional_mods == old(self).optional_mods,
            final(self).client_parameters == old(self).client_parameters,
            final(self).repo_basic_authentication == old(self).repo_basic_authentication,
            final(self).version == old(self).version,
            final(self).servers == old(self).servers,
    {
        let mut h = Md5Hasher::new();
        feed_mods(&mut h, &self.required_mods);
        feed_mods(&mut h, &self.optional_mods);
        h.update_text(self.version.as_str());
        h.update_text(self.client_parameters.as_str());
        assert(hasher_input(h) == repository_bytes(
            mods_view(self.required_mods@),
            mods_view(self.optional_mods@),
            self.version@,
            self.client_parameters@,
        )) by {
            assert(Seq::<u8>::empty() + mods_bytes(mods_view(self.required_mods@)) == mods_bytes(
                mods_view(self.required_mods@),
            ));
        }
        self.checksum = h.finish();
    }
}

impl Default for Repository {
    fn default() -> (r: Repository)
        ensures
            r.repo_name@ == Seq::<char>::empty(),
            r.checksum@ == 0,
            r.version@ == default_version(),
            r.client_parameters@ == default_parameters(),
            r.repo_basic_authentication is None,
            r.required_mods@ == Seq::<Mod>::empty(),
            r.optional_mods@ == Seq::<Mod>::empty(),
            r.servers@ == Seq::<Server>::empty(),
    {
        let version: Vec<char> = vec!['1', '.', '0', '.', '0'];
        let parameters: Vec<char> = vec![
            '-', 'n', 'o', 'P', 'a', 'u', 's', 'e', ' ', '-', 'n', 'o', 'S', 'p', 'l', 'a', 's',
            'h', ' ', '-', 's', 'k', 'i', 'p', 'I', 'n', 't', 'r', 'o',
        ];
        assert(version@ == default_version());
        assert(parameters@ == default_parameters());
        Repository {
            repo_name: String::new(),
            checksum: Md5Digest::default(),
            version: string_of(&version),
            client_parameters: string_of(&parameters),
            repo_basic_authentication: None,
            required_mods: Vec::new(),
            optional_mods: Vec::new(),
            servers: Vec::new(),
        }
    }
}

/// The text of a checksum as a repository manifest may hold it: only its
/// first 32 characters count.
pub open spec fn checksum_text(text: Seq<char>) -> Seq<char> {
    if text.len() > 32 {
        text.take(32)
    } else {
        text
    }
}

/// Reads the checksum of a repository manifest. A text longer than 32
/// characters is cut to its first 32; what is left must be a digest.
pub fn deserialize_checksum(text: &str) -> (r: Result<Md5Digest, InvalidDigest>)
    ensures
        r is Ok <==> is_digest_text(checksum_text(text@)),
        r matches Ok(d) ==> d@ == hex_number(checksum_text(text@)),
        r matches Err(e) ==> e == (if text@.len() < 32 {
            InvalidDigest::Length
        } else {
            InvalidDigest::NonHex
        }),
{
    let mut chars = chars_of(text);
    if chars.len() > 32 {
        chars.truncate(32);
    }
    Md5Digest::from_chars(&chars)
}

/// Why a text is not a port number.
#[derive(Clone, Copy, Debug, PartialEq, Eq, Structural)]
pub enum InvalidNumber {
    /// The text has no digits.
    Empty,
    /// A character is not a decimal digit.
    NotADigit,
    /// The number does not fit in 16 bits.
    TooLarge,
}

/// The digits of a number text: what follows an optional plus sign.
pub open spec fn number_digits(s: Seq<char>) -> Seq<char> {
    if s.len() > 0 && s[0] == '+' {
        s.drop_first()
    } else {
        s
    }
}

/// Reads a port that a manifest gives as a text, as `str::parse::<u16>`
/// does: decimal digits after an optional plus sign.
pub fn deserialize_number_from_string(text: &str) -> (r: Result<u16, InvalidNumber>)
    ensures
        r matches Ok(n) ==> {
            &&& number_digits(text@).len() > 0
            &&& all_digits(number_digits(text@))
            &&& n == decimal_number(number_digits(text@))
        },
        r matches Err(e) ==> e == (if number_digits(text@).len() == 0 {
            InvalidNumber::Empty
        } else if !all_digits(number_digits(text@)) {
            InvalidNumber::NotADigit
        } else {
            InvalidNumber::TooLarge
        }),
        r is Err ==> (number_digits(text@).len() == 0 || !all_digits(number_digits(text@))
            || decimal_number(number_digits(text@)) > u16::MAX),
{
    let chars = chars_of(text);
    let start: usize = if chars.len() > 0 && chars[0] == '+' {
        1
    } else {
        0
    };
    let ghost digits = number_digits(text@);
    assert(digits == chars@.skip(start as int));
    if start == chars.len() {
        return Err(InvalidNumber::Empty);
    }
    let mut i: usize = start;
    while i < chars.len()
        invariant
            start <= i <= chars.len(),
            digits == number_digits(text@),
            digits == chars@.skip(start as int),
            all_digits(digits.take(i - start)),
        decreases chars.len() - i,
    {
        let c = chars[i];
        if !(c >= '0' && c <= '9') {
            assert(digits[i - start] == c);
            return Err(InvalidNumber::NotADigit);
        }
        assert forall|k: int| 0 <= k < i + 1 - start implies '0' <= #[trigger] digits.take(
            i + 1 - start,
        )[k] <= '9' by {
            if k < i - start {
                assert(digits.take(i - start)[k] == digits[k]);
            } else {
                assert(digits[k] == c);
            }
        }
        i += 1;
    }
    assert(digits.take(chars.len() - start) == digits);
    let mut value: u32 = 0;
    let mut k: usize = start;
    assert(decimal_number(digits.take(0)) == 0);
    while k < chars.len()
        invariant
            start <= k <= chars.len(),
            digits == number_digits(text@),
            digits == chars@.skip(start as int),
            all_digits(digits),
            value == decimal_number(digits.take(k - start)),
            value <= u16::MAX,
        decreases chars.len() - k,
    {
        let c = chars[k];
        assert(digits[k - start] == c);
        let d: u32 = (c as u8 - 48) as u32;
        proof {
            assert(digits.take(k + 1 - start).drop_last() == digits.take(k - start));
            assert(digits.take(k + 1 - start).last() == c);
        }
        let next: u32 = value * 10 + d;
        if next > 65535 {
            proof {
                lemma_decimal_number_grows(digits, k + 1 - start);
            }
            return Err(InvalidNumber::TooLarge);
        }
        value = next;
        k += 1;
    }
    assert(digits.take(chars.len() - start) == digits);
    Ok(value as u16)
}

/// The address of a repository with exactly one slash at its end.
pub open spec fn normalized_url(url: Seq<char>) -> Seq<char> {
    without_trailing(url, '/').push('/')
}

/// The address of a file of the repository: the base with one slash, then
/// the path with forward slashes and no slash at its start.
pub open spec fn file_url(base: Seq<char>, file: Seq<char>) -> Seq<char> {
    normalized_url(base) + without_leading(slashed(file), '/')
}

/// The name of the manifest of a repository.
pub open spec fn repo_json_name() -> Seq<char> {
    seq!['r', 'e', 'p', 'o', '.', 'j', 's', 'o', 'n']
}

/// The address of the manifest of a repository: the base itself where it
/// already ends in the manifest's name, else that name under the base.
pub open spec fn json_url(base: Seq<char>) -> Seq<char> {
    if has_suffix(without_trailing(base, '/'), repo_json_name()) {
        without_trailing(base, '/')
    } else {
        normalized_url(base) + repo_json_name()
    }
}

/// Gives the address of a repository exactly one slash at its end.
pub fn normalize_repo_url(url: &str) -> (r: String)
    ensures
        r@ == normalized_url(url@),
{
    let chars = chars_of(url);
    let mut out = trim_trailing(&chars, '/');
    out.push('/');
    string_of(&out)
}

/// The address of a file of the repository.
pub fn make_repo_file_url(base_url: &str, file_path: &str) -> (r: String)
    ensures
        r@ == file_url(base_url@, file_path@),
{
    let base = chars_of(base_url);
    let mut out = trim_trailing(&base, '/');
    out.push('/');
    let slashed_path = to_slashed(file_path);
    let path = chars_of(slashed_path.as_str());
    let mut tail = trim_leading(&path, '/');
    out.append(&mut tail);
    string_of(&out)
}

/// The address of the manifest of a repository.
pub fn make_repo_json_url(base_url: &str) -> (r: String)
    ensures
        r@ == json_url(base_url@),
{
    let base = chars_of(base_url);
    let mut out = trim_trailing(&base, '/');
    let mut name: Vec<char> = vec!['r', 'e', 'p', 'o', '.', 'j', 's', 'o', 'n'];
    assert(name@ == repo_json_name());
    if ends_with(&out, &name) {
        string_of(&out)
    } else {
        out.push('/');
        out.append(&mut name);
        string_of(&out)
    }
}

} // verus!
