//! The private key that a run of probes uses.
use crate::config::{ConfigError, ConfigErrorModel, ConfigModel, ProbeConfig};
use crate::keys::{all_key_characters, base64_text, key_spec, x25519_public, SecretText};
use crate::text::{chars_of, is_whitespace, is_whitespace_spec, trim, trim_spec};
use vstd::prelude::*;
use vstd::string::*;

verus! {

/// A private key, kept as text, with the public key that belongs to it.
pub struct RunIdentity {
    private_key: SecretText,
    public_key: String,
}

/// Why a private key is refused.
#[derive(Debug)]
pub enum KeyError {
    Read { path: String, source: String },
    InvalidContents,
    Invalid(ConfigError),
}

impl KeyError {
    /// The message for the user.
    pub open spec fn message_spec(self) -> Seq<char> {
        match self {
            KeyError::Read { path, source } => "could not read key file "@ + path@ + ": "@ + source@,
            KeyError::InvalidContents => {
                "the private key must contain exactly one base64 value and no other content"@
            },
            KeyError::Invalid(error) => "invalid WireGuard private key: "@ + error@.message(),
        }
    }

    /// The message for the user.
    pub fn message(&self) -> (r: String)
        ensures
            r@ == self.message_spec(),
    {
        match self {
            KeyError::Read { path, source } => {
                let mut r = "could not read key file ".to_string();
                r.append(path.as_str());
                r.append(": ");
                r.append(source.as_str());
                r
            },
            KeyError::InvalidContents => {
                "the private key must contain exactly one base64 value and no other content".to_string()
            },
            KeyError::Invalid(error) => {
                let mut r = "invalid WireGuard private key: ".to_string();
                r.append(error.message().as_str());
                r
            },
        }
    }
}

/// Whether white space occurs in the text.
pub open spec fn holds_whitespace(s: Seq<char>) -> bool {
    exists|i: int| 0 <= i < s.len() && is_whitespace_spec(#[trigger] s[i])
}

fn has_whitespace(s: &str) -> (r: bool)
    ensures
        r == holds_whitespace(s@),
{
    let chars = chars_of(s);
    let mut i: usize = 0;
    while i < chars.len()
        invariant
            chars@ == s@,
            i <= s@.len(),
            forall|k: int| 0 <= k < i ==> !is_whitespace_spec(#[trigger] s@[k]),
        decreases s@.len() - i,
    {
        if is_whitespace(chars[i]) {
            assert(is_whitespace_spec(s@[i as int]));
            return true;
        }
        i = i + 1;
    }
    false
}

/// Whether a text is one word, white space round it aside.
pub open spec fn is_one_word(contents: Seq<char>) -> bool {
    trim_spec(contents).len() > 0 && !holds_whitespace(trim_spec(contents))
}

/// A text without white space is unchanged by trimming.
pub proof fn trimmed_word_is_itself(s: Seq<char>)
    requires
        !holds_whitespace(s),
    ensures
        trim_spec(s) == s,
{
    if s.len() > 0 {
        assert(!is_whitespace_spec(s[0]));
        assert(!is_whitespace_spec(s[s.len() - 1]));
    }
}

impl RunIdentity {
    /// The private key in base64.
    pub closed spec fn private_key_spec(self) -> Seq<char> {
        self.private_key@
    }

    /// The public key in base64.
    pub closed spec fn public_key_spec(self) -> Seq<char> {
        self.public_key@
    }

    /// The private key is one word that denotes a key, and the public key belongs to it.
    pub open spec fn wf(self) -> bool {
        &&& !holds_whitespace(self.private_key_spec())
        &&& all_key_characters(self.private_key_spec())
        &&& key_spec(self.private_key_spec()) is Some
        &&& self.public_key_spec() == base64_text(
            x25519_public(key_spec(self.private_key_spec()).unwrap()),
        )
    }

    /// The key in the contents of a key file, which may hold nothing else but white space.
    pub fn key_text(contents: &str) -> (r: Result<&str, KeyError>)
        ensures
            match r {
                Ok(key) => is_one_word(contents@) && key@ == trim_spec(contents@),
                Err(error) => !is_one_word(contents@) && error is InvalidContents,
            },
    {
        let key = trim(contents);
        if key.is_empty() || has_whitespace(key) {
            return Err(KeyError::InvalidContents);
        }
        Ok(key)
    }

    /// The identity in the contents of a key file, which may hold nothing else but white space.
    pub fn parse(contents: &str) -> (r: Result<RunIdentity, KeyError>)
        ensures
            match r {
                Ok(identity) => identity.wf() && is_one_word(contents@)
                    && identity.private_key_spec() == trim_spec(contents@),
                Err(KeyError::InvalidContents) => !is_one_word(contents@),
                Err(KeyError::Invalid(error)) => is_one_word(contents@) && key_spec(
                    trim_spec(contents@),
                ) is None && error@ == ConfigErrorModel::InvalidKey("PrivateKey"@),
                Err(_) => false,
            },
    {
        let key = match Self::key_text(contents) {
            Ok(key) => key,
            Err(error) => {
                return Err(error);
            },
        };
        let private_key = SecretText::from_text(key);
        proof {
            trimmed_word_is_itself(key@);
        }
        match crate::config::parse_private_key(private_key.as_str()) {
            Ok(secret) => {
                let public_key = secret.public_key_text();
                Ok(RunIdentity { private_key, public_key })
            },
            Err(error) => Err(KeyError::Invalid(error)),
        }
    }

    /// The identity in a key file, of which the contents were read or not.
    pub fn load(path: &str, contents: Result<SecretText, String>) -> (r: Result<
        RunIdentity,
        KeyError,
    >)
        ensures
            match r {
                Ok(identity) => contents matches Ok(text) && identity.wf() && is_one_word(text@)
                    && identity.private_key_spec() == trim_spec(text@),
                Err(KeyError::Read { path: shown, source }) => contents matches Err(error) && shown@
                    == path@ && source@ == error@,
                Err(KeyError::InvalidContents) => contents matches Ok(text) && !is_one_word(text@),
                Err(KeyError::Invalid(error)) => contents matches Ok(text) && is_one_word(text@)
                    && key_spec(trim_spec(text@)) is None && error@ == ConfigErrorModel::InvalidKey(
                    "PrivateKey"@,
                ),
            },
    {
        match contents {
            Ok(text) => Self::parse(text.as_str()),
            Err(source) => Err(KeyError::Read { path: path.to_string(), source }),
        }
    }

    /// A copy of the identity.
    pub fn copy(&self) -> (r: RunIdentity)
        ensures
            r.private_key_spec() == self.private_key_spec(),
            r.public_key_spec() == self.public_key_spec(),
    {
        RunIdentity {
            private_key: SecretText::from_text(self.private_key.as_str()),
            public_key: self.public_key.clone(),
        }
    }

    pub fn public_key(&self) -> (r: &str)
        ensures
            r@ == self.public_key_spec(),
    {
        self.public_key.as_str()
    }

    pub fn private_key(&self) -> (r: &str)
        ensures
            r@ == self.private_key_spec(),
    {
        self.private_key.as_str()
    }

    /// The configuration for a probe of the peer with this key at the endpoint.
    pub fn probe_config(&self, peer_public_key: &str, endpoint: &str) -> (r: Result<
        ProbeConfig,
        ConfigError,
    >)
        requires
            self.wf(),
        ensures
            match r {
                Ok(config) => key_spec(trim_spec(peer_public_key@)) matches Some(peer) && config@
                    == (ConfigModel {
                    private_key: key_spec(self.private_key_spec()).unwrap(),
                    peer_public_key: peer,
                    preshared_key: None,
                    endpoint: endpoint@,
                    address: None,
                    dns_servers: Seq::empty(),
                    allowed_ips: Seq::empty(),
                }),
                Err(e) => key_spec(trim_spec(peer_public_key@)) is None && e@
                    == ConfigErrorModel::InvalidKey("PublicKey"@),
            },
    {
        proof {
            trimmed_word_is_itself(self.private_key_spec());
        }
        ProbeConfig::from_parts(self.private_key(), peer_public_key, endpoint)
    }
}

/// Reading a key file again from the key that was read gives the same key.
pub proof fn parsed_key_is_stable(contents: Seq<char>)
    requires
        is_one_word(contents),
    ensures
        is_one_word(trim_spec(contents)),
        trim_spec(trim_spec(contents)) == trim_spec(contents),
{
    trimmed_word_is_itself(trim_spec(contents));
}

} // verus!
