//! Access tokens and the private keys that they are exchanged for.
use crate::keys::{
    base64_text, decode_key, encode_base64, is_key_notation, wipe_key, SecretText,
};
use crate::net::{hex_value, parse_hex_digit};
use crate::text::chars_of;
use vstd::prelude::*;
use vstd::string::*;

verus! {

/// Where the private key is fetched from.
pub const CREDENTIALS_URL: &'static str = "https://api.nordvpn.com/v1/users/services/credentials";

/// The largest response that is read.
pub const MAX_RESPONSE_BYTES: u64 = 65_536;

/// What stands for hidden characters on a terminal.
pub const LOCK_INDICATOR: char = '🔒';

/// The bytes of the lock in UTF-8.
pub open spec fn lock_bytes() -> Seq<u8> {
    seq![0xf0u8, 0x9fu8, 0x94u8, 0x92u8]
}

/// Whether the bytes erase characters on a terminal and do nothing else.
pub open spec fn erases(buffer: Seq<u8>) -> bool {
    &&& buffer.len() > 0
    &&& buffer.len() % 3 == 0
    &&& forall|i: int|
        0 <= i < buffer.len() ==> #[trigger] buffer[i] == if i % 3 == 1 {
            0x20u8
        } else {
            0x08u8
        }
}

/// The output of a prompt for hidden text: one lock is shown, however much is typed.
#[derive(Clone, Copy, Debug, PartialEq, Eq, Structural)]
pub struct SingleLockWriter {
    pub prompt_written: bool,
    pub lock_written: bool,
}

/// What happens to some output.
#[derive(Clone, Copy, Debug, PartialEq, Eq, Structural)]
pub enum LockOutput {
    /// It is dropped.
    Drop,
    /// It is written in full; that the lock is shown is noted then.
    ShowLock,
    /// It is passed on.
    Pass,
}

impl SingleLockWriter {
    pub fn new() -> (r: SingleLockWriter)
        ensures
            !r.prompt_written,
            !r.lock_written,
    {
        SingleLockWriter { prompt_written: false, lock_written: false }
    }

    /// What happens to some output. The prompt is passed on; behind it, a lock is shown once, and
    /// erased characters are not.
    pub open spec fn output_for(self, buffer: Seq<u8>) -> LockOutput {
        if self.prompt_written && buffer == lock_bytes() {
            if self.lock_written {
                LockOutput::Drop
            } else {
                LockOutput::ShowLock
            }
        } else if self.prompt_written && erases(buffer) {
            LockOutput::Drop
        } else {
            LockOutput::Pass
        }
    }

    /// What happens to some output.
    pub fn write(&self, buffer: &[u8]) -> (r: LockOutput)
        ensures
            r == self.output_for(buffer@),
    {
        if !self.prompt_written {
            return LockOutput::Pass;
        }
        if buffer.len() == 4 && buffer[0] == 0xf0 && buffer[1] == 0x9f && buffer[2] == 0x94
            && buffer[3] == 0x92 {
            assert(buffer@ =~= lock_bytes());
            return if self.lock_written {
                LockOutput::Drop
            } else {
                LockOutput::ShowLock
            };
        }
        if buffer.len() == 0 || buffer.len() % 3 != 0 {
            return LockOutput::Pass;
        }
        let mut i: usize = 0;
        while i < buffer.len()
            invariant
                i <= buffer@.len(),
                self.prompt_written,
                buffer@ != lock_bytes(),
                forall|k: int|
                    0 <= k < i ==> #[trigger] buffer@[k] == if k % 3 == 1 {
                        0x20u8
                    } else {
                        0x08u8
                    },
            decreases buffer@.len() - i,
        {
            let wanted: u8 = if i % 3 == 1 {
                0x20
            } else {
                0x08
            };
            if buffer[i] != wanted {
                assert(!erases(buffer@));
                return LockOutput::Pass;
            }
            i = i + 1;
        }
        LockOutput::Drop
    }

    /// Notes that the lock was shown.
    pub fn lock_shown(&mut self)
        ensures
            *final(self) == (SingleLockWriter { lock_written: true, ..*old(self) }),
    {
        self.lock_written = true;
    }

    /// Notes that the output was flushed: the prompt is there.
    pub fn flushed(&mut self)
        ensures
            *final(self) == (SingleLockWriter { prompt_written: true, ..*old(self) }),
    {
        self.prompt_written = true;
    }
}

/// Once the prompt and the lock are shown, neither more locks nor erased characters change what is
/// shown, so that the length of what is typed stays hidden.
pub proof fn lock_hides_length(writer: SingleLockWriter, buffer: Seq<u8>)
    requires
        writer.prompt_written,
        writer.lock_written,
        buffer == lock_bytes() || erases(buffer),
    ensures
        writer.output_for(buffer) == LockOutput::Drop,
{
}

/// Checks that the system can create files for their owner alone.
pub fn ensure_secure_file_creation(unix: bool) -> (r: Result<(), String>)
    ensures
        match r {
            Ok(_) => unix,
            Err(message) => !unix && message@
                == "native key retrieval currently requires Unix mode-0600 file creation"@,
        },
{
    if unix {
        Ok(())
    } else {
        Err("native key retrieval currently requires Unix mode-0600 file creation".to_string())
    }
}

/// Whether all characters are hexadecimal digits.
pub open spec fn all_hex(s: Seq<char>) -> bool {
    forall|i: int| 0 <= i < s.len() ==> hex_value(#[trigger] s[i]) is Some
}

/// Checks an access token: 64 hexadecimal digits.
pub fn validate_access_token(token: &str) -> (r: Result<(), String>)
    ensures
        match r {
            Ok(_) => token@.len() == 64 && all_hex(token@),
            Err(message) => !(token@.len() == 64 && all_hex(token@)) && message@
                == "the Nord access token must contain 64 hexadecimal characters"@,
        },
{
    let chars = chars_of(token);
    let mut valid: bool = chars.len() == 64;
    let mut i: usize = 0;
    while i < chars.len()
        invariant
            chars@ == token@,
            i <= token@.len(),
            valid == (token@.len() == 64 && forall|k: int|
                0 <= k < i ==> hex_value(#[trigger] token@[k]) is Some),
        decreases token@.len() - i,
    {
        valid = valid && parse_hex_digit(chars[i]).is_some();
        i = i + 1;
    }
    if valid {
        Ok(())
    } else {
        Err("the Nord access token must contain 64 hexadecimal characters".to_string())
    }
}

/// The 32 bytes that 64 hexadecimal digits denote.
pub open spec fn hex_key(s: Seq<char>) -> Option<Seq<u8>> {
    if s.len() == 64 && all_hex(s) {
        Some(
            Seq::new(
                32,
                |i: int|
                    (hex_value(s[2 * i]).unwrap() * 16 + hex_value(s[2 * i + 1]).unwrap()) as u8,
            ),
        )
    } else {
        None
    }
}

/// The notation of a private key that was received in base64 or in hexadecimal digits.
pub open spec fn normalize_spec(value: Seq<char>) -> Option<Seq<char>> {
    if is_key_notation(value) {
        Some(value)
    } else {
        match hex_key(value) {
            Some(key) => Some(base64_text(key)),
            None => None,
        }
    }
}

/// Reads 64 hexadecimal digits into `bytes`.
pub fn decode_hex_key(value: &str, bytes: &mut [u8; 32]) -> (r: bool)
    ensures
        match hex_key(value@) {
            Some(key) => r && final(bytes)@ == key,
            None => !r,
        },
{
    let chars = chars_of(value);
    if chars.len() != 64 {
        return false;
    }
    let mut i: usize = 0;
    while i < 32
        invariant
            i <= 32,
            chars@ == value@,
            value@.len() == 64,
            forall|k: int| 0 <= k < 2 * i ==> hex_value(#[trigger] value@[k]) is Some,
            forall|k: int|
                0 <= k < i ==> #[trigger] bytes@[k] == (hex_value(value@[2 * k]).unwrap() * 16
                    + hex_value(value@[2 * k + 1]).unwrap()) as u8,
        decreases 32 - i,
    {
        match (parse_hex_digit(chars[2 * i]), parse_hex_digit(chars[2 * i + 1])) {
            (Some(high), Some(low)) => {
                let ghost before = bytes@;
                let byte: u8 = (high * 16 + low) as u8;
                bytes[i] = byte;
                assert(bytes@ =~= before.update(i as int, byte));
            },
            _ => {
                assert(!all_hex(value@)) by {
                    assert(hex_value(value@[2 * i]) is None || hex_value(value@[2 * i + 1]) is None);
                }
                return false;
            },
        }
        i = i + 1;
    }
    assert(bytes@ =~= hex_key(value@).unwrap());
    true
}

/// The notation of a private key that was received in base64 or in hexadecimal digits: base64 is
/// kept as it is.
pub fn normalize_private_key(value: &str) -> (r: Result<SecretText, String>)
    ensures
        match r {
            Ok(text) => normalize_spec(value@) == Some(text@) && text@.len() == 44,
            Err(message) => normalize_spec(value@) is None && message@
                == "Nord returned an invalid NordLynx private key"@,
        },
{
    let mut decoded: [u8; 32] = [0; 32];
    if decode_key(value, &mut decoded) {
        wipe_key(&mut decoded);
        return Ok(SecretText::from_text(value));
    }
    if !decode_hex_key(value, &mut decoded) {
        wipe_key(&mut decoded);
        return Err("Nord returned an invalid NordLynx private key".to_string());
    }
    let text = SecretText::new(encode_base64(&decoded));
    wipe_key(&mut decoded);
    Ok(text)
}

/// A key is accepted exactly where it is the base64 notation of 32 bytes, which is kept, or 64
/// hexadecimal digits, which become the base64 notation of their bytes; and a normalized key is its
/// own normal form.
pub proof fn normalized_key_is_stable(value: Seq<char>)
    ensures
        (normalize_spec(value) is Some) == (is_key_notation(value) || hex_key(value) is Some),
        is_key_notation(value) ==> normalize_spec(value) == Some(value),
        !is_key_notation(value) && hex_key(value) is Some ==> normalize_spec(value) == Some(
            base64_text(hex_key(value).unwrap()),
        ),
        normalize_spec(value) matches Some(key) ==> is_key_notation(key) && normalize_spec(key)
            == Some(key),
{
    if !is_key_notation(value) && hex_key(value) is Some {
        let key = hex_key(value).unwrap();
        assert(key.len() == 32 && base64_text(key) == normalize_spec(value).unwrap());
    }
}

/// The errors of writing a key file.
#[derive(Debug)]
pub enum KeyFileFault {
    /// It could not be created.
    Create(String),
    /// It could not be written, and was removed.
    Write(String),
    /// It could not be written, and not be removed either.
    Remains(String),
}

impl KeyFileFault {
    /// The message for the user.
    pub open spec fn message_spec(self, path: Seq<char>) -> Seq<char> {
        match self {
            KeyFileFault::Create(error) => "could not create private-key file "@ + path + ": "@
                + error@,
            KeyFileFault::Write(error) => "could not write private-key file "@ + path + ": "@
                + error@,
            KeyFileFault::Remains(error) => {
                "private-key write failed and sensitive partial file "@ + path
                    + " could not be removed: "@ + error@
            },
        }
    }

    /// The message for the user.
    pub fn message(&self, path: &str) -> (r: String)
        ensures
            r@ == self.message_spec(path@),
    {
        match self {
            KeyFileFault::Create(error) => {
                let mut r = "could not create private-key file ".to_string();
                r.append(path);
                r.append(": ");
                r.append(error.as_str());
                r
            },
            KeyFileFault::Write(error) => {
                let mut r = "could not write private-key file ".to_string();
                r.append(path);
                r.append(": ");
                r.append(error.as_str());
                r
            },
            KeyFileFault::Remains(error) => {
                let mut r = "private-key write failed and sensitive partial file ".to_string();
                r.append(path);
                r.append(" could not be removed: ");
                r.append(error.as_str());
                r
            },
        }
    }
}

/// What a failed write comes to, after the file was removed or not.
pub fn key_write_fault(error: String, removed: Result<(), String>) -> (r: KeyFileFault)
    ensures
        match removed {
            Ok(_) => r == KeyFileFault::Write(error),
            Err(cleanup) => r == KeyFileFault::Remains(cleanup),
        },
{
    match removed {
        Ok(()) => KeyFileFault::Write(error),
        Err(cleanup) => KeyFileFault::Remains(cleanup),
    }
}

/// The contents of a key file: the key, and the end of the line.
pub fn key_file_text(key: &str) -> (r: SecretText)
    ensures
        r@ == key@.push('\n'),
{
    let mut text = SecretText::from_text(key);
    text.push('\n');
    text
}

/// Checks the size of a response, of which at most one byte more than the maximum was read.
pub fn check_response_size(length: u64) -> (r: Result<(), String>)
    ensures
        match r {
            Ok(_) => length <= MAX_RESPONSE_BYTES,
            Err(message) => length > MAX_RESPONSE_BYTES && message@
                == "Nord credential response exceeded the size limit"@,
        },
{
    if length > MAX_RESPONSE_BYTES {
        Err("Nord credential response exceeded the size limit".to_string())
    } else {
        Ok(())
    }
}

} // verus!
