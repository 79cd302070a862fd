//! Tokens in the credential store of the system.
//!
//! Only Windows has such a store. What it is asked and what its replies mean is decided
//! here; the caller makes the system calls. No token becomes part of an error.
use vstd::prelude::*;
use vstd::utf8::{decode_utf8, encode_utf8, valid_utf8};
use crate::number;
use crate::text;

verus! {

/// Why a credential could not be read, written or deleted.
#[derive(Debug, Clone, Copy, PartialEq, Eq, Structural)]
pub enum CredentialError {
    /// The system has no credential store.
    Unsupported,
    /// The store refused to read, with this code.
    Read(u32),
    /// The store refused to write, with this code.
    Write(u32),
    /// The store refused to delete, with this code.
    Delete(u32),
    /// What the store holds is no text.
    NotText,
}

impl CredentialError {
    /// The message for a `CredentialError`.
    pub open spec fn message_of(self) -> Seq<char> {
        match self {
            CredentialError::Unsupported => "Credential Manager 仅支持 Windows"@,
            CredentialError::Read(code) => "读取凭据失败（code=0x"@ + number::hex(code as nat)
                + "）"@,
            CredentialError::Write(code) => "写入凭据失败（code=0x"@ + number::hex(code as nat)
                + "）"@,
            CredentialError::Delete(code) => "删除凭据失败（code=0x"@ + number::hex(code as nat)
                + "）"@,
            CredentialError::NotText => "凭据内容不是有效 UTF-8"@,
        }
    }

    /// A message for the reader of a log.
    pub fn message(&self) -> (r: String)
        ensures
            r@ == self.message_of(),
    {
        let mut out: Vec<char> = Vec::new();
        match self {
            CredentialError::Unsupported => {
                text::push_text(&mut out, "Credential Manager 仅支持 Windows");
            },
            CredentialError::Read(code) => {
                text::push_text(&mut out, "读取凭据失败（code=0x");
                number::push_hex(&mut out, *code);
                text::push_text(&mut out, "）");
            },
            CredentialError::Write(code) => {
                text::push_text(&mut out, "写入凭据失败（code=0x");
                number::push_hex(&mut out, *code);
                text::push_text(&mut out, "）");
            },
            CredentialError::Delete(code) => {
                text::push_text(&mut out, "删除凭据失败（code=0x");
                number::push_hex(&mut out, *code);
                text::push_text(&mut out, "）");
            },
            CredentialError::NotText => {
                text::push_text(&mut out, "凭据内容不是有效 UTF-8");
            },
        }
        assert(out@ =~= self.message_of());
        text::string_of(out.as_slice())
    }
}

/// Reads a credential on a system without a credential store: nothing is stored there.
pub fn read_credential(target: &str) -> (r: Result<Option<String>, CredentialError>)
    ensures
        r == Ok::<Option<String>, CredentialError>(None),
{
    let _ = target;
    Ok(None)
}

/// Writes a credential on a system without a credential store, which fails.
pub fn write_credential(target: &str, token: &str) -> (r: Result<(), CredentialError>)
    ensures
        r == Err::<(), CredentialError>(CredentialError::Unsupported),
{
    let _ = (target, token);
    Err(CredentialError::Unsupported)
}

/// Deletes a credential on a system without a credential store, which fails.
pub fn delete_credential(target: &str) -> (r: Result<(), CredentialError>)
    ensures
        r == Err::<(), CredentialError>(CredentialError::Unsupported),
{
    let _ = target;
    Err(CredentialError::Unsupported)
}

/// The system's error code for a credential that does not exist.
pub const ERROR_NOT_FOUND: u32 = 1168;

/// A system error code in the form in which the store's calls report it: an error of the
/// system facility. Zero and codes that already have that form stay as they are.
pub open spec fn hresult_of(code: u32) -> u32 {
    if code == 0 || code >= 0x8000_0000 {
        code
    } else {
        (0x8007_0000 + code % 0x1_0000) as u32
    }
}

/// A system error code in the form in which the store's calls report it.
pub fn hresult_from_win32(code: u32) -> (r: u32)
    ensures
        r == hresult_of(code),
{
    if code == 0 || code >= 0x8000_0000 {
        code
    } else {
        0x8007_0000 + code % 0x1_0000
    }
}

/// Whether a reported code says that the credential does not exist.
pub fn is_not_found(reported: u32) -> (r: bool)
    ensures
        r == (reported == hresult_of(ERROR_NOT_FOUND)),
{
    reported == hresult_from_win32(ERROR_NOT_FOUND)
}

/// A character in UTF-16: one unit, or two surrogates.
pub open spec fn utf16_units(c: char) -> Seq<u16> {
    let n = c as u32;
    if n < 0x1_0000 {
        seq![n as u16]
    } else {
        seq![
            (0xd800 + (n - 0x1_0000) / 0x400) as u16,
            (0xdc00 + (n - 0x1_0000) % 0x400) as u16,
        ]
    }
}

/// A text in UTF-16.
pub open spec fn utf16_of(s: Seq<char>) -> Seq<u16>
    decreases s.len(),
{
    if s.len() == 0 {
        Seq::empty()
    } else {
        utf16_of(s.drop_last()) + utf16_units(s.last())
    }
}

/// A text in UTF-16 with a zero behind it.
pub fn to_wide(value: &str) -> (r: Vec<u16>)
    ensures
        r@ == utf16_of(value@).push(0),
{
    let cs = text::chars_of(value);
    let n: usize = cs.len();
    let mut out: Vec<u16> = Vec::new();
    let mut i: usize = 0;
    while i < n
        invariant
            i <= n,
            n == cs@.len(),
            out@ == utf16_of(cs@.take(i as int)),
        decreases n - i,
    {
        let ch: char = cs[i];
        proof {
            vstd::utf8::char_is_scalar(ch);
        }
        let c: u32 = ch as u32;
        assert(cs@.take(i + 1).drop_last() == cs@.take(i as int));
        if c < 0x1_0000 {
            out.push(c as u16);
        } else {
            out.push((0xd800 + (c - 0x1_0000) / 0x400) as u16);
            out.push((0xdc00 + (c - 0x1_0000) % 0x400) as u16);
        }
        i = i + 1;
        assert(out@ =~= utf16_of(cs@.take(i as int)));
    }
    assert(cs@.take(n as int) == cs@);
    out.push(0);
    out
}

/// The name of the user that credentials are stored for.
pub const CREDENTIAL_USER: &'static str = "CodexPlusPlus";

/// A credential in the form in which the store takes it.
#[derive(Debug)]
pub struct CredentialRecord {
    /// The name to find it by, in UTF-16 with a zero behind it.
    pub target_name: Vec<u16>,
    /// The user's name, in UTF-16 with a zero behind it.
    pub user_name: Vec<u16>,
    /// The bytes of the token.
    pub blob: Vec<u8>,
    /// Their number, of which the store takes the lower 32 bits.
    pub blob_size: u32,
}

/// The record to store a token under a name.
pub fn credential_record(target: &str, token: &str) -> (r: CredentialRecord)
    ensures
        r.target_name@ == utf16_of(target@).push(0),
        r.user_name@ == utf16_of(CREDENTIAL_USER@).push(0),
        r.blob@ == encode_utf8(token@),
        r.blob_size == encode_utf8(token@).len() % 0x1_0000_0000,
{
    let bytes = token.as_bytes();
    let mut blob: Vec<u8> = Vec::new();
    blob.extend_from_slice(bytes);
    assert(blob@ =~= bytes@);
    let size: u64 = bytes.len() as u64;
    CredentialRecord {
        target_name: to_wide(target),
        user_name: to_wide(CREDENTIAL_USER),
        blob,
        blob_size: (size % 0x1_0000_0000) as u32,
    }
}

/// `String::from_utf8`: the text that bytes are the UTF-8 form of, if there is one.
#[verifier::external_body]
fn string_from_utf8(bytes: Vec<u8>) -> (r: Option<String>)
    ensures
        match r {
            Some(s) => valid_utf8(bytes@) && s@ == decode_utf8(bytes@),
            None => !valid_utf8(bytes@),
        },
{
    String::from_utf8(bytes).ok()
}

/// What a reply to the request to read means: the token, or that there is none.
pub open spec fn read_outcome_of(reply: Result<Seq<u8>, u32>) -> Result<
    Option<Seq<char>>,
    CredentialError,
> {
    match reply {
        Ok(blob) => if valid_utf8(blob) {
            Ok(Some(decode_utf8(blob)))
        } else {
            Err(CredentialError::NotText)
        },
        Err(code) => if code == hresult_of(ERROR_NOT_FOUND) {
            Ok(None)
        } else {
            Err(CredentialError::Read(code))
        },
    }
}

/// The token in the store's reply: the bytes that it holds, or the code that it reports.
pub fn read_outcome(reply: Result<Vec<u8>, u32>) -> (r: Result<Option<String>, CredentialError>)
    ensures
        match r {
            Ok(Some(token)) => read_outcome_of(
                match reply {
                    Ok(blob) => Ok(blob@),
                    Err(code) => Err(code),
                },
            ) == Ok::<Option<Seq<char>>, CredentialError>(Some(token@)),
            Ok(None) => read_outcome_of(
                match reply {
                    Ok(blob) => Ok(blob@),
                    Err(code) => Err(code),
                },
            ) == Ok::<Option<Seq<char>>, CredentialError>(None),
            Err(error) => read_outcome_of(
                match reply {
                    Ok(blob) => Ok(blob@),
                    Err(code) => Err(code),
                },
            ) == Err::<Option<Seq<char>>, CredentialError>(error),
        },
{
    match reply {
        Ok(blob) => match string_from_utf8(blob) {
            Some(token) => Ok(Some(token)),
            None => Err(CredentialError::NotText),
        },
        Err(code) => if is_not_found(code) {
            Ok(None)
        } else {
            Err(CredentialError::Read(code))
        },
    }
}

/// What a reply to the request to write means.
pub fn write_outcome(reply: Result<(), u32>) -> (r: Result<(), CredentialError>)
    ensures
        r == match reply {
            Ok(()) => Ok::<(), CredentialError>(()),
            Err(code) => Err(CredentialError::Write(code)),
        },
{
    match reply {
        Ok(()) => Ok(()),
        Err(code) => Err(CredentialError::Write(code)),
    }
}

/// What a reply to the request to delete means. A credential that does not exist counts
/// as deleted.
pub open spec fn delete_outcome_of(reply: Result<(), u32>) -> Result<(), CredentialError> {
    match reply {
        Ok(()) => Ok(()),
        Err(code) => if code == hresult_of(ERROR_NOT_FOUND) {
            Ok(())
        } else {
            Err(CredentialError::Delete(code))
        },
    }
}

/// What a reply to the request to delete means.
pub fn delete_outcome(reply: Result<(), u32>) -> (r: Result<(), CredentialError>)
    ensures
        r == delete_outcome_of(reply),
{
    match reply {
        Ok(()) => Ok(()),
        Err(code) => if is_not_found(code) {
            Ok(())
        } else {
            Err(CredentialError::Delete(code))
        },
    }
}

/// A token that the store gives back as it was written is read as it was.
pub proof fn law_stored_token_is_read_back(token: Seq<char>)
    ensures
        read_outcome_of(Ok(encode_utf8(token))) == Ok::<Option<Seq<char>>, CredentialError>(
            Some(token),
        ),
{
    vstd::utf8::encode_utf8_valid_utf8(token);
    vstd::utf8::encode_utf8_decode_utf8(token);
}

/// A credential that does not exist is no error, whether it is read or deleted.
pub proof fn law_missing_credential_is_no_error()
    ensures
        hresult_of(ERROR_NOT_FOUND) == 0x8007_0490,
        read_outcome_of(Err(hresult_of(ERROR_NOT_FOUND))) == Ok::<
            Option<Seq<char>>,
            CredentialError,
        >(None),
        delete_outcome_of(Err(hresult_of(ERROR_NOT_FOUND))) == Ok::<(), CredentialError>(()),
{
}

/// A store by the names of its credentials, as it behaves while its own operations succeed:
/// what it holds under a name is what was last written there.
pub type StoreView = Map<Seq<u16>, Seq<u8>>;

/// The name in the form in which the store takes it.
pub open spec fn wide_name(target: Seq<char>) -> Seq<u16> {
    utf16_of(target).push(0)
}

/// The bytes of a token that the store takes: as many as the record says.
pub open spec fn stored_bytes(token: Seq<char>) -> Seq<u8> {
    let blob = encode_utf8(token);
    blob.take((blob.len() % 0x1_0000_0000) as int)
}

/// A store after the record for a token was written to it.
pub open spec fn after_write(store: StoreView, target: Seq<char>, token: Seq<char>) -> StoreView {
    store.insert(wide_name(target), stored_bytes(token))
}

/// A store after a name was deleted from it.
pub open spec fn after_delete(store: StoreView, target: Seq<char>) -> StoreView {
    store.remove(wide_name(target))
}

/// What a store replies to the request to read.
pub open spec fn read_reply(store: StoreView, target: Seq<char>) -> Result<Seq<u8>, u32> {
    if store.contains_key(wide_name(target)) {
        Ok(store[wide_name(target)])
    } else {
        Err(hresult_of(ERROR_NOT_FOUND))
    }
}

/// What a store replies to the request to delete.
pub open spec fn delete_reply(store: StoreView, target: Seq<char>) -> Result<(), u32> {
    if store.contains_key(wide_name(target)) {
        Ok(())
    } else {
        Err(hresult_of(ERROR_NOT_FOUND))
    }
}

/// The token written last under a name is the one that is read, unchanged, whatever was
/// written there before. Its size is told in 32 bits.
pub proof fn law_last_write_is_read(
    store: StoreView,
    target: Seq<char>,
    first: Seq<char>,
    last: Seq<char>,
)
    requires
        encode_utf8(last).len() < 0x1_0000_0000,
    ensures
        read_outcome_of(
            read_reply(after_write(after_write(store, target, first), target, last), target),
        ) == Ok::<Option<Seq<char>>, CredentialError>(Some(last)),
{
    assert(stored_bytes(last) =~= encode_utf8(last));
    law_stored_token_is_read_back(last);
}

/// Nothing is read under a name that was never written or was deleted, and deleting it
/// succeeds every time.
pub proof fn law_deleted_credential_is_gone(store: StoreView, target: Seq<char>)
    ensures
        read_outcome_of(read_reply(after_delete(store, target), target)) == Ok::<
            Option<Seq<char>>,
            CredentialError,
        >(None),
        !store.contains_key(wide_name(target)) ==> read_outcome_of(read_reply(store, target))
            == Ok::<Option<Seq<char>>, CredentialError>(None),
        delete_outcome_of(delete_reply(store, target)) == Ok::<(), CredentialError>(()),
        delete_outcome_of(delete_reply(after_delete(store, target), target)) == Ok::<
            (),
            CredentialError,
        >(()),
{
}

/// A name without a zero character is ended by the zero behind its UTF-16 form and by no
/// other.
pub proof fn law_wide_name_ends_at_its_zero(s: Seq<char>)
    requires
        !s.contains('\0'),
    ensures
        !utf16_of(s).contains(0),
    decreases s.len(),
{
    if s.len() > 0 {
        assert forall|i: int| 0 <= i < s.drop_last().len() implies s.drop_last()[i] != '\0' by {
            assert(s.contains(s[i]));
        }
        law_wide_name_ends_at_its_zero(s.drop_last());
        assert(s.contains(s.last()));
        vstd::utf8::char_is_scalar(s.last());
        let front = utf16_of(s.drop_last());
        let units = utf16_units(s.last());
        assert(s.last() != '\0');
        assert(s.last() as u32 != 0) by {
            if s.last() as u32 == 0 {
                vstd::utf8::char_u32_cast(s.last(), 0);
                vstd::utf8::char_u32_cast('\0', 0);
            }
        }
        assert(units[0] != 0);
        assert(units.len() == 2 ==> units[1] != 0);
        assert forall|i: int| 0 <= i < utf16_of(s).len() implies utf16_of(s)[i] != 0 by {
            if i < front.len() {
                assert(front.contains(front[i]));
                assert(utf16_of(s)[i] == front[i]);
            } else {
                assert(utf16_of(s)[i] == units[i - front.len()]);
            }
        }
    }
}

/// The units of a character name it, and no other: its number where that fits one unit, and
/// else a high and a low surrogate that hold the ten bits above and below.
pub proof fn law_units_name_the_character(c: char)
    ensures
        (c as u32) < 0x1_0000 ==> utf16_units(c).len() == 1 && utf16_units(c)[0] == c as u32,
        (c as u32) >= 0x1_0000 ==> utf16_units(c).len() == 2 && 0xd800 <= utf16_units(c)[0]
            < 0xdc00 && 0xdc00 <= utf16_units(c)[1] < 0xe000 && 0x1_0000 + (utf16_units(c)[0]
            - 0xd800) * 0x400 + (utf16_units(c)[1] - 0xdc00) == c as u32,
{
    vstd::utf8::char_is_scalar(c);
}

/// A text in UTF-16 is its characters in UTF-16, one after the other.
pub proof fn law_wide_text_is_its_characters(s: Seq<char>, c: char)
    ensures
        utf16_of(Seq::<char>::empty()) == Seq::<u16>::empty(),
        utf16_of(s.push(c)) == utf16_of(s) + utf16_units(c),
{
    assert(s.push(c).drop_last() =~= s);
}

/// A code of the system is reported in the low half of a failure of the system facility, and
/// a code that has that form, or is none, as it is.
pub proof fn law_codes_are_reported_thus(code: u32)
    ensures
        0 < code < 0x8000_0000 ==> hresult_of(code) - 0x8007_0000 == code % 0x1_0000,
        code == 0 || code >= 0x8000_0000 ==> hresult_of(code) == code,
{
}

/// Every other code than that for a credential that does not exist is an error that names it,
/// and bytes that are no text are an error.
pub proof fn law_refusals_are_errors(code: u32, blob: Seq<u8>)
    ensures
        code != 0x8007_0490 ==> read_outcome_of(Err(code)) == Err::<
            Option<Seq<char>>,
            CredentialError,
        >(CredentialError::Read(code)),
        code != 0x8007_0490 ==> delete_outcome_of(Err(code)) == Err::<(), CredentialError>(
            CredentialError::Delete(code),
        ),
        delete_outcome_of(Ok(())) == Ok::<(), CredentialError>(()),
        valid_utf8(blob) ==> read_outcome_of(Ok(blob)) == Ok::<
            Option<Seq<char>>,
            CredentialError,
        >(Some(decode_utf8(blob))),
        !valid_utf8(blob) ==> read_outcome_of(Ok(blob)) == Err::<
            Option<Seq<char>>,
            CredentialError,
        >(CredentialError::NotText),
{
}

/// What an error says: the text for its kind, with the code in hexadecimal.
pub proof fn law_errors_name_the_code(code: u32)
    ensures
        CredentialError::Unsupported.message_of() == "Credential Manager 仅支持 Windows"@,
        CredentialError::Read(code).message_of() == "读取凭据失败（code=0x"@ + number::hex(
            code as nat,
        ) + "）"@,
        CredentialError::Write(code).message_of() == "写入凭据失败（code=0x"@ + number::hex(
            code as nat,
        ) + "）"@,
        CredentialError::Delete(code).message_of() == "删除凭据失败（code=0x"@ + number::hex(
            code as nat,
        ) + "）"@,
        CredentialError::NotText.message_of() == "凭据内容不是有效 UTF-8"@,
{
}

/// Credentials are stored for this user, and a token of a length that the store can take is
/// stored whole.
pub proof fn law_token_is_stored_whole(token: Seq<char>)
    requires
        encode_utf8(token).len() < 0x1_0000_0000,
    ensures
        stored_bytes(token) == encode_utf8(token),
        CREDENTIAL_USER@ == "CodexPlusPlus"@,
{
    assert(stored_bytes(token) =~= encode_utf8(token));
}

} // verus!
