//! Account identifiers of the NEAR ledger.
//!
//! An identifier is 2 to 64 characters long, made of lower-case letters,
//! digits and the separators `-`, `_` and `.`; a separator neither begins nor
//! ends it, and no two separators stand side by side.
use crate::errors::ErrorKind;
use std::str::FromStr;
use vstd::prelude::*;

verus! {

/// Whether `c` separates the parts of an account identifier.
pub open spec fn is_separator(c: char) -> bool {
    c == '-' || c == '_' || c == '.'
}

/// Whether `c` may occur in an account identifier.
pub open spec fn is_account_char(c: char) -> bool {
    ('a' <= c && c <= 'z') || ('0' <= c && c <= '9') || is_separator(c)
}

/// Whether `s` is a well-formed account identifier.
pub open spec fn is_account_id(s: Seq<char>) -> bool {
    &&& 2 <= s.len() <= 64
    &&& forall|i: int| 0 <= i < s.len() ==> is_account_char(s[i])
    &&& !is_separator(s.first())
    &&& !is_separator(s.last())
    &&& forall|i: int| 0 < i < s.len() ==> !(is_separator(s[i - 1]) && is_separator(#[trigger] s[i]))
}

/// What [`extract_account_id`] returns for the text `s`, each identifier
/// taken as its text.
pub open spec fn extract_account_id_spec(s: Seq<char>) -> Result<Option<Seq<char>>, ErrorKind> {
    if s.len() == 0 {
        Ok(None)
    } else if is_account_id(s) {
        Ok(Some(s))
    } else {
        Err(ErrorKind::AccountAddressInvalid)
    }
}

/// The text of an identifier that may be absent.
pub open spec fn optional_id_view(id: Option<AccountId>) -> Option<Seq<char>> {
    match id {
        Some(id) => Some(id@),
        None => None,
    }
}

/// The error with which `near_primitives` refuses an identifier.
#[verifier::external_type_specification]
#[verifier::external_body]
pub struct ExParseAccountError(near_primitives::account::id::ParseAccountError);

/// A well-formed account identifier.
#[derive(Debug, PartialEq, Eq)]
pub struct AccountId {
    id: String,
}

impl View for AccountId {
    type V = Seq<char>;

    closed spec fn view(&self) -> Seq<char> {
        self.id@
    }
}

impl Clone for AccountId {
    fn clone(&self) -> (copy: Self)
        ensures
            copy@ == self@,
    {
        proof {
            use_type_invariant(self);
        }
        AccountId { id: self.id.clone() }
    }
}

/// Parses `text` with `near_primitives::types::AccountId::from_str` and hands
/// the identifier back as a `String`.
///
/// Trusted: that the parser accepts a text exactly when it is a well-formed
/// identifier as [`is_account_id`] says, and that the identifier it builds
/// holds the text unchanged.
#[verifier::external_body]
fn parse_near_account_id(text: &str) -> (r: Result<
    String,
    near_primitives::account::id::ParseAccountError,
>)
    ensures
        r is Ok <==> is_account_id(text@),
        r is Ok ==> r->Ok_0@ == text@,
{
    near_primitives::types::AccountId::from_str(text).map(String::from)
}

impl AccountId {
    #[verifier::type_invariant]
    spec fn well_formed(self) -> bool {
        is_account_id(self.id@)
    }

    /// Parses an account identifier.
    ///
    /// Succeeds exactly on well-formed identifiers, and keeps the text; fails
    /// with `AccountAddressInvalid` on every other text.
    pub fn from_str(text: &str) -> (r: Result<AccountId, ErrorKind>)
        ensures
            r is Ok <==> is_account_id(text@),
            r is Ok ==> r->Ok_0@ == text@,
            r is Err ==> r->Err_0 == ErrorKind::AccountAddressInvalid,
    {
        match parse_near_account_id(text) {
            Ok(id) => Ok(AccountId { id }),
            Err(_) => Err(ErrorKind::AccountAddressInvalid),
        }
    }

    /// The identifier as text, which is well-formed.
    pub fn as_str(&self) -> (text: &str)
        ensures
            text@ == self@,
            is_account_id(text@),
    {
        proof {
            use_type_invariant(self);
        }
        self.id.as_str()
    }

    /// Whether `text` names this account.
    pub fn is_named(&self, text: &String) -> (same: bool)
        ensures
            same == (text@ == self@),
    {
        *text == self.id
    }
}

/// Reads the counterparty of an event: no account where the text is empty (a
/// mint has no sender, a burn no receiver), else the account that the text
/// names.
///
/// Fails with `AccountAddressInvalid` where the text is neither empty nor a
/// well-formed identifier.
pub fn extract_account_id(text: &str) -> (r: Result<Option<AccountId>, ErrorKind>)
    ensures
        match r {
            Ok(id) => extract_account_id_spec(text@) == Ok::<Option<Seq<char>>, ErrorKind>(
                optional_id_view(id),
            ),
            Err(e) => extract_account_id_spec(text@) == Err::<Option<Seq<char>>, ErrorKind>(e),
        },
{
    if text.is_empty() {
        Ok(None)
    } else {
        match AccountId::from_str(text) {
            Ok(id) => Ok(Some(id)),
            Err(e) => Err(e),
        }
    }
}

} // verus!
