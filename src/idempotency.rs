//! Idempotency keys and the guard's decision for a (user, key) pair.
use crate::codec::{decode, decode_response, CodecError, HttpResponse, ResponseView, SavedResponse, SavedView};
use vstd::prelude::*;

verus! {

/// The longest idempotency key accepted, in characters.
pub const MAX_KEY_LEN: usize = 50;

/// A key character is visible ASCII: no space, no control character.
pub open spec fn key_char(c: char) -> bool {
    '!' <= c && c <= '~'
}

/// Why a client-supplied idempotency key was rejected.
#[derive(Debug, PartialEq, Eq, Structural, Clone, Copy)]
pub enum KeyError {
    Empty,
    TooLong,
    InvalidCharacter,
}

pub open spec fn key_check(s: Seq<char>) -> Result<(), KeyError> {
    if s.len() == 0 {
        Err(KeyError::Empty)
    } else if s.len() > MAX_KEY_LEN {
        Err(KeyError::TooLong)
    } else if exists|i: int| 0 <= i < s.len() && !key_char(#[trigger] s[i]) {
        Err(KeyError::InvalidCharacter)
    } else {
        Ok(())
    }
}

/// A client-supplied token naming one logical command across retries.
pub struct IdempotencyKey {
    key: String,
}

impl View for IdempotencyKey {
    type V = Seq<char>;

    closed spec fn view(&self) -> Seq<char> {
        self.key@
    }
}

impl IdempotencyKey {
    /// Every key that exists passed validation.
    pub closed spec fn wf(&self) -> bool {
        key_check(self.key@) is Ok
    }

    /// Validates a raw key: 1 to 50 visible ASCII characters.
    pub fn try_from(s: String) -> (r: Result<IdempotencyKey, KeyError>)
        ensures
            match r {
                Ok(k) => key_check(s@) is Ok && k@ == s@ && k.wf(),
                Err(e) => key_check(s@) == Err::<(), KeyError>(e),
            },
    {
        let n = s.as_str().unicode_len();
        if n == 0 {
            return Err(KeyError::Empty);
        }
        if n > MAX_KEY_LEN {
            return Err(KeyError::TooLong);
        }
        let mut i: usize = 0;
        while i < n
            invariant
                n == s@.len(),
                0 < n <= MAX_KEY_LEN,
                i <= n,
                forall|j: int| 0 <= j < i ==> key_char(#[trigger] s@[j]),
            decreases n - i,
        {
            let c = s.as_str().get_char(i);
            if !('!' <= c && c <= '~') {
                assert(!key_char(s@[i as int]));
                return Err(KeyError::InvalidCharacter);
            }
            i = i + 1;
        }
        Ok(IdempotencyKey { key: s })
    }

    pub fn as_str(&self) -> (r: &str)
        ensures
            r@ == self@,
    {
        self.key.as_str()
    }

    pub fn to_string(&self) -> (r: String)
        ensures
            r@ == self@,
    {
        self.key.clone()
    }
}

/// What the guard decides for a command.
pub enum Decision {
    /// First attempt: run the command and store its response.
    StartProcessing,
    /// Duplicate: answer with the stored response.
    ReturnSavedResponse(HttpResponse),
}

/// Why the guard could not decide.
#[derive(Debug, PartialEq, Eq, Structural, Clone, Copy)]
pub enum GuardError {
    /// The row exists but its first attempt has not completed yet.
    NoSavedResponse,
    /// The stored response could not be decoded.
    Corrupt(CodecError),
}

/// The mathematical form of the guard's decision.
pub enum ActionView {
    StartProcessing,
    ReturnSavedResponse(ResponseView),
}

/// The decision, from whether the placeholder insert added a row and, if it
/// did not, the existing row's response columns (`None` while in progress).
pub open spec fn decide_spec(inserted: bool, saved: Option<SavedView>) -> Result<ActionView, GuardError> {
    if inserted {
        Ok(ActionView::StartProcessing)
    } else {
        match saved {
            None => Err(GuardError::NoSavedResponse),
            Some(sv) => match decode_response(sv) {
                Ok(r) => Ok(ActionView::ReturnSavedResponse(r)),
                Err(e) => Err(GuardError::Corrupt(e)),
            },
        }
    }
}

impl Decision {
    pub open spec fn view_action(&self) -> ActionView {
        match self {
            Decision::StartProcessing => ActionView::StartProcessing,
            Decision::ReturnSavedResponse(r) => ActionView::ReturnSavedResponse(r@),
        }
    }
}

pub open spec fn saved_view(s: Option<SavedResponse>) -> Option<SavedView> {
    match s {
        Some(x) => Some(x@),
        None => None,
    }
}

/// Decides between a first attempt and a replay, from the number of rows the
/// placeholder insert added and, when it added none, the existing row's
/// response columns.
pub fn decide_next_action(n_inserted_rows: u64, saved: &Option<SavedResponse>) -> (r: Result<Decision, GuardError>)
    ensures
        match r {
            Ok(a) => decide_spec(n_inserted_rows > 0, saved_view(*saved)) == Ok::<ActionView, GuardError>(a.view_action()),
            Err(e) => decide_spec(n_inserted_rows > 0, saved_view(*saved)) == Err::<ActionView, GuardError>(e),
        },
{
    if n_inserted_rows > 0 {
        return Ok(Decision::StartProcessing);
    }
    match saved {
        None => Err(GuardError::NoSavedResponse),
        Some(sv) => match decode(sv) {
            Ok(resp) => Ok(Decision::ReturnSavedResponse(resp)),
            Err(e) => Err(GuardError::Corrupt(e)),
        },
    }
}

} // verus!
