//! Validated subscriber data: names and email addresses.
use vstd::prelude::*;
use vstd::string::StringExecFns;
use vstd::string::StrSliceExecFns;

verus! {

/// The Unicode White_Space characters, which `char::is_whitespace` reports.
pub open spec fn is_space(c: char) -> bool {
    ('\u{9}' <= c && c <= '\u{d}') || c == ' ' || c == '\u{85}' || c == '\u{a0}' || c == '\u{1680}' || (
    '\u{2000}' <= c && c <= '\u{200a}') || c == '\u{2028}' || c == '\u{2029}' || c == '\u{202f}' || c
        == '\u{205f}' || c == '\u{3000}'
}

pub fn char_is_space(c: char) -> (r: bool)
    ensures
        r == is_space(c),
{
    ('\u{9}' <= c && c <= '\u{d}') || c == ' ' || c == '\u{85}' || c == '\u{a0}' || c == '\u{1680}' || (
    '\u{2000}' <= c && c <= '\u{200a}') || c == '\u{2028}' || c == '\u{2029}' || c == '\u{202f}' || c
        == '\u{205f}' || c == '\u{3000}'
}

/// The longest subscriber name accepted, in characters.
pub const MAX_NAME_LEN: usize = 256;

/// Characters a subscriber name may not hold.
pub open spec fn forbidden_name_char(c: char) -> bool {
    c == '/' || c == '(' || c == ')' || c == '"' || c == '<' || c == '>' || c == '\\' || c == '{' || c == '}'
}

/// A name is not blank, has at most 256 characters, and holds none of
/// `/()"<>\{}`.
pub open spec fn valid_name(s: Seq<char>) -> bool {
    &&& exists|i: int| 0 <= i < s.len() && !is_space(#[trigger] s[i])
    &&& s.len() <= MAX_NAME_LEN
    &&& forall|i: int| 0 <= i < s.len() ==> !forbidden_name_char(#[trigger] s[i])
}

/// An address character is anything but white space and control characters.
pub open spec fn email_char(c: char) -> bool {
    ' ' < c && c != '\u{7f}' && !is_space(c)
}

/// An address has exactly one `@`, with characters on both sides of it, and
/// no white space or control character.
pub open spec fn valid_email(s: Seq<char>) -> bool {
    exists|a: int|
        0 < a < s.len() - 1 && #[trigger] s[a] == '@' && forall|j: int|
            0 <= j < s.len() ==> email_char(#[trigger] s[j]) && (s[j] == '@' ==> j == a)
}

pub struct SubscriberName {
    name: String,
}

impl View for SubscriberName {
    type V = Seq<char>;

    closed spec fn view(&self) -> Seq<char> {
        self.name@
    }
}

impl SubscriberName {
    pub closed spec fn wf(&self) -> bool {
        valid_name(self.name@)
    }

    /// Accepts a valid name; otherwise the error reads
    /// "<name> is not a valid subscriber name."
    pub fn parse(s: String) -> (r: Result<SubscriberName, String>)
        ensures
            match r {
                Ok(n) => valid_name(s@) && n@ == s@ && n.wf(),
                Err(e) => !valid_name(s@) && e@ == s@ + " is not a valid subscriber name."@,
            },
    {
        let n = s.as_str().unicode_len();
        let mut blank = true;
        let mut i: usize = 0;
        while i < n
            invariant
                n == s@.len(),
                i <= n,
                blank <==> forall|j: int| 0 <= j < i ==> is_space(#[trigger] s@[j]),
                forall|j: int| 0 <= j < i ==> !forbidden_name_char(#[trigger] s@[j]),
            decreases n - i,
        {
            let c = s.as_str().get_char(i);
            if c == '/' || c == '(' || c == ')' || c == '"' || c == '<' || c == '>' || c == '\\' || c == '{' || c
                == '}' {
                assert(forbidden_name_char(s@[i as int]));
                return Err(s.concat(" is not a valid subscriber name."));
            }
            if !char_is_space(c) {
                blank = false;
            }
            i = i + 1;
        }
        if blank || n > MAX_NAME_LEN {
            return Err(s.concat(" is not a valid subscriber name."));
        }
        Ok(SubscriberName { name: s })
    }

    pub fn as_str(&self) -> (r: &str)
        ensures
            r@ == self@,
    {
        self.name.as_str()
    }
}

pub struct SubscriberEmail {
    email: String,
}

impl View for SubscriberEmail {
    type V = Seq<char>;

    closed spec fn view(&self) -> Seq<char> {
        self.email@
    }
}

impl SubscriberEmail {
    pub closed spec fn wf(&self) -> bool {
        valid_email(self.email@)
    }

    /// Accepts a valid address; otherwise the error reads
    /// "<address> is not a valid subscriber email."
    pub fn parse(s: String) -> (r: Result<SubscriberEmail, String>)
        ensures
            match r {
                Ok(e) => valid_email(s@) && e@ == s@ && e.wf(),
                Err(msg) => !valid_email(s@) && msg@ == s@ + " is not a valid subscriber email."@,
            },
    {
        if is_valid_email(&s) {
            Ok(SubscriberEmail { email: s })
        } else {
            Err(s.concat(" is not a valid subscriber email."))
        }
    }

    pub fn as_str(&self) -> (r: &str)
        ensures
            r@ == self@,
    {
        self.email.as_str()
    }
}

/// Decides `valid_email`.
pub fn is_valid_email(s: &String) -> (r: bool)
    ensures
        r == valid_email(s@),
{
    let n = s.as_str().unicode_len();
    let mut at: usize = n;
    let mut i: usize = 0;
    while i < n
        invariant
            n == s@.len(),
            i <= n,
            at <= n,
            forall|j: int| 0 <= j < i ==> email_char(#[trigger] s@[j]),
            at == n ==> forall|j: int| 0 <= j < i ==> #[trigger] s@[j] != '@',
            at < n ==> at < i && s@[at as int] == '@' && forall|j: int|
                0 <= j < i && #[trigger] s@[j] == '@' ==> j == at,
        decreases n - i,
    {
        let c = s.as_str().get_char(i);
        if !(' ' < c && c != '\u{7f}' && !char_is_space(c)) {
            proof {
                assert(!email_char(s@[i as int]));
                assert(!valid_email(s@)) by {
                    if valid_email(s@) {
                        let a = choose|a: int|
                            0 < a < s@.len() - 1 && #[trigger] s@[a] == '@' && forall|j: int|
                                0 <= j < s@.len() ==> email_char(#[trigger] s@[j]) && (s@[j] == '@' ==> j == a);
                        assert(email_char(s@[i as int]));
                    }
                }
            }
            return false;
        }
        if c == '@' {
            if at < n {
                proof {
                    assert(!valid_email(s@)) by {
                        if valid_email(s@) {
                            let a = choose|a: int|
                                0 < a < s@.len() - 1 && #[trigger] s@[a] == '@' && forall|
                                    j: int,
                                |
                                    0 <= j < s@.len() ==> email_char(#[trigger] s@[j]) && (s@[j] == '@' ==> j
                                        == a);
                            assert(s@[at as int] == '@');
                            assert(s@[i as int] == '@');
                        }
                    }
                }
                return false;
            }
            at = i;
        }
        i = i + 1;
    }
    if at == n || at == 0 || at + 1 >= n {
        proof {
            assert(!valid_email(s@)) by {
                if valid_email(s@) {
                    let a = choose|a: int|
                        0 < a < s@.len() - 1 && #[trigger] s@[a] == '@' && forall|j: int|
                            0 <= j < s@.len() ==> email_char(#[trigger] s@[j]) && (s@[j] == '@' ==> j == a);
                    assert(s@[a] == '@');
                }
            }
        }
        return false;
    }
    assert(s@[at as int] == '@');
    true
}

/// A subscriber as entered in the subscription form, once validated.
pub struct NewSubscriber {
    pub email: SubscriberEmail,
    pub name: SubscriberName,
}

impl NewSubscriber {
    /// Validates the name first, then the address; the first failure's
    /// message is returned.
    pub fn try_from(name: String, email: String) -> (r: Result<NewSubscriber, String>)
        ensures
            match r {
                Ok(s) => valid_name(name@) && valid_email(email@) && s.name@ == name@ && s.email@ == email@,
                Err(msg) => if !valid_name(name@) {
                    msg@ == name@ + " is not a valid subscriber name."@
                } else {
                    !valid_email(email@) && msg@ == email@ + " is not a valid subscriber email."@
                },
            },
    {
        let name = SubscriberName::parse(name)?;
        let email = SubscriberEmail::parse(email)?;
        Ok(NewSubscriber { email, name })
    }
}

} // verus!
