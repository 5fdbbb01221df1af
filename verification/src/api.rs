//! Request-boundary types: the validated name that keys every lookup, and the
//! payload returned to the caller when a request fails.
use vstd::prelude::*;
use vstd::string::StrSliceExecFns;

verus! {

/// Names one character class: whether a character counts as a letter.
/// `char_is_alphabetic` is the only way to decide it at run time.
pub uninterp spec fn is_letter(c: char) -> bool;

/// Relies on char::is_alphabetic: whether the character is a Unicode letter,
/// a function of the character alone.
#[verifier::external_body]
fn char_is_alphabetic(c: char) -> (r: bool)
    ensures
        r == is_letter(c),
{
    c.is_alphabetic()
}

/// A name is accepted only when it is non-empty and made of letters alone.
pub open spec fn valid_name(s: Seq<char>) -> bool {
    &&& s.len() > 0
    &&& forall|i: int| 0 <= i < s.len() ==> is_letter(#[trigger] s[i])
}

/// String containing only alphabetic characters: the only form of name that
/// reaches the cache or the providers. Built exclusively through `try_new`,
/// so every value satisfies `valid_name`.
#[derive(Debug, Hash, PartialEq, Eq)]
pub struct Alpha(String);

impl View for Alpha {
    type V = Seq<char>;

    closed spec fn view(&self) -> Seq<char> {
        self.0@
    }
}

impl Alpha {
    /// Every value of the type holds a valid name.
    #[verifier::type_invariant]
    closed spec fn name_invariant(self) -> bool {
        valid_name(self@)
    }

    /// Validates a string and constructs a new `Alpha`; returns `None` iff the
    /// input is empty or holds a character that is not a letter. The accepted
    /// string is preserved exactly: no case or accent normalization.
    pub fn try_new(s: String) -> (r: Option<Alpha>)
        ensures
            match r {
                Some(a) => valid_name(s@) && a@ == s@,
                None => !valid_name(s@),
            },
    {
        let n = s.as_str().unicode_len();
        if n == 0 {
            return None;
        }
        let mut i: usize = 0;
        while i < n
            invariant
                n == s@.len(),
                0 <= i <= n,
                forall|j: int| 0 <= j < i ==> is_letter(#[trigger] s@[j]),
            decreases n - i,
        {
            if !char_is_alphabetic(s.as_str().get_char(i)) {
                return None;
            }
            i += 1;
        }
        Some(Alpha(s))
    }

    /// The underlying string of the validated name.
    pub fn as_str(&self) -> (r: &str)
        ensures
            r@ == self@,
    {
        self.0.as_str()
    }

    /// Gives the name up as a plain string, unchanged.
    pub fn into_string(self) -> (r: String)
        ensures
            r@ == self@,
    {
        self.0
    }
}

/// JSON payload sent to the caller on request failures.
#[derive(Clone, Debug)]
pub struct ErrorPayload {
    pub error: String,
}

impl ErrorPayload {
    pub fn new(s: String) -> (r: ErrorPayload)
        ensures
            r.error@ == s@,
    {
        ErrorPayload { error: s }
    }
}

} // verus!
