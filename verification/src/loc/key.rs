use vstd::prelude::*;
use vstd::string::{StringExecFns, StringSliceAdditionalSpecFns};

verus! {

/// Whether `b` is an ASCII letter.
pub open spec fn is_ascii_letter(b: u8) -> bool {
    (65 <= b <= 90) || (97 <= b <= 122)
}

/// Whether `b` may follow the first character of a Fluent identifier: an
/// ASCII letter or digit, `-` or `_`.
pub open spec fn is_identifier_tail(b: u8) -> bool {
    is_ascii_letter(b) || (48 <= b <= 57) || b == 45 || b == 95
}

/// Fluent's identifier grammar, `[a-zA-Z][a-zA-Z0-9_-]*`, over the UTF-8
/// bytes of a string.
pub open spec fn is_fluent_identifier(bytes: Seq<u8>) -> bool {
    &&& bytes.len() > 0
    &&& is_ascii_letter(bytes[0])
    &&& forall|i: int| 1 <= i < bytes.len() ==> #[trigger] is_identifier_tail(bytes[i])
}

/// Fluent's identifier grammar, `[a-zA-Z][a-zA-Z0-9_-]*`, built up one
/// byte at a time: no identifier is empty; a single byte is one exactly
/// when it is an ASCII letter (`A`-`Z`, `a`-`z`); an identifier followed
/// by one more byte is one exactly when that byte is an ASCII letter, an
/// ASCII digit (`0`-`9`), `-` or `_`; and dropping the last byte of a
/// longer identifier leaves an identifier.
pub proof fn law_identifier_grammar(s: Seq<u8>, b: u8)
    ensures
        !is_fluent_identifier(Seq::<u8>::empty()),
        is_fluent_identifier(seq![b]) <==> ((65 <= b <= 90) || (97 <= b <= 122)),
        is_fluent_identifier(s) ==> (is_fluent_identifier(s.push(b)) <==> ((65 <= b <= 90) || (97 <= b <= 122)
            || (48 <= b <= 57) || b == 45 || b == 95)),
        s.len() > 0 && is_fluent_identifier(s.push(b)) ==> is_fluent_identifier(s),
{
    assert(seq![b][0] == b);
    if is_fluent_identifier(s) {
        assert(s.push(b)[s.len() as int] == b);
        if is_fluent_identifier(s.push(b)) {
            assert(is_identifier_tail(s.push(b)[s.len() as int]));
        }
        if (65 <= b <= 90) || (97 <= b <= 122) || (48 <= b <= 57) || b == 45 || b == 95 {
            assert forall|i: int| 1 <= i < s.push(b).len() implies #[trigger] is_identifier_tail(s.push(b)[i]) by {
                if i < s.len() {
                    assert(s.push(b)[i] == s[i]);
                }
            }
        }
    }
    if s.len() > 0 && is_fluent_identifier(s.push(b)) {
        assert(s.push(b)[0] == s[0]);
        assert forall|i: int| 1 <= i < s.len() implies #[trigger] is_identifier_tail(s[i]) by {
            assert(s.push(b)[i] == s[i]);
            assert(is_identifier_tail(s.push(b)[i]));
        }
    }
}

/// Whether `s` matches Fluent's identifier grammar,
/// `[a-zA-Z][a-zA-Z0-9_-]*`: a letter, then any mix of letters, digits,
/// `-` and `_`.
pub fn is_valid_fluent_identifier(s: &str) -> (r: bool)
    ensures
        r == is_fluent_identifier(s.spec_bytes()),
{
    let bytes = s.as_bytes();
    if bytes.len() == 0 {
        return false;
    }
    let first = bytes[0];
    if !((65 <= first && first <= 90) || (97 <= first && first <= 122)) {
        return false;
    }
    let mut i: usize = 1;
    while i < bytes.len()
        invariant
            1 <= i <= bytes@.len(),
            bytes@ == s.spec_bytes(),
            forall|j: int| 1 <= j < i ==> #[trigger] is_identifier_tail(bytes@[j]),
        decreases bytes@.len() - i,
    {
        let b = bytes[i];
        if !((65 <= b && b <= 90) || (97 <= b && b <= 122) || (48 <= b && b <= 57) || b == 45 || b == 95) {
            proof {
                assert(!is_identifier_tail(bytes@[i as int]));
            }
            return false;
        }
        i = i + 1;
    }
    true
}

/// A localization key: a Fluent message identifier, checked against
/// Fluent's identifier grammar when the key is made.
#[derive(Debug, Clone, Copy, PartialEq, Eq, Hash)]
pub struct LocKey(&'static str);

impl LocKey {
    /// The key's text, as a specification value.
    pub closed spec fn spec_str(&self) -> &'static str {
        self.0
    }

    /// Every key satisfies the identifier grammar.
    pub closed spec fn wf(&self) -> bool {
        is_fluent_identifier(self.0.spec_bytes())
    }

    /// The key for `key`, or `None` when `key` is not a Fluent identifier.
    pub fn new(key: &'static str) -> (r: Option<LocKey>)
        ensures
            r is Some == is_fluent_identifier(key.spec_bytes()),
            r matches Some(k) ==> k.spec_str() == key && k.wf(),
    {
        if is_valid_fluent_identifier(key) {
            Some(LocKey(key))
        } else {
            None
        }
    }

    /// The key for `key`, already known to be a Fluent identifier.
    pub fn new_unchecked(key: &'static str) -> (k: LocKey)
        requires
            is_fluent_identifier(key.spec_bytes()),
        ensures
            k.spec_str() == key,
            k.wf(),
    {
        LocKey(key)
    }

    /// The raw key text: the message identifier, not resolved text.
    pub fn as_str(&self) -> (r: &'static str)
        ensures
            r == self.spec_str(),
    {
        self.0
    }

    /// The key as displayed: the raw key text.
    pub fn to_text(&self) -> (r: String)
        ensures
            r@ == self.spec_str()@,
    {
        String::from_str(self.0)
    }
}

} // verus!
