//! Validated names: lowercase command names and uppercase variable names.

use vstd::prelude::*;
use crate::errors::Error;

verus! {

pub open spec fn is_lower_char(c: char) -> bool {
    'a' <= c && c <= 'z'
}

pub open spec fn is_upper_char(c: char) -> bool {
    'A' <= c && c <= 'Z'
}

pub open spec fn is_digit_char(c: char) -> bool {
    '0' <= c && c <= '9'
}

/// A command name matches `[a-z_][a-z0-9_]*`.
pub open spec fn valid_command_name(s: Seq<char>) -> bool {
    &&& s.len() > 0
    &&& (is_lower_char(s[0]) || s[0] == '_')
    &&& forall|i: int|
        1 <= i < s.len() ==> is_lower_char(#[trigger] s[i]) || is_digit_char(s[i]) || s[i] == '_'
}

/// A variable name matches `[A-Z_][A-Z0-9_]*`.
pub open spec fn valid_variable_name(s: Seq<char>) -> bool {
    &&& s.len() > 0
    &&& (is_upper_char(s[0]) || s[0] == '_')
    &&& forall|i: int|
        1 <= i < s.len() ==> is_upper_char(#[trigger] s[i]) || is_digit_char(s[i]) || s[i] == '_'
}

/// The looser check the context store applies to names it stores:
/// `[A-Z0-9_]+`, a digit allowed even in front.
pub open spec fn valid_context_name(s: Seq<char>) -> bool {
    &&& s.len() > 0
    &&& forall|i: int|
        0 <= i < s.len() ==> is_upper_char(#[trigger] s[i]) || is_digit_char(s[i]) || s[i] == '_'
}

pub fn validate_context_name(name: &str) -> (r: bool)
    ensures
        r == valid_context_name(name@),
{
    let n = name.unicode_len();
    if n == 0 {
        return false;
    }
    let mut i: usize = 0;
    while i < n
        invariant
            n == name@.len(),
            i <= n,
            forall|j: int|
                0 <= j < i ==> is_upper_char(#[trigger] name@[j]) || is_digit_char(name@[j])
                    || name@[j] == '_',
        decreases n - i,
    {
        let c = name.get_char(i);
        if !(('A' <= c && c <= 'Z') || ('0' <= c && c <= '9') || c == '_') {
            return false;
        }
        i += 1;
    }
    true
}

pub fn validate_command_name(name: &str) -> (r: bool)
    ensures
        r == valid_command_name(name@),
{
    let n = name.unicode_len();
    if n == 0 {
        return false;
    }
    let first = name.get_char(0);
    if !(('a' <= first && first <= 'z') || first == '_') {
        return false;
    }
    let mut i: usize = 1;
    while i < n
        invariant
            n == name@.len(),
            1 <= i <= n,
            forall|j: int|
                1 <= j < i ==> is_lower_char(#[trigger] name@[j]) || is_digit_char(name@[j])
                    || name@[j] == '_',
        decreases n - i,
    {
        let c = name.get_char(i);
        if !(('a' <= c && c <= 'z') || ('0' <= c && c <= '9') || c == '_') {
            return false;
        }
        i += 1;
    }
    true
}

pub fn validate_variable_name(name: &str) -> (r: bool)
    ensures
        r == valid_variable_name(name@),
{
    let n = name.unicode_len();
    if n == 0 {
        return false;
    }
    let first = name.get_char(0);
    if !(('A' <= first && first <= 'Z') || first == '_') {
        return false;
    }
    let mut i: usize = 1;
    while i < n
        invariant
            n == name@.len(),
            1 <= i <= n,
            forall|j: int|
                1 <= j < i ==> is_upper_char(#[trigger] name@[j]) || is_digit_char(name@[j])
                    || name@[j] == '_',
        decreases n - i,
    {
        let c = name.get_char(i);
        if !(('A' <= c && c <= 'Z') || ('0' <= c && c <= '9') || c == '_') {
            return false;
        }
        i += 1;
    }
    true
}

/// The name of a build command, known to satisfy `valid_command_name`.
#[derive(Debug, PartialEq, Eq)]
pub struct CommandName {
    name: String,
}

impl CommandName {
    /// A well-formed command name's view satisfies the validator.
    pub proof fn lemma_wf(&self)
        requires
            self.wf(),
        ensures
            valid_command_name(self@),
    {
    }
}

impl Clone for CommandName {
    fn clone(&self) -> (r: Self)
        ensures
            r@ == self@,
            r.wf() == self.wf(),
    {
        CommandName { name: self.name.clone() }
    }
}

impl View for CommandName {
    type V = Seq<char>;

    closed spec fn view(&self) -> Seq<char> {
        self.name@
    }
}

impl CommandName {
    pub closed spec fn wf(&self) -> bool {
        valid_command_name(self.name@)
    }

    /// Accepts the string iff it is a well-formed command name.
    pub fn parse_value(value: &str) -> (r: Result<CommandName, Error>)
        ensures
            r matches Ok(c) ==> c@ == value@ && c.wf() && valid_command_name(value@),
            r is Err <==> !valid_command_name(value@),
            r matches Err(e) ==> e matches Error::InvalidName { .. },
    {
        if validate_command_name(value) {
            Ok(CommandName { name: value.to_owned() })
        } else {
            Err(Error::InvalidName { name: value.to_owned() })
        }
    }

    pub fn as_str(&self) -> (r: &str)
        ensures
            r@ == self@,
    {
        self.name.as_str()
    }

    pub fn eq_name(&self, other: &CommandName) -> (r: bool)
        ensures
            r == (self@ == other@),
    {
        crate::strutil::str_eq(self.name.as_str(), other.name.as_str())
    }
}

/// The name of a context variable, known to satisfy `valid_variable_name`.
#[derive(Debug, PartialEq, Eq)]
pub struct VariableName {
    name: String,
}

impl VariableName {
    /// A well-formed variable name's view satisfies the validator.
    pub proof fn lemma_wf(&self)
        requires
            self.wf(),
        ensures
            valid_variable_name(self@),
    {
    }
}

impl Clone for VariableName {
    fn clone(&self) -> (r: Self)
        ensures
            r@ == self@,
            r.wf() == self.wf(),
    {
        VariableName { name: self.name.clone() }
    }
}

impl View for VariableName {
    type V = Seq<char>;

    closed spec fn view(&self) -> Seq<char> {
        self.name@
    }
}

impl VariableName {
    pub closed spec fn wf(&self) -> bool {
        valid_variable_name(self.name@)
    }

    /// Accepts the string iff it is a well-formed variable name.
    pub fn parse_value(value: &str) -> (r: Result<VariableName, Error>)
        ensures
            r matches Ok(v) ==> v@ == value@ && v.wf() && valid_variable_name(value@),
            r is Err <==> !valid_variable_name(value@),
            r matches Err(e) ==> e matches Error::InvalidName { .. },
    {
        if validate_variable_name(value) {
            Ok(VariableName { name: value.to_owned() })
        } else {
            Err(Error::InvalidName { name: value.to_owned() })
        }
    }

    pub fn as_str(&self) -> (r: &str)
        ensures
            r@ == self@,
    {
        self.name.as_str()
    }

    pub fn eq_name(&self, other: &VariableName) -> (r: bool)
        ensures
            r == (self@ == other@),
    {
        crate::strutil::str_eq(self.name.as_str(), other.name.as_str())
    }
}

} // verus!
