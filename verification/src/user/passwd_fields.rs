//! The fields of a record of the user table.
use vstd::prelude::*;

use crate::text::chars_of;
use crate::user::shadow_fields::{Shadow, ShadowView};
use crate::userlib::{Numbered, NumberedView};

verus! {

/// Whether a name may begin with `c`: a lower-case letter or an underscore.
pub open spec fn is_name_start(c: char) -> bool {
    'a' <= c <= 'z' || c == '_'
}

/// Whether `c` may stand inside a name: a lower-case letter, a digit, an
/// underscore or a hyphen.
pub open spec fn is_name_char(c: char) -> bool {
    'a' <= c <= 'z' || '0' <= c <= '9' || c == '_' || c == '-'
}

/// Whether `name` is a valid name of a user or a group: a first character
/// that may begin a name, then up to 31 characters that may stand inside
/// one, the last of which may be a dollar sign instead.
pub open spec fn name_valid(name: Seq<char>) -> bool {
    &&& 1 <= name.len() <= 32
    &&& is_name_start(name[0])
    &&& forall|i: int| 1 <= i < name.len() - 1 ==> is_name_char(#[trigger] name[i])
    &&& name.len() >= 2 ==> is_name_char(name.last()) || name.last() == '$'
}

/// Whether the characters are a valid name.
pub fn valid_name(name: &Vec<char>) -> (r: bool)
    ensures
        r == name_valid(name@),
{
    let n = name.len();
    if n < 1 || n > 32 {
        return false;
    }
    let first = name[0];
    if !((first >= 'a' && first <= 'z') || first == '_') {
        return false;
    }
    let mut i: usize = 1;
    while i < n
        invariant
            1 <= i <= n,
            n == name.len(),
            forall|j: int| 1 <= j < i && j < n - 1 ==> is_name_char(#[trigger] name@[j]),
            i == n && n >= 2 ==> is_name_char(name@.last()) || name@.last() == '$',
        decreases n - i,
    {
        let c = name[i];
        let inside = (c >= 'a' && c <= 'z') || (c >= '0' && c <= '9') || c == '_' || c == '-';
        if !inside && !(i == n - 1 && c == '$') {
            return false;
        }
        i += 1;
    }
    true
}

/// Whether `name` is a valid name of a user.
pub fn is_username_valid(name: &str) -> (r: bool)
    ensures
        r == name_valid(name@),
{
    let chars = chars_of(name);
    valid_name(&chars)
}

/// The password field of a user or a group.
#[derive(Debug, PartialEq, Eq, Clone)]
pub enum Password {
    /// The hashed passphrase, as the table holds it.
    Encrypted(String),
    /// The record of the shadow table that holds the passphrase.
    Shadow(Numbered<Shadow>),
    /// No passphrase.
    Disabled,
}

/// A password field as a mathematical value.
pub enum PasswordView {
    Encrypted(Seq<char>),
    Shadow(NumberedView<ShadowView>),
    Disabled,
}

impl View for Password {
    type V = PasswordView;

    open spec fn view(&self) -> PasswordView {
        match self {
            Password::Encrypted(p) => PasswordView::Encrypted(p@),
            Password::Shadow(s) => PasswordView::Shadow(s@),
            Password::Disabled => PasswordView::Disabled,
        }
    }
}

impl PasswordView {
    /// What the password field of a line holds: the hashed passphrase, or
    /// `x` where the shadow table has it or there is none.
    pub open spec fn text(self) -> Seq<char> {
        match self {
            PasswordView::Encrypted(p) => p,
            PasswordView::Shadow(_) => seq!['x'],
            PasswordView::Disabled => seq!['x'],
        }
    }
}

impl Password {
    /// A copy of the field.
    pub fn duplicate(&self) -> (r: Password)
        ensures
            r@ == self@,
    {
        match self {
            Password::Encrypted(p) => Password::Encrypted(p.clone()),
            Password::Shadow(s) => Password::Shadow(
                Numbered { pos: s.pos, value: s.value.duplicate() },
            ),
            Password::Disabled => Password::Disabled,
        }
    }

    /// The characters of the password field of a line.
    pub fn chars(&self) -> (out: Vec<char>)
        ensures
            out@ == self@.text(),
    {
        match self {
            Password::Encrypted(p) => chars_of(p.as_str()),
            _ => {
                let mut out: Vec<char> = Vec::new();
                out.push('x');
                out
            },
        }
    }
}

} // verus!
