use vstd::prelude::*;
use vstd::string::StrSliceExecFns;
use vstd::string::StringExecFns;
use rand::rngs::StdRng;
use crate::error::ErrorKind;
use crate::probability::Probability;
use crate::random::{chance, random_below, random_byte_between};

verus! {

/// What a distortion does at its place in the name.
#[derive(Debug, Clone, Copy, PartialEq, Eq)]
pub enum Edit {
    /// The character there is left out.
    Delete,
    /// The given lowercase letter is put in before it.
    Insert(char),
}

/// A typing mistake: one edit at one place of a name.
#[derive(Debug, Clone, Copy, PartialEq, Eq)]
pub struct Distortion {
    pub index: usize,
    pub edit: Edit,
}

/// The byte of `a`, the first letter that an insertion may draw.
pub const FIRST_LETTER: u8 = 97;

/// The byte of `z`, which bounds the letters that an insertion may draw and
/// is not drawn itself.
pub const LETTER_BOUND: u8 = 122;

pub open spec fn is_lowercase(c: char) -> bool {
    'a' <= c <= 'z'
}

/// The distortion can be made of `name`: the name has two characters or
/// more, the place is any but the last, and an inserted character is a
/// lowercase letter.
pub open spec fn can_distort(name: Seq<char>, distortion: Distortion) -> bool {
    &&& name.len() >= 2
    &&& distortion.index < name.len() - 1
    &&& (distortion.edit matches Edit::Insert(letter) ==> is_lowercase(letter))
}

/// The name with the distortion made.
pub open spec fn distorted(name: Seq<char>, distortion: Distortion) -> Seq<char> {
    match distortion.edit {
        Edit::Delete => name.remove(distortion.index as int),
        Edit::Insert(letter) => name.insert(distortion.index as int, letter),
    }
}

/// `other` is `name` with one character left out or one character put in.
pub open spec fn one_edit_apart(name: Seq<char>, other: Seq<char>) -> bool {
    ||| exists|i: int| 0 <= i < name.len() && other == #[trigger] name.remove(i)
    ||| exists|i: int, c: char| 0 <= i <= name.len() && other == #[trigger] name.insert(i, c)
}

/// A distortion changes the length of a name by exactly one, and its content
/// by exactly one character edit; so what comes out is never the name.
pub proof fn lemma_distortion_is_one_edit(name: Seq<char>, distortion: Distortion)
    requires
        can_distort(name, distortion),
    ensures
        distortion.edit is Delete ==> distorted(name, distortion).len() == name.len() - 1,
        distortion.edit is Insert ==> distorted(name, distortion).len() == name.len() + 1,
        one_edit_apart(name, distorted(name, distortion)),
        distorted(name, distortion) != name,
{
    let index = distortion.index as int;
    match distortion.edit {
        Edit::Delete => {
            assert(distorted(name, distortion) == name.remove(index));
        },
        Edit::Insert(letter) => {
            assert(distorted(name, distortion) == name.insert(index, letter));
        },
    }
}

/// Makes the distortion of `username`, or refuses with `InvalidInput` where
/// it cannot be made.
pub fn distort(username: &str, distortion: Distortion) -> (result: Result<String, ErrorKind>)
    ensures
        result is Ok <==> can_distort(username@, distortion),
        result matches Ok(name) ==> name@ == distorted(username@, distortion),
        result matches Err(e) ==> e == ErrorKind::InvalidInput,
{
    let length = username.unicode_len();
    let index = distortion.index;
    if length < 2 || index >= length - 1 {
        return Err(ErrorKind::InvalidInput);
    }
    let mut name = String::from_str(username.substring_char(0, index));
    match distortion.edit {
        Edit::Delete => {
            name.append(username.substring_char(index + 1, length));
        },
        Edit::Insert(letter) => {
            if letter < 'a' || letter > 'z' {
                return Err(ErrorKind::InvalidInput);
            }
            name.push(letter);
            name.append(username.substring_char(index, length));
        },
    }
    assert(name@ =~= distorted(username@, distortion));
    Ok(name)
}

/// Draws a distortion for a name of `length` characters: a place that is not
/// the last, and with one chance in two a deletion, else the insertion of a
/// random lowercase letter.
pub fn draw_distortion(rng: &mut StdRng, length: usize) -> (distortion: Distortion)
    requires
        length >= 2,
    ensures
        distortion.index < length - 1,
        distortion.edit matches Edit::Insert(letter) ==> is_lowercase(letter),
{
    let index = random_below(rng, length - 1);
    if chance(rng, Probability::half()) {
        Distortion { index, edit: Edit::Delete }
    } else {
        let letter = random_byte_between(rng, FIRST_LETTER, LETTER_BOUND) as char;
        Distortion { index, edit: Edit::Insert(letter) }
    }
}

} // verus!
