//! Cutting a text at a place that is counted in bytes.

use vstd::prelude::*;
use vstd::string::StringExecFns;
use vstd::string::StringSliceAdditionalSpecFns;
use vstd::utf8;
use crate::text;

verus! {

/// Three parts side by side, each of which may be missing.
pub struct Triple<T> {
    pub left: Option<T>,
    pub middle: Option<T>,
    pub right: Option<T>,
}

/// The text of a part, or nothing where the part is missing.
pub open spec fn part_text(part: Option<String>) -> Seq<char> {
    match part {
        Some(s) => s@,
        None => Seq::empty(),
    }
}

/// The bytes of a part.
pub open spec fn part_bytes(part: Option<String>) -> Option<Seq<u8>> {
    match part {
        Some(s) => Some(utf8::encode_utf8(s@)),
        None => None,
    }
}

/// The first byte of a text as a text of its own, if the text starts with a
/// character of one byte.
pub open spec fn car_spec(bytes: Seq<u8>) -> Option<Seq<u8>> {
    if bytes.len() >= 1 && utf8::is_char_boundary(bytes, 1) {
        Some(bytes.subrange(0, 1))
    } else {
        None
    }
}

/// What follows the first byte of a text, if the text starts with a
/// character of one byte.
pub open spec fn cdr_spec(bytes: Seq<u8>) -> Option<Seq<u8>> {
    if bytes.len() >= 1 && utf8::is_char_boundary(bytes, 1) {
        Some(bytes.subrange(1, bytes.len() as int))
    } else {
        None
    }
}

/// The three parts that a cut at byte `index` leaves of a text: what stands
/// before the byte, the byte, and what stands behind it.  A cut at or behind
/// the end leaves the whole text on the left and nothing else; a cut at the
/// last byte leaves nothing on the right.
pub open spec fn divide_spec(bytes: Seq<u8>, index: int) -> (
    Option<Seq<u8>>,
    Option<Seq<u8>>,
    Option<Seq<u8>>,
) {
    if index >= bytes.len() {
        (Some(bytes), None, None)
    } else {
        let rest = bytes.subrange(index, bytes.len() as int);
        (
            Some(bytes.subrange(0, index)),
            car_spec(rest),
            if index == bytes.len() - 1 {
                None
            } else {
                cdr_spec(rest)
            },
        )
    }
}

impl<T> Triple<T> {
    /// The three parts side by side.
    pub fn new(left: Option<T>, middle: Option<T>, right: Option<T>) -> (r: Triple<T>)
        ensures
            r.left == left,
            r.middle == middle,
            r.right == right,
    {
        Triple { left, middle, right }
    }
}

impl Triple<String> {
    /// The parts that are there, one after the other.
    pub fn join(&self) -> (r: String)
        ensures
            r@ == part_text(self.left) + part_text(self.middle) + part_text(self.right),
    {
        let mut out = String::new();
        if let Some(left) = &self.left {
            out.append(left.as_str());
        }
        if let Some(middle) = &self.middle {
            out.append(middle.as_str());
        }
        if let Some(right) = &self.right {
            out.append(right.as_str());
        }
        assert(out@ =~= part_text(self.left) + part_text(self.middle) + part_text(self.right));
        out
    }
}

/// The first byte of `s` as a text, if `s` starts with a character of one
/// byte.
pub fn first_byte(s: &str) -> (r: Option<String>)
    ensures
        part_bytes(r) == car_spec(s.spec_bytes()),
{
    broadcast use vstd::utf8::encode_utf8_valid_utf8;

    if s.as_bytes().len() >= 1 && s.is_char_boundary(1) {
        let (head, _) = s.split_at(1);
        let out = String::from_str(head);
        assert(utf8::encode_utf8(out@) =~= s.spec_bytes().subrange(0, 1));
        Some(out)
    } else {
        None
    }
}

/// What follows the first byte of `s`, if `s` starts with a character of
/// one byte.
pub fn after_first_byte(s: &str) -> (r: Option<String>)
    ensures
        part_bytes(r) == cdr_spec(s.spec_bytes()),
{
    broadcast use vstd::utf8::encode_utf8_valid_utf8;

    if s.as_bytes().len() >= 1 && s.is_char_boundary(1) {
        let (_, tail) = s.split_at(1);
        let out = String::from_str(tail);
        assert(utf8::encode_utf8(out@) =~= s.spec_bytes().subrange(
            1,
            s.spec_bytes().len() as int,
        ));
        Some(out)
    } else {
        None
    }
}

/// The three parts that a cut at byte `index` leaves of `s`.
pub fn divide(s: &str, index: usize) -> (r: Triple<String>)
    requires
        index < s.spec_bytes().len() ==> utf8::is_char_boundary(s.spec_bytes(), index as int),
    ensures
        (part_bytes(r.left), part_bytes(r.middle), part_bytes(r.right)) == divide_spec(
            s.spec_bytes(),
            index as int,
        ),
{
    broadcast use vstd::utf8::encode_utf8_valid_utf8;

    let last_char = s.as_bytes().len();
    if index >= last_char {
        return Triple::new(Some(String::from_str(s)), None, None);
    }
    let (left, right) = s.split_at(index);
    let ghost rest = s.spec_bytes().subrange(index as int, s.spec_bytes().len() as int);
    assert(right.spec_bytes() =~= rest);
    let start = String::from_str(left);
    assert(utf8::encode_utf8(start@) =~= s.spec_bytes().subrange(0, index as int));
    if index == last_char - 1 {
        return Triple::new(Some(start), first_byte(right), None);
    }
    Triple::new(Some(start), first_byte(right), after_first_byte(right))
}

/// A text that can be cut.
pub trait StrTools {
    /// The bytes of the text.
    spec fn bytes(&self) -> Seq<u8>;

    /// The three parts that a cut at byte `index` leaves.  The cut has to
    /// fall between two characters.
    fn divide_at(&self, index: usize) -> (r: Triple<String>)
        requires
            index < self.bytes().len() ==> utf8::is_char_boundary(self.bytes(), index as int),
        ensures
            (part_bytes(r.left), part_bytes(r.middle), part_bytes(r.right)) == divide_spec(
                self.bytes(),
                index as int,
            ),
    ;

    /// The first byte as a text.
    fn car(&self) -> (r: Option<String>)
        ensures
            part_bytes(r) == car_spec(self.bytes()),
    ;

    /// What follows the first byte.
    fn cdr(&self) -> (r: Option<String>)
        ensures
            part_bytes(r) == cdr_spec(self.bytes()),
    ;
}

impl StrTools for String {
    open spec fn bytes(&self) -> Seq<u8> {
        utf8::encode_utf8(self@)
    }

    fn divide_at(&self, index: usize) -> (r: Triple<String>) {
        divide(self.as_str(), index)
    }

    fn car(&self) -> (r: Option<String>) {
        first_byte(self.as_str())
    }

    fn cdr(&self) -> (r: Option<String>) {
        after_first_byte(self.as_str())
    }
}

impl StrTools for &str {
    open spec fn bytes(&self) -> Seq<u8> {
        utf8::encode_utf8(self@)
    }

    fn divide_at(&self, index: usize) -> (r: Triple<String>) {
        divide(*self, index)
    }

    fn car(&self) -> (r: Option<String>) {
        first_byte(*self)
    }

    fn cdr(&self) -> (r: Option<String>) {
        after_first_byte(*self)
    }
}

} // verus!
